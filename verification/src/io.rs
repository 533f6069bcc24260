//! What is read from files and written to them. CSV is native; workbooks are read
//! from and written to the cells of a spreadsheet library. Which of the two a file
//! is goes by its extension.

use vstd::prelude::*;

use crate::cells::{coords, in_order, lists};
use crate::colors::{
    apply_color_sidecar, color_rgb, color_sidecar, colored, colors_read_back, rgb_or_none,
    sidecar_text,
};
use crate::csv::{
    csv_cells, csv_fits, csv_reads_back, csv_text, csv_to_sheet, keeps_lines, sheet_to_csv,
};
use crate::dates::{excel_serial_to_string, serial_text};
use crate::eval::is_formula;
use crate::model::{
    blank, decimal_of_signed, display_text, fmt_full, full_text, signed_decimal, Book, CellV, Color,
    Coord, Sheet, SheetV,
};
use crate::num::{Bits, NumModel, Numerics, Op};
use crate::decimal::decimal;
use crate::table::{
    filled_cells, sheet_of_table, sheet_with, sheet_with_cells, table_view, text_at, texts,
};
use crate::text::{
    ascii_lower, chars_are, chars_of, lines, push_chars, push_text, slice_of, string_of,
    to_ascii_lower,
};

verus! {

// ---- file names -----------------------------------------------------------

/// Where the last dot of a name stands; minus one where there is none.
pub open spec fn last_dot(name: Seq<char>) -> int
    decreases name.len(),
{
    if name.len() == 0 {
        -1
    } else if name.last() == '.' {
        name.len() - 1
    } else {
        last_dot(name.drop_last())
    }
}

/// The extension of a file name, in small letters: what follows the last dot,
/// unless that dot begins the name.
pub open spec fn extension(name: Seq<char>) -> Seq<char> {
    let i = last_dot(name);
    if i <= 0 {
        Seq::empty()
    } else {
        ascii_lower(name.skip(i + 1))
    }
}

pub fn ext(file_name: &str) -> (e: Vec<char>)
    ensures
        e@ == extension(file_name@),
{
    let chars = chars_of(file_name);
    let n: usize = chars.len();
    let mut i: usize = n;
    assert(file_name@.take(n as int) =~= file_name@);
    while i > 0
        invariant
            chars@ == file_name@,
            n == chars@.len(),
            i <= n,
            last_dot(file_name@) == last_dot(file_name@.take(i as int)),
        decreases i,
    {
        i = i - 1;
        assert(file_name@.take(i + 1).drop_last() =~= file_name@.take(i as int));
        if chars[i] == '.' {
            if i == 0 {
                return Vec::new();
            }
            let tail = slice_of(chars.as_slice(), i + 1, n);
            assert(tail@ =~= file_name@.skip(i + 1));
            return to_ascii_lower(tail.as_slice());
        }
    }
    Vec::new()
}

/// How a file holds its sheets.
#[derive(Clone, Copy, PartialEq, Eq, Structural, Debug)]
pub enum Format {
    Csv,
    Workbook,
}

/// How a file with an extension is read.
pub open spec fn read_format(e: Seq<char>) -> Format {
    if e == "xlsx"@ || is_read_only(e) {
        Format::Workbook
    } else {
        Format::Csv
    }
}

/// Whether files with an extension are read but not written.
pub open spec fn is_read_only(e: Seq<char>) -> bool {
    e == "xlsm"@ || e == "xlsb"@ || e == "xls"@ || e == "ods"@
}

/// How a file with an extension is written; none where it is not.
pub open spec fn write_format(e: Seq<char>) -> Option<Format> {
    if e == "xlsx"@ {
        Some(Format::Workbook)
    } else if is_read_only(e) {
        None
    } else {
        Some(Format::Csv)
    }
}

/// The answer where a file cannot be written.
pub open spec fn refusal(e: Seq<char>) -> Seq<char> {
    "writing ."@ + e + " not supported \u{2014} save as .xlsx or .csv"@
}

fn read_only(e: &[char]) -> (r: bool)
    ensures
        r == is_read_only(e@),
{
    chars_are(e, "xlsm") || chars_are(e, "xlsb") || chars_are(e, "xls") || chars_are(e, "ods")
}

/// How a file is to be read.
pub fn load(file_name: &str) -> (f: Format)
    ensures
        f == read_format(extension(file_name@)),
{
    let e = ext(file_name);
    if chars_are(e.as_slice(), "xlsx") || read_only(e.as_slice()) {
        Format::Workbook
    } else {
        Format::Csv
    }
}

/// The path of the file that keeps the colours of a CSV file.
pub fn sidecar_path(path: &str) -> (s: String)
    ensures
        s@ == path@ + ".gcolors"@,
{
    let mut v = chars_of(path);
    push_text(&mut v, ".gcolors");
    string_of(v.as_slice())
}

// ---- CSV files ------------------------------------------------------------

/// The sheet of a CSV file and of its sidecar file, where there is one.
pub open spec fn csv_file_sheet(text: Seq<char>, sidecar: Option<Seq<char>>) -> SheetV {
    let sheet = sheet_with("Sheet1"@, csv_cells(text));
    match sidecar {
        Some(colors) => colored(sheet, lines(colors)),
        None => sheet,
    }
}

/// The text of a sidecar file that there may be.
pub open spec fn text_if_any(sidecar: Option<&str>) -> Option<Seq<char>> {
    match sidecar {
        Some(colors) => Some(colors@),
        None => None,
    }
}

/// The book of a CSV file: `text` is what the file holds, `sidecar` what its
/// sidecar file holds, where there is one.
pub fn load_csv(text: &str, sidecar: Option<&str>, path: std::path::PathBuf) -> (book: Book)
    requires
        csv_fits(text@),
    ensures
        book.sheets@.len() == 1,
        book.sheets@[0]@ == csv_file_sheet(text@, text_if_any(sidecar)),
        book.sheets@[0]@.well_formed(),
        book.active == 0,
        book.path == path,
        !book.dirty,
        book.well_formed(),
{
    let mut sheet = csv_to_sheet(text, "Sheet1".to_owned());
    if let Some(colors) = sidecar {
        apply_color_sidecar(colors, &mut sheet);
    }
    let mut sheets: Vec<Sheet> = Vec::new();
    sheets.push(sheet);
    Book { sheets, active: 0, path, dirty: false }
}

/// What is written for a CSV file: its text, and the text of its sidecar file,
/// none where no cell has a colour and there should be no such file.
pub struct CsvFile {
    pub text: String,
    pub sidecar: Option<String>,
}

impl CsvFile {
    /// The files hold a sheet.
    pub open spec fn holds(self, sheet: SheetV) -> bool {
        &&& self.text@ == csv_text(sheet)
        &&& match self.sidecar {
            Some(colors) => colors@ == sidecar_text(sheet) && colors@.len() > 0,
            None => sidecar_text(sheet).len() == 0,
        }
    }
}

/// What is written to save the active sheet as a CSV file.
pub fn save_csv(book: &Book) -> (file: CsvFile)
    requires
        book.well_formed(),
    ensures
        file.holds(book.sheets@[book.active as int]@),
{
    let sheet = book.sheet();
    let colors = color_sidecar(sheet);
    let none: bool = colors.as_str().is_empty();
    CsvFile {
        text: sheet_to_csv(sheet),
        sidecar: if none {
            None
        } else {
            Some(colors)
        },
    }
}

/// What is saved as a CSV file loads back with the texts and the colours that it
/// had in every cell.
pub proof fn saved_csv_loads_back(sheet: SheetV)
    requires
        sheet.well_formed(),
        keeps_lines(sheet),
    ensures
        ({
            let sidecar = if sidecar_text(sheet).len() == 0 {
                None
            } else {
                Some(sidecar_text(sheet))
            };
            let back = csv_file_sheet(csv_text(sheet), sidecar);
            forall|r: u32, c: u32|
                ({
                    let cell = #[trigger] back.cell(r, c);
                    &&& cell.raw == sheet.cell(r, c).raw
                    &&& rgb_or_none(cell.fg) == rgb_or_none(sheet.cell(r, c).fg)
                    &&& rgb_or_none(cell.bg) == rgb_or_none(sheet.cell(r, c).bg)
                })
        }),
{
    let cells = csv_cells(csv_text(sheet));
    let plain = sheet_with("Sheet1"@, cells);
    csv_reads_back(sheet);
    assert(cells.dom().subset_of(sheet.cells.dom())) by {
        assert forall|at: Coord| #[trigger] cells.dom().contains(at) implies sheet.cells.dom(
        ).contains(at) by {
            assert(cells.contains_key(at));
        }
    }
    vstd::set_lib::lemma_set_subset_finite(sheet.cells.dom(), cells.dom());
    assert forall|at: Coord| #[trigger] cells.contains_key(at) implies at.0 < u32::MAX && at.1
        < u32::MAX && cells[at].raw.len() > 0 by {
        assert(sheet.cells.contains_key(at));
    }
    sheet_with_cells("Sheet1"@, cells);
    colors_read_back(plain, sheet);
    let text = sidecar_text(sheet);
    let colored_back = colored(plain, lines(text));
    assert(text.len() == 0 ==> lines(text) =~= Seq::<Seq<char>>::empty());
    assert forall|r: u32, c: u32|
        ({
            let cell = #[trigger] colored_back.cell(r, c);
            &&& cell.raw == sheet.cell(r, c).raw
            &&& rgb_or_none(cell.fg) == rgb_or_none(sheet.cell(r, c).fg)
            &&& rgb_or_none(cell.bg) == rgb_or_none(sheet.cell(r, c).bg)
        }) by {
        let at: Coord = (r, c);
        assert(cells.contains_key(at) <==> sheet.cell(at.0, at.1).raw.len() > 0);
        assert(plain.cell(r, c).raw =~= sheet.cell(r, c).raw);
    }
}

// ---- reading workbooks ----------------------------------------------------

/// What a workbook holds in a cell.
pub enum CellData {
    Empty,
    Text(String),
    Number(Bits),
    Int(i64),
    Bool(bool),
    /// A date: its whole days, none where it is less than one day, and the seconds
    /// of its last day.
    DateTime(Option<i64>, u32),
    Error,
}

impl CellData {
    /// A date is no later than the calendar can count.
    pub open spec fn in_calendar(self) -> bool {
        match self {
            CellData::DateTime(Some(days), _) => 0 <= days <= i64::MAX - 719_468,
            _ => true,
        }
    }
}

/// The text of what a workbook holds in a cell, numbers in full.
pub open spec fn data_text(m: NumModel, d: CellData) -> Seq<char> {
    match d {
        CellData::Empty | CellData::Error => Seq::empty(),
        CellData::Text(s) => s@,
        CellData::Number(n) => full_text(n, (m.fixed)(n)),
        CellData::Int(n) => signed_decimal(n as int),
        CellData::Bool(b) => if b {
            "TRUE"@
        } else {
            "FALSE"@
        },
        CellData::DateTime(days, secs) => serial_text(days, secs as nat),
    }
}

pub fn data_to_raw<
    P: Fn(&str) -> Option<Bits>,
    S: Fn(Bits) -> String,
    C: Fn(Op, Bits, Bits) -> Bits,
>(
    numerics: &Numerics<P, S, C>,
    d: &CellData,
) -> (s: String)
    requires
        numerics.valid(),
        d.in_calendar(),
    ensures
        s@ == data_text(numerics.model(), *d),
{
    match d {
        CellData::Empty | CellData::Error => String::new(),
        CellData::Text(s) => s.clone(),
        CellData::Number(n) => fmt_full(*n, numerics.fixed_text(*n).as_str()),
        CellData::Int(n) => decimal_of_signed(*n),
        CellData::Bool(b) => if *b {
            "TRUE".to_owned()
        } else {
            "FALSE".to_owned()
        },
        CellData::DateTime(days, secs) => excel_serial_to_string(*days, *secs),
    }
}

/// A cell of a workbook: what it holds, and the text of its formula.
pub struct LoadedCell {
    pub data: CellData,
    pub formula: Option<String>,
}

/// The raw text of a cell of a workbook: its formula where it has one, so that
/// formulas survive, else what it holds.
pub open spec fn loaded_text(m: NumModel, cell: LoadedCell) -> Seq<char> {
    match cell.formula {
        Some(f) => if f@.len() > 0 {
            seq!['='] + f@
        } else {
            data_text(m, cell.data)
        },
        None => data_text(m, cell.data),
    }
}

/// A sheet of a workbook: its cells in rows, the first of them at `corner`.
pub struct LoadedSheet {
    pub name: String,
    pub corner: (u32, u32),
    pub rows: Vec<Vec<LoadedCell>>,
}

impl LoadedSheet {
    /// The raw texts of the cells.
    pub open spec fn table(self, m: NumModel) -> Seq<Seq<Seq<char>>> {
        Seq::new(
            self.rows@.len(),
            |r: int|
                Seq::new(self.rows@[r]@.len(), |c: int| loaded_text(m, self.rows@[r]@[c])),
        )
    }

    /// Every cell has a place in a sheet, and every date is in the calendar.
    pub open spec fn fits(self) -> bool {
        &&& self.corner.0 + self.rows@.len() <= u32::MAX
        &&& forall|r: int|
            #![trigger self.rows@[r]]
            0 <= r < self.rows@.len() ==> {
                &&& self.corner.1 + self.rows@[r]@.len() <= u32::MAX
                &&& forall|c: int|
                    0 <= c < self.rows@[r]@.len() ==> (
                    #[trigger] self.rows@[r]@[c]).data.in_calendar()
            }
    }

    /// The sheet that is made of it.
    pub open spec fn sheet(self, m: NumModel) -> SheetV {
        sheet_with(self.name@, filled_cells(self.table(m), self.corner))
    }
}

fn loaded_row<P: Fn(&str) -> Option<Bits>, S: Fn(Bits) -> String, C: Fn(Op, Bits, Bits) -> Bits>(
    numerics: &Numerics<P, S, C>,
    row: &Vec<LoadedCell>,
) -> (out: Vec<String>)
    requires
        numerics.valid(),
        forall|c: int| 0 <= c < row@.len() ==> (#[trigger] row@[c]).data.in_calendar(),
    ensures
        texts(out@) == Seq::new(row@.len(), |c: int| loaded_text(numerics.model(), row@[c])),
{
    let mut out: Vec<String> = Vec::new();
    let mut c: usize = 0;
    while c < row.len()
        invariant
            numerics.valid(),
            forall|c: int| 0 <= c < row@.len() ==> (#[trigger] row@[c]).data.in_calendar(),
            c <= row@.len(),
            out@.len() == c,
            forall|i: int|
                0 <= i < c ==> (#[trigger] out@[i])@ == loaded_text(numerics.model(), row@[i]),
        decreases row@.len() - c,
    {
        let cell = &row[c];
        let raw = match &cell.formula {
            Some(f) => if f.as_str().is_empty() {
                data_to_raw(numerics, &cell.data)
            } else {
                let mut v: Vec<char> = Vec::new();
                v.push('=');
                push_text(&mut v, f.as_str());
                assert(v@ =~= seq!['='] + f@);
                string_of(v.as_slice())
            },
            None => data_to_raw(numerics, &cell.data),
        };
        out.push(raw);
        c = c + 1;
    }
    assert(texts(out@) =~= Seq::new(row@.len(), |c: int| loaded_text(numerics.model(), row@[c])));
    out
}

fn load_sheet<P: Fn(&str) -> Option<Bits>, S: Fn(Bits) -> String, C: Fn(Op, Bits, Bits) -> Bits>(
    numerics: &Numerics<P, S, C>,
    from: &LoadedSheet,
) -> (sheet: Sheet)
    requires
        numerics.valid(),
        from.fits(),
    ensures
        sheet@ == from.sheet(numerics.model()),
        sheet@.well_formed(),
{
    let ghost m = numerics.model();
    let mut table: Vec<Vec<String>> = Vec::new();
    let mut r: usize = 0;
    while r < from.rows.len()
        invariant
            numerics.valid(),
            from.fits(),
            m == numerics.model(),
            r <= from.rows@.len(),
            table@.len() == r,
            forall|i: int| 0 <= i < r ==> texts(#[trigger] table@[i]@) == from.table(m)[i],
        decreases from.rows@.len() - r,
    {
        let row = loaded_row(numerics, &from.rows[r]);
        assert(from.table(m)[r as int] =~= texts(row@));
        table.push(row);
        r = r + 1;
    }
    assert(table_view(table@) =~= from.table(m));
    assert forall|i: int| 0 <= i < from.table(m).len() implies from.corner.1 + (
    #[trigger] from.table(m)[i]).len() <= u32::MAX by {
        assert(from.corner.1 + from.rows@[i]@.len() <= u32::MAX);
    }
    sheet_of_table(from.name.clone(), &table, from.corner)
}

/// The book of a workbook. A workbook without sheets gives a book with an empty
/// one.
pub fn load_calamine<
    P: Fn(&str) -> Option<Bits>,
    S: Fn(Bits) -> String,
    C: Fn(Op, Bits, Bits) -> Bits,
>(
    numerics: &Numerics<P, S, C>,
    from: &Vec<LoadedSheet>,
    path: std::path::PathBuf,
) -> (book: Book)
    requires
        numerics.valid(),
        forall|i: int| 0 <= i < from@.len() ==> (#[trigger] from@[i]).fits(),
    ensures
        from@.len() == 0 ==> book.sheets@.len() == 1 && book.sheets@[0]@ == SheetV::empty(
            "Sheet1"@,
        ),
        from@.len() > 0 ==> book.sheets@.len() == from@.len(),
        forall|i: int|
            0 <= i < from@.len() ==> (#[trigger] book.sheets@[i])@ == from@[i].sheet(
                numerics.model(),
            ),
        forall|i: int|
            0 <= i < book.sheets@.len() ==> (#[trigger] book.sheets@[i])@.well_formed(),
        book.active == 0,
        book.path == path,
        !book.dirty,
        book.well_formed(),
{
    let mut sheets: Vec<Sheet> = Vec::new();
    let mut i: usize = 0;
    while i < from.len()
        invariant
            numerics.valid(),
            forall|i: int| 0 <= i < from@.len() ==> (#[trigger] from@[i]).fits(),
            i <= from@.len(),
            sheets@.len() == i,
            forall|j: int|
                0 <= j < i ==> (#[trigger] sheets@[j])@ == from@[j].sheet(numerics.model())
                    && sheets@[j]@.well_formed(),
        decreases from@.len() - i,
    {
        sheets.push(load_sheet(numerics, &from[i]));
        i = i + 1;
    }
    if sheets.len() == 0 {
        sheets.push(Sheet::named("Sheet1".to_owned()));
    }
    Book { sheets, active: 0, path, dirty: false }
}

/// A formula survives in a workbook: what is written of it is read as the text
/// that the cell had.
pub proof fn formulas_survive(m: NumModel, cell: CellV, back: LoadedCell)
    requires
        is_formula(cell.raw),
        cell.raw.len() > 1,
        back.formula is Some,
        content_of(m, cell) is Formula,
        back.formula->0@ == content_of(m, cell)->Formula_0,
    ensures
        loaded_text(m, back) == cell.raw,
{
    assert(seq!['='] + cell.raw.skip(1) =~= cell.raw);
}

// ---- writing workbooks ----------------------------------------------------

/// What is written to a cell of a workbook.
pub enum Content {
    /// A formula, without its equals sign, and the text of its value.
    Formula(String, String),
    Number(Bits),
    Text(String),
}

/// What is written to a cell, with its texts as character sequences.
pub enum ContentV {
    Formula(Seq<char>, Seq<char>),
    Number(Bits),
    Text(Seq<char>),
}

impl View for Content {
    type V = ContentV;

    open spec fn view(&self) -> ContentV {
        match self {
            Content::Formula(e, v) => ContentV::Formula(e@, v@),
            Content::Number(n) => ContentV::Number(*n),
            Content::Text(s) => ContentV::Text(s@),
        }
    }
}

/// A cell to be written to a workbook; its colours as 24-bit numbers.
pub struct XlsxCell {
    pub row: u32,
    pub col: u16,
    pub fg: Option<u32>,
    pub bg: Option<u32>,
    pub content: Content,
}

/// A cell to be written, with its texts as character sequences.
pub struct XlsxCellV {
    pub row: u32,
    pub col: u16,
    pub fg: Option<u32>,
    pub bg: Option<u32>,
    pub content: ContentV,
}

impl View for XlsxCell {
    type V = XlsxCellV;

    open spec fn view(&self) -> XlsxCellV {
        XlsxCellV {
            row: self.row,
            col: self.col,
            fg: self.fg,
            bg: self.bg,
            content: self.content@,
        }
    }
}

/// A sheet to be written to a workbook.
pub struct XlsxSheet {
    pub name: String,
    pub cells: Vec<XlsxCell>,
}

/// A colour as a 24-bit number.
pub open spec fn packed(c: Option<Color>) -> Option<u32> {
    match rgb_or_none(c) {
        Some(rgb) => Some((rgb.0 * 65536 + rgb.1 * 256 + rgb.2) as u32),
        None => None,
    }
}

/// What is written for a cell: a formula with its value, a number where the text
/// reads as one, else the text.
pub open spec fn content_of(m: NumModel, cell: CellV) -> ContentV {
    if is_formula(cell.raw) {
        ContentV::Formula(cell.raw.skip(1), display_text(m, cell.value))
    } else {
        match (m.parse)(cell.raw) {
            Some(n) => ContentV::Number(n),
            None => ContentV::Text(cell.raw),
        }
    }
}

/// A cell as it is written to a workbook, whose columns have 16-bit numbers.
pub open spec fn written_cell(m: NumModel, at: Coord, cell: CellV) -> XlsxCellV {
    XlsxCellV {
        row: at.0,
        col: (at.1 as int % 65536) as u16,
        fg: packed(cell.fg),
        bg: packed(cell.bg),
        content: content_of(m, cell),
    }
}

impl XlsxSheet {
    /// The stored cells of a sheet as they are written, row by row.
    pub open spec fn holds(self, m: NumModel, sheet: SheetV) -> bool {
        let keys = in_order(sheet.cells.dom());
        &&& self.name@ == sheet.name
        &&& self.cells@.len() == keys.len()
        &&& forall|i: int|
            0 <= i < keys.len() ==> (#[trigger] self.cells@[i])@ == written_cell(
                m,
                keys[i],
                sheet.cells[keys[i]],
            )
    }
}

fn pack(c: Option<Color>) -> (n: Option<u32>)
    ensures
        n == packed(c),
{
    match color_rgb(c) {
        Some(rgb) => Some(rgb.0 as u32 * 65536 + rgb.1 as u32 * 256 + rgb.2 as u32),
        None => None,
    }
}

/// The cells that are written for a sheet.
fn xlsx_sheet<P: Fn(&str) -> Option<Bits>, S: Fn(Bits) -> String, C: Fn(Op, Bits, Bits) -> Bits>(
    numerics: &Numerics<P, S, C>,
    sheet: &Sheet,
) -> (out: XlsxSheet)
    requires
        numerics.valid(),
    ensures
        out.holds(numerics.model(), sheet@),
{
    let keys = coords(sheet);
    let mut cells: Vec<XlsxCell> = Vec::new();
    let mut i: usize = 0;
    while i < keys.len()
        invariant
            numerics.valid(),
            i <= keys@.len(),
            lists(keys@, sheet@.cells.dom()),
            cells@.len() == i,
            forall|j: int|
                0 <= j < i ==> (#[trigger] cells@[j])@ == written_cell(
                    numerics.model(),
                    keys@[j],
                    sheet@.cells[keys@[j]],
                ),
        decreases keys@.len() - i,
    {
        let at = keys[i];
        assert(keys@.contains(at));
        assert(sheet@.cells.contains_key(at));
        let raw = chars_of(sheet.raw(at.0, at.1));
        let content = if raw.len() > 0 && raw[0] == '=' {
            let expr = slice_of(raw.as_slice(), 1, raw.len());
            assert(expr@ =~= raw@.skip(1));
            let value = sheet.value(at.0, at.1);
            Content::Formula(string_of(expr.as_slice()), value.display(numerics))
        } else {
            match numerics.read(sheet.raw(at.0, at.1)) {
                Some(n) => Content::Number(n),
                None => Content::Text(string_of(raw.as_slice())),
            }
        };
        let (fg, bg) = sheet.colors(at.0, at.1);
        let col: u16 = (at.1 % 65536) as u16;
        cells.push(XlsxCell { row: at.0, col, fg: pack(fg), bg: pack(bg), content });
        i = i + 1;
    }
    XlsxSheet { name: sheet.name.clone(), cells }
}

/// The cells that are written to save a book as a workbook, sheet by sheet.
pub fn save_xlsx<P: Fn(&str) -> Option<Bits>, S: Fn(Bits) -> String, C: Fn(Op, Bits, Bits) -> Bits>(
    numerics: &Numerics<P, S, C>,
    book: &Book,
) -> (out: Vec<XlsxSheet>)
    requires
        numerics.valid(),
    ensures
        out@.len() == book.sheets@.len(),
        forall|i: int|
            0 <= i < out@.len() ==> (#[trigger] out@[i]).holds(
                numerics.model(),
                book.sheets@[i]@,
            ),
{
    let mut out: Vec<XlsxSheet> = Vec::new();
    let mut i: usize = 0;
    while i < book.sheets.len()
        invariant
            numerics.valid(),
            i <= book.sheets@.len(),
            out@.len() == i,
            forall|j: int|
                0 <= j < i ==> (#[trigger] out@[j]).holds(numerics.model(), book.sheets@[j]@),
        decreases book.sheets@.len() - i,
    {
        out.push(xlsx_sheet(numerics, &book.sheets[i]));
        i = i + 1;
    }
    out
}

/// What is written to save a book.
pub enum Output {
    Csv(CsvFile),
    Workbook(Vec<XlsxSheet>),
}

impl Output {
    /// The files hold the book: the active sheet as CSV, or every sheet in a
    /// workbook.
    pub open spec fn holds(self, m: NumModel, book: Book) -> bool {
        match self {
            Output::Csv(file) => file.holds(book.sheets@[book.active as int]@),
            Output::Workbook(sheets) => {
                &&& sheets@.len() == book.sheets@.len()
                &&& forall|i: int|
                    0 <= i < sheets@.len() ==> (#[trigger] sheets@[i]).holds(m, book.sheets@[i]@)
            },
        }
    }

    pub open spec fn format(self) -> Format {
        match self {
            Output::Csv(_) => Format::Csv,
            Output::Workbook(_) => Format::Workbook,
        }
    }
}

/// What is written to save a book to a file of a name, or why it cannot be.
pub fn save<P: Fn(&str) -> Option<Bits>, S: Fn(Bits) -> String, C: Fn(Op, Bits, Bits) -> Bits>(
    numerics: &Numerics<P, S, C>,
    book: &Book,
    file_name: &str,
) -> (r: Result<Output, String>)
    requires
        numerics.valid(),
        book.well_formed(),
    ensures
        match write_format(extension(file_name@)) {
            Some(f) => match r {
                Ok(out) => out.format() == f && out.holds(numerics.model(), *book),
                Err(_) => false,
            },
            None => match r {
                Ok(_) => false,
                Err(why) => why@ == refusal(extension(file_name@)),
            },
        },
{
    let e = ext(file_name);
    if chars_are(e.as_slice(), "xlsx") {
        return Ok(Output::Workbook(save_xlsx(numerics, book)));
    }
    if read_only(e.as_slice()) {
        let mut v = chars_of("writing .");
        push_chars(&mut v, e.as_slice());
        push_text(&mut v, " not supported \u{2014} save as .xlsx or .csv");
        return Err(string_of(v.as_slice()));
    }
    Ok(Output::Csv(save_csv(book)))
}

// ---- laws -----------------------------------------------------------------

/// The extension of a name is what follows its last dot, in small letters, where
/// something stands before that dot.
pub proof fn extensions_follow_the_dot(base: Seq<char>, e: Seq<char>)
    requires
        !e.contains('.'),
    ensures
        base.len() > 0 ==> extension(base + seq!['.'] + e) == ascii_lower(e),
        extension(e).len() == 0,
        extension(seq!['.'] + e).len() == 0,
{
    let s = base + seq!['.'] + e;
    last_dot_is(base + seq!['.'], e);
    last_dot_is(seq!['.'], e);
    last_dot_is(Seq::empty(), e);
    assert(Seq::<char>::empty() + e =~= e);
    assert(s.skip(base.len() as int + 1) =~= e);
}

proof fn last_dot_is(a: Seq<char>, e: Seq<char>)
    requires
        !e.contains('.'),
        a.len() == 0 || a.last() == '.',
    ensures
        last_dot(a + e) == a.len() - 1,
    decreases e.len(),
{
    let s = a + e;
    if e.len() > 0 {
        assert(e.contains(e.last()));
        let t = e.drop_last();
        assert forall|c: char| #[trigger] t.contains(c) implies e.contains(c) by {
            let i = choose|i: int| 0 <= i < t.len() && t[i] == c;
            assert(e[i] == c);
        }
        last_dot_is(a, t);
        assert(s.drop_last() =~= a + t);
        assert(s.last() == e.last());
    } else {
        assert(s =~= a);
    }
}

/// Files are read in the format they are written in. Workbooks are the files of five
/// extensions, of which one only is written, and all others are CSV.
pub proof fn formats_agree(e: Seq<char>)
    ensures
        write_format(e) matches Some(f) ==> read_format(e) == f,
        write_format(e) is None ==> read_format(e) == Format::Workbook,
        read_format("xlsx"@) == Format::Workbook && write_format("xlsx"@) == Some(Format::Workbook),
        read_format("xlsm"@) == Format::Workbook && write_format("xlsm"@) is None,
        read_format("xlsb"@) == Format::Workbook && write_format("xlsb"@) is None,
        read_format("xls"@) == Format::Workbook && write_format("xls"@) is None,
        read_format("ods"@) == Format::Workbook && write_format("ods"@) is None,
        e != "xlsx"@ && e != "xlsm"@ && e != "xlsb"@ && e != "xls"@ && e != "ods"@ ==> write_format(
            e,
        ) == Some(Format::Csv),
{
    reveal_strlit("xlsx");
    reveal_strlit("xlsm");
    reveal_strlit("xlsb");
    reveal_strlit("xls");
    reveal_strlit("ods");
    assert("xlsx"@[3] == 'x' && "xlsm"@[3] == 'm' && "xlsb"@[3] == 'b');
    assert("xls"@.len() == 3 && "ods"@.len() == 3 && "xlsx"@.len() == 4);
}

/// The answer where a file cannot be written names its extension, behind the point, and
/// ends with what can be done instead.
pub proof fn refusals_name_the_extension(e: Seq<char>)
    ensures
        ({
            let before = "writing ."@;
            let after = " not supported \u{2014} save as .xlsx or .csv"@;
            let t = refusal(e);
            &&& t.len() == before.len() + e.len() + after.len()
            &&& t.take(before.len() as int) == before
            &&& t.subrange(before.len() as int, (before.len() + e.len()) as int) == e
            &&& t.skip((before.len() + e.len()) as int) == after
        }),
{
    let before = "writing ."@;
    let after = " not supported \u{2014} save as .xlsx or .csv"@;
    let t = refusal(e);
    assert(t.take(before.len() as int) =~= before);
    assert(t.subrange(before.len() as int, (before.len() + e.len()) as int) =~= e);
    assert(t.skip((before.len() + e.len()) as int) =~= after);
}

/// What a workbook holds becomes the text that a user would have typed for it: nothing
/// for nothing, text for text, a number in decimal, the words for truth; and the text
/// of a formula, where there is one, comes first.
pub proof fn loaded_cells_are_texts(m: NumModel, cell: LoadedCell)
    ensures
        cell.formula matches Some(f) ==> (f@.len() > 0 ==> loaded_text(m, cell) == seq!['='] + f@),
        cell.formula is None || cell.formula->0@.len() == 0 ==> {
            let t = loaded_text(m, cell);
            match cell.data {
                CellData::Empty | CellData::Error => t.len() == 0,
                CellData::Text(s) => t == s@,
                CellData::Number(n) => t == full_text(n, (m.fixed)(n)),
                CellData::Int(n) => t == if n < 0 {
                    seq!['-'] + decimal(-n as nat)
                } else {
                    decimal(n as nat)
                },
                CellData::Bool(b) => t == if b {
                    "TRUE"@
                } else {
                    "FALSE"@
                },
                CellData::DateTime(days, secs) => t == serial_text(days, secs as nat),
            }
        },
{
}

/// What is written to a workbook reads back as the text of the cell: a formula behind
/// its equals sign, a text as it is, and a number only where the text reads as it. The
/// cell keeps its row and its column, and its colours as bytes of red, green and blue.
pub proof fn written_cells_are_texts(m: NumModel, at: Coord, cell: CellV)
    requires
        at.1 < 65536,
    ensures
        ({
            let w = written_cell(m, at, cell);
            &&& w.row == at.0 && w.col == at.1
            &&& match w.content {
                ContentV::Formula(e, v) => seq!['='] + e == cell.raw && v == display_text(
                    m,
                    cell.value,
                ),
                ContentV::Number(n) => (m.parse)(cell.raw) == Some(n) && !(cell.raw.len() > 0
                    && cell.raw[0] == '='),
                ContentV::Text(s) => s == cell.raw && (m.parse)(cell.raw) is None && !(
                cell.raw.len() > 0 && cell.raw[0] == '='),
            }
            &&& has_bytes(w.fg, rgb_or_none(cell.fg))
            &&& has_bytes(w.bg, rgb_or_none(cell.bg))
        }),
{
    if is_formula(cell.raw) {
        assert(seq!['='] + cell.raw.skip(1) =~= cell.raw);
    }
    packed_in_bytes(cell.fg);
    packed_in_bytes(cell.bg);
}

/// Whether the bytes of a number, from the highest of three on, are red, green and blue.
pub open spec fn has_bytes(n: Option<u32>, c: Option<(u8, u8, u8)>) -> bool {
    match (n, c) {
        (Some(k), Some(rgb)) => k / 65536 == rgb.0 && (k / 256) % 256 == rgb.1 && k % 256 == rgb.2,
        (None, None) => true,
        _ => false,
    }
}

proof fn bytes_of(r: int, g: int, b: int)
    by (nonlinear_arith)
    requires
        0 <= r < 256,
        0 <= g < 256,
        0 <= b < 256,
    ensures
        0 <= r * 65536 + g * 256 + b < 16777216,
        (r * 65536 + g * 256 + b) / 65536 == r,
        ((r * 65536 + g * 256 + b) / 256) % 256 == g,
        (r * 65536 + g * 256 + b) % 256 == b,
{
}

proof fn packed_in_bytes(c: Option<Color>)
    ensures
        has_bytes(packed(c), rgb_or_none(c)),
{
    if let Some(rgb) = rgb_or_none(c) {
        bytes_of(rgb.0 as int, rgb.1 as int, rgb.2 as int);
    }
}

/// The cells of a loaded sheet stand in their rows and columns, counted from the corner
/// of the table that they were read from.
pub proof fn loaded_cells_keep_their_place(m: NumModel, sheet: LoadedSheet, r: int, c: int)
    requires
        sheet.fits(),
        0 <= r < sheet.rows@.len(),
        0 <= c < sheet.rows@[r]@.len(),
    ensures
        ({
            let at: Coord = ((sheet.corner.0 + r) as u32, (sheet.corner.1 + c) as u32);
            let cells = filled_cells(sheet.table(m), sheet.corner);
            let t = loaded_text(m, sheet.rows@[r]@[c]);
            &&& cells.contains_key(at) <==> t.len() > 0
            &&& t.len() > 0 ==> cells[at] == (CellV { raw: t, ..blank() })
        }),
{
    let at: Coord = ((sheet.corner.0 + r) as u32, (sheet.corner.1 + c) as u32);
    assert(sheet.corner.1 + sheet.rows@[r]@.len() <= u32::MAX);
    assert(text_at(sheet.table(m), sheet.corner, at) == loaded_text(m, sheet.rows@[r]@[c]));
}

} // verus!
