//! The spreadsheet data model: a Book of Sheets of Cells. Cells are stored
//! sparsely. A cell's `raw` is what the user typed, a literal or a `=formula`;
//! the formula engine fills `value`.

use std::collections::BTreeMap;

use vstd::prelude::*;
use vstd::std_specs::cmp::PartialEqSpecImpl;

use crate::decimal::{all_digits, decimal, decimal_denotes, decimal_of, digits_value};
use crate::num::{
    integer, is_integer, is_moderate, is_nan, is_whole, is_zero, number_order, same_number,
    whole_number, whole_once, Bits, NumModel, Numerics, Op, Order,
};
use crate::rounding::{
    digits_of, is_decimal_text, round_text, rounded_is_short, rounded_text, short_text_stays,
    significant_digits, tidied, tidy, unsigned_of, SIGNIFICANT,
};
use crate::text::{chars_of, push_chars, push_text, same_text, string_of};

verus! {

/// The type of a file's path; the library only carries it.
#[verifier::external_type_specification]
#[verifier::external_body]
pub struct ExPathBuf(std::path::PathBuf);

/// A 0-based (row, column).
pub type Coord = (u32, u32);

/// A colour as red, green and blue.
pub type Rgb = (u8, u8, u8);

/// The colour of a cell: a place in the terminal's palette, as it was typed, or red,
/// green and blue, as it was read from a file.
#[derive(Clone, Copy, PartialEq, Eq, Debug)]
pub enum Color {
    Palette(u8),
    Rgb(Rgb),
}

// ---- values ---------------------------------------------------------------

/// A computed cell value, ready to display.
#[derive(Debug)]
pub enum Value {
    Empty,
    Number(Bits),
    Text(String),
    Error(String),
}

/// A value with its texts as character sequences.
pub enum ValueV {
    Empty,
    Number(Bits),
    Text(Seq<char>),
    Error(Seq<char>),
}

impl View for Value {
    type V = ValueV;

    open spec fn view(&self) -> ValueV {
        match self {
            Value::Empty => ValueV::Empty,
            Value::Number(n) => ValueV::Number(*n),
            Value::Text(s) => ValueV::Text(s@),
            Value::Error(e) => ValueV::Error(e@),
        }
    }
}

/// Values are the same where they are of one kind and their numbers are equal, or
/// their texts: the two zeros are equal, and what is no number equals nothing.
pub open spec fn equal_values(a: ValueV, b: ValueV) -> bool {
    match (a, b) {
        (ValueV::Empty, ValueV::Empty) => true,
        (ValueV::Number(x), ValueV::Number(y)) => number_order(x, y) == Some(Order::Equal),
        (ValueV::Text(x), ValueV::Text(y)) => x == y,
        (ValueV::Error(x), ValueV::Error(y)) => x == y,
        _ => false,
    }
}

impl PartialEq for Value {
    fn eq(&self, other: &Value) -> (r: bool) {
        match (self, other) {
            (Value::Empty, Value::Empty) => true,
            (Value::Number(x), Value::Number(y)) => same_number(*x, *y),
            (Value::Text(x), Value::Text(y)) => same_text(x.as_str(), y.as_str()),
            (Value::Error(x), Value::Error(y)) => same_text(x.as_str(), y.as_str()),
            _ => false,
        }
    }
}

impl PartialEqSpecImpl for Value {
    open spec fn obeys_eq_spec() -> bool {
        true
    }

    open spec fn eq_spec(&self, other: &Value) -> bool {
        equal_values(self@, other@)
    }
}

impl Clone for Value {
    fn clone(&self) -> (res: Self)
        ensures
            res == *self,
    {
        match self {
            Value::Empty => Value::Empty,
            Value::Number(n) => Value::Number(*n),
            Value::Text(s) => Value::Text(s.clone()),
            Value::Error(e) => Value::Error(e.clone()),
        }
    }
}

impl Default for Value {
    fn default() -> (res: Self)
        ensures
            res@ == ValueV::Empty,
    {
        Value::Empty
    }
}

/// The text under which a value is displayed: errors with a leading `#`,
/// numbers tidied.
pub open spec fn display_text(m: NumModel, v: ValueV) -> Seq<char> {
    match v {
        ValueV::Empty => Seq::empty(),
        ValueV::Text(s) => s,
        ValueV::Error(e) => seq!['#'] + e,
        ValueV::Number(n) => number_text(n, (m.fixed)(n)),
    }
}

impl Value {
    /// The display string for the grid (numbers trimmed, errors as #...).
    pub fn display<
        P: Fn(&str) -> Option<Bits>,
        S: Fn(Bits) -> String,
        C: Fn(Op, Bits, Bits) -> Bits,
    >(&self, num: &Numerics<P, S, C>) -> (s: String)
        requires
            num.valid(),
        ensures
            s@ == display_text(num.model(), self@),
    {
        match self {
            Value::Empty => String::new(),
            Value::Text(s) => s.clone(),
            Value::Error(e) => {
                let mut v: Vec<char> = Vec::new();
                v.push('#');
                push_text(&mut v, e.as_str());
                string_of(v.as_slice())
            },
            Value::Number(n) => fmt_number(*n, num.fixed_text(*n).as_str()),
        }
    }

    pub fn is_number(&self) -> (r: bool)
        ensures
            r == (self@ is Number),
    {
        match self {
            Value::Number(_) => true,
            _ => false,
        }
    }
}

/// The decimal notation of an integer.
pub open spec fn signed_decimal(n: int) -> Seq<char> {
    if n < 0 {
        seq!['-'] + decimal((-n) as nat)
    } else {
        decimal(n as nat)
    }
}

/// The text of a number in full, `fixed` being its text with ten decimals: an integer
/// of fewer than sixteen digits in plain decimal, any other number as in `fixed`, but
/// without trailing zeros, nor a trailing point.
pub open spec fn full_text(n: Bits, fixed: Seq<char>) -> Seq<char> {
    if exists|k: int| is_moderate(n, k) {
        signed_decimal(choose|k: int| is_moderate(n, k))
    } else {
        tidied(fixed)
    }
}

/// The tidy text of a number, `fixed` being its text with ten decimals. An integer
/// is written in full and without a point. Any other number is `fixed` rounded to
/// ten significant digits, without trailing zeros; what is no number at all is
/// written as in `fixed`.
pub open spec fn number_text(n: Bits, fixed: Seq<char>) -> Seq<char> {
    if is_integer(n) || !is_decimal_text(fixed) {
        full_text(n, fixed)
    } else {
        tidied(rounded_text(fixed))
    }
}

/// Writes an integer in decimal.
pub fn decimal_of_signed(n: i64) -> (s: String)
    ensures
        s@ == signed_decimal(n as int),
{
    let mut v: Vec<char> = Vec::new();
    if n < 0 {
        v.push('-');
        let size: u64 = (-(n as i128)) as u64;
        push_chars(&mut v, decimal_of(size).as_slice());
    } else {
        v = decimal_of(n as u64);
    }
    string_of(v.as_slice())
}

/// Writes a number in full; `fixed` is its text with ten decimals.
pub fn fmt_full(n: Bits, fixed: &str) -> (s: String)
    ensures
        s@ == full_text(n, fixed@),
{
    match whole_number(n) {
        Some(k) => {
            proof {
                assert(is_moderate(n, k as int));
                whole_once(n, k as int, choose|k: int| is_moderate(n, k));
            }
            decimal_of_signed(k)
        },
        None => string_of(tidy(chars_of(fixed).as_slice()).as_slice()),
    }
}

/// Trims a number to a tidy string (integers without `.0`, else up to ten
/// significant digits); `fixed` is its text with ten decimals.
pub fn fmt_number(n: Bits, fixed: &str) -> (s: String)
    ensures
        s@ == number_text(n, fixed@),
        !is_integer(n) && is_decimal_text(fixed@) ==> significant_digits(s@) <= SIGNIFICANT,
{
    if !integer(n) {
        if let Some(w) = round_text(chars_of(fixed).as_slice()) {
            proof {
                rounded_is_short(fixed@);
            }
            return string_of(tidy(w.as_slice()).as_slice());
        }
    }
    fmt_full(n, fixed)
}

/// A number with a fraction and at most ten significant digits is shown with all of
/// them.
pub proof fn short_numbers_in_full(n: Bits, fixed: Seq<char>)
    requires
        !is_integer(n),
        is_decimal_text(fixed),
        decimal(digits_value(digits_of(fixed))).len() <= SIGNIFICANT,
        unsigned_of(fixed)[0] != '0' || unsigned_of(fixed)[1] == '.',
    ensures
        number_text(n, fixed) == full_text(n, fixed),
{
    short_text_stays(fixed);
}

// ---- cells ----------------------------------------------------------------

pub struct Cell {
    /// Exactly what the user typed (literal or `=formula`).
    pub raw: String,
    /// Computed value for display (set by the recalc pass).
    pub value: Value,
    /// Text colour.
    pub fg: Option<Color>,
    /// Background colour.
    pub bg: Option<Color>,
}

/// A cell with its texts as character sequences.
pub struct CellV {
    pub raw: Seq<char>,
    pub value: ValueV,
    pub fg: Option<Color>,
    pub bg: Option<Color>,
}

impl View for Cell {
    type V = CellV;

    open spec fn view(&self) -> CellV {
        CellV { raw: self.raw@, value: self.value@, fg: self.fg, bg: self.bg }
    }
}

impl Clone for Cell {
    fn clone(&self) -> (res: Self)
        ensures
            res == *self,
    {
        Cell { raw: self.raw.clone(), value: self.value.clone(), fg: self.fg, bg: self.bg }
    }
}

/// The cell that holds nothing.
pub open spec fn blank() -> CellV {
    CellV { raw: Seq::empty(), value: ValueV::Empty, fg: None, bg: None }
}

impl Default for Cell {
    fn default() -> (res: Self)
        ensures
            res@ == blank(),
    {
        Cell { raw: String::new(), value: Value::Empty, fg: None, bg: None }
    }
}

// ---- sheets ---------------------------------------------------------------

pub struct Sheet {
    pub name: String,
    /// (row, col), 0-based, sparse.
    pub cells: BTreeMap<(u32, u32), Cell>,
    /// Extent (one past the last used row).
    pub nrows: u32,
    pub ncols: u32,
}

/// A sheet with its texts as character sequences.
pub struct SheetV {
    pub name: Seq<char>,
    pub cells: Map<Coord, CellV>,
    pub nrows: u32,
    pub ncols: u32,
}

impl View for Sheet {
    type V = SheetV;

    open spec fn view(&self) -> SheetV {
        SheetV {
            name: self.name@,
            cells: self.cells@.map_values(|c: Cell| c@),
            nrows: self.nrows,
            ncols: self.ncols,
        }
    }
}

impl Clone for Sheet {
    fn clone(&self) -> (res: Self)
        ensures
            res@ == self@,
    {
        Sheet {
            name: self.name.clone(),
            cells: self.cells.clone(),
            nrows: self.nrows,
            ncols: self.ncols,
        }
    }
}

pub open spec fn larger(a: u32, b: u32) -> u32 {
    if a < b {
        b
    } else {
        a
    }
}

impl SheetV {
    /// A sheet without cells.
    pub open spec fn empty(name: Seq<char>) -> SheetV {
        SheetV { name, cells: Map::empty(), nrows: 0, ncols: 0 }
    }

    /// The stored cell, or the blank one.
    pub open spec fn cell(self, r: u32, c: u32) -> CellV {
        if self.cells.contains_key((r, c)) {
            self.cells[(r, c)]
        } else {
            blank()
        }
    }

    /// The raw text of every stored cell.
    pub open spec fn raws(self) -> Map<Coord, Seq<char>> {
        self.cells.map_values(|c: CellV| c.raw)
    }

    /// The sheet with the cells `cells`, its extent grown to take in (`r`, `c`).
    pub open spec fn grown(self, cells: Map<Coord, CellV>, r: u32, c: u32) -> SheetV {
        SheetV {
            cells,
            nrows: larger(self.nrows, (r + 1) as u32),
            ncols: larger(self.ncols, (c + 1) as u32),
            ..self
        }
    }

    /// The sheet after `raw` was typed into the cell: empty text clears the cell,
    /// other text leaves its value and colours.
    pub open spec fn with_raw(self, r: u32, c: u32, raw: Seq<char>) -> SheetV {
        let cells = if raw.len() == 0 {
            self.cells.remove((r, c))
        } else {
            self.cells.insert((r, c), CellV { raw, ..self.cell(r, c) })
        };
        self.grown(cells, r, c)
    }

    /// The sheet after the cell was given colours. A cell left without text and
    /// without colours is not stored.
    pub open spec fn with_colors(
        self,
        r: u32,
        c: u32,
        fg: Option<Color>,
        bg: Option<Color>,
    ) -> SheetV {
        let cell = CellV { fg, bg, ..self.cell(r, c) };
        let cells = if cell.raw.len() == 0 && fg is None && bg is None {
            self.cells.remove((r, c))
        } else {
            self.cells.insert((r, c), cell)
        };
        self.grown(cells, r, c)
    }

    /// Every stored cell lies inside the extent, and holds text or a colour.
    pub open spec fn well_formed(self) -> bool {
        &&& self.cells.dom().finite()
        &&& forall|at: Coord| #[trigger]
            self.cells.contains_key(at) ==> {
                &&& at.0 < self.nrows
                &&& at.1 < self.ncols
                &&& self.cells[at].raw.len() > 0 || self.cells[at].fg is Some
                    || self.cells[at].bg is Some
            }
    }
}

/// A text typed into a cell is its text, and no other cell changes. Typing nothing
/// leaves the cell blank.
pub proof fn typing_reads_back(sheet: SheetV, r: u32, c: u32, raw: Seq<char>)
    ensures
        sheet.with_raw(r, c, raw).cell(r, c).raw == raw,
        raw.len() == 0 ==> sheet.with_raw(r, c, raw).cell(r, c) == blank(),
        forall|r2: u32, c2: u32|
            (r2, c2) != (r, c) ==> #[trigger] sheet.with_raw(r, c, raw).cell(r2, c2) == sheet.cell(
                r2,
                c2,
            ),
{
    assert(raw.len() == 0 ==> raw =~= Seq::<char>::empty());
}

/// Colours given to a cell are its colours, its text stays, and no other cell
/// changes.
pub proof fn coloring_reads_back(
    sheet: SheetV,
    r: u32,
    c: u32,
    fg: Option<Color>,
    bg: Option<Color>,
)
    ensures
        sheet.with_colors(r, c, fg, bg).cell(r, c).fg == fg,
        sheet.with_colors(r, c, fg, bg).cell(r, c).bg == bg,
        sheet.with_colors(r, c, fg, bg).cell(r, c).raw == sheet.cell(r, c).raw,
        forall|r2: u32, c2: u32|
            (r2, c2) != (r, c) ==> #[trigger] sheet.with_colors(r, c, fg, bg).cell(r2, c2)
                == sheet.cell(r2, c2),
{
    let raw = sheet.cell(r, c).raw;
    assert(raw.len() == 0 ==> raw =~= Seq::<char>::empty());
}

impl Default for Sheet {
    fn default() -> (res: Self)
        ensures
            res@ == SheetV::empty(Seq::empty()),
            res@.well_formed(),
    {
        Sheet::named(String::new())
    }
}

impl Sheet {
    /// A sheet without cells.
    pub fn named(name: String) -> (res: Sheet)
        ensures
            res@ == SheetV::empty(name@),
            res@.well_formed(),
    {
        let res = Sheet { name, cells: BTreeMap::new(), nrows: 0, ncols: 0 };
        assert(res@.cells =~= Map::empty());
        res
    }

    pub fn raw(&self, r: u32, c: u32) -> (s: &str)
        ensures
            s@ == self@.cell(r, c).raw,
    {
        match self.cells.get(&(r, c)) {
            Some(cell) => cell.raw.as_str(),
            None => {
                proof {
                    reveal_strlit("");
                }
                assert(""@ =~= Seq::<char>::empty());
                ""
            },
        }
    }

    pub fn value(&self, r: u32, c: u32) -> (v: Value)
        ensures
            v@ == self@.cell(r, c).value,
    {
        match self.cells.get(&(r, c)) {
            Some(cell) => cell.value.clone(),
            None => Value::Empty,
        }
    }

    /// The text and background colours of a cell.
    pub fn colors(&self, r: u32, c: u32) -> (res: (Option<Color>, Option<Color>))
        ensures
            res.0 == self@.cell(r, c).fg,
            res.1 == self@.cell(r, c).bg,
    {
        match self.cells.get(&(r, c)) {
            Some(cell) => (cell.fg, cell.bg),
            None => (None, None),
        }
    }

    /// Takes the cell out of the map, a blank one where none is stored.
    fn take(&mut self, r: u32, c: u32) -> (cell: Cell)
        ensures
            cell@ == old(self)@.cell(r, c),
            final(self).cells@ == old(self).cells@.remove((r, c)),
            final(self).name == old(self).name,
            final(self).nrows == old(self).nrows,
            final(self).ncols == old(self).ncols,
    {
        match self.cells.remove(&(r, c)) {
            Some(cell) => cell,
            None => Cell::default(),
        }
    }

    fn grow(&mut self, r: u32, c: u32)
        requires
            r < u32::MAX,
            c < u32::MAX,
        ensures
            final(self)@ == old(self)@.grown(old(self)@.cells, r, c),
    {
        if self.nrows < r + 1 {
            self.nrows = r + 1;
        }
        if self.ncols < c + 1 {
            self.ncols = c + 1;
        }
    }

    /// Sets a cell's raw text (empty clears it). Grows the extent. Does not
    /// recompute: the caller runs recalc after a batch of edits.
    pub fn set(&mut self, r: u32, c: u32, raw: String)
        requires
            r < u32::MAX,
            c < u32::MAX,
        ensures
            final(self)@ == old(self)@.with_raw(r, c, raw@),
            old(self)@.well_formed() ==> final(self)@.well_formed(),
    {
        let ghost before = self@;
        let mut cell = self.take(r, c);
        if raw.as_str().is_empty() {
            assert(self@.cells =~= before.cells.remove((r, c)));
        } else {
            cell.raw = raw;
            self.cells.insert((r, c), cell);
            assert(self@.cells =~= before.cells.insert(
                (r, c),
                CellV { raw: raw@, ..before.cell(r, c) },
            ));
        }
        self.grow(r, c);
    }

    /// Sets a cell's colours. Grows the extent.
    pub fn set_colors(&mut self, r: u32, c: u32, fg: Option<Color>, bg: Option<Color>)
        requires
            r < u32::MAX,
            c < u32::MAX,
        ensures
            final(self)@ == old(self)@.with_colors(r, c, fg, bg),
            old(self)@.well_formed() ==> final(self)@.well_formed(),
    {
        let ghost before = self@;
        let mut cell = self.take(r, c);
        if cell.raw.as_str().is_empty() && fg.is_none() && bg.is_none() {
            assert(self@.cells =~= before.cells.remove((r, c)));
        } else {
            cell.fg = fg;
            cell.bg = bg;
            self.cells.insert((r, c), cell);
            assert(self@.cells =~= before.cells.insert(
                (r, c),
                CellV { fg, bg, ..before.cell(r, c) },
            ));
        }
        self.grow(r, c);
    }
}

// ---- books ----------------------------------------------------------------

pub struct Book {
    pub sheets: Vec<Sheet>,
    pub active: usize,
    pub path: std::path::PathBuf,
    /// True once the user edits, so quit can warn and save knows it's dirty.
    pub dirty: bool,
}

impl Book {
    /// The active sheet is one of the book's.
    pub open spec fn well_formed(self) -> bool {
        self.active < self.sheets@.len()
    }

    pub fn sheet(&self) -> (s: &Sheet)
        requires
            self.well_formed(),
        ensures
            *s == self.sheets@[self.active as int],
    {
        &self.sheets[self.active]
    }

    pub fn sheet_mut(&mut self) -> (s: &mut Sheet)
        requires
            old(self).well_formed(),
        ensures
            *s == old(self).sheets@[old(self).active as int],
            final(self).sheets@ == old(self).sheets@.update(
                old(self).active as int,
                *final(s),
            ),
            final(self).active == old(self).active,
            final(self).path == old(self).path,
            final(self).dirty == old(self).dirty,
    {
        &mut self.sheets[self.active]
    }

    /// A fresh, empty book bound to `path` (for a not-yet-existing file).
    pub fn empty(path: std::path::PathBuf) -> (res: Self)
        ensures
            res.sheets@.len() == 1,
            res.sheets@[0]@ == SheetV::empty("Sheet1"@),
            res.active == 0,
            res.path == path,
            !res.dirty,
            res.well_formed(),
    {
        let mut sheets: Vec<Sheet> = Vec::new();
        sheets.push(Sheet::named("Sheet1".to_owned()));
        Book { sheets, active: 0, path, dirty: false }
    }
}

// ---- laws on what is shown ------------------------------------------------

/// What values are shown as: nothing for a blank, text as it is, an error behind a hash
/// sign, and a number as a number.
pub proof fn values_are_shown(m: NumModel, s: Seq<char>, n: Bits)
    ensures
        display_text(m, ValueV::Empty).len() == 0,
        display_text(m, ValueV::Text(s)) == s,
        display_text(m, ValueV::Error(s)) == seq!['#'] + s,
        display_text(m, ValueV::Number(n)) == number_text(n, (m.fixed)(n)),
{
}

/// An integer of fewer than sixteen digits is shown in full, its digits denoting it,
/// behind a minus sign where it is negative.
pub proof fn integers_are_shown(n: Bits, k: int, fixed: Seq<char>)
    requires
        is_whole(n, k),
        -1_000_000_000_000_000 < k < 1_000_000_000_000_000,
    ensures
        ({
            let t = number_text(n, fixed);
            let digits = if k < 0 {
                t.skip(1)
            } else {
                t
            };
            &&& full_text(n, fixed) == t
            &&& k < 0 ==> t.len() > 0 && t[0] == '-'
            &&& digits.len() > 0
            &&& all_digits(digits)
            &&& digits_value(digits) == if k < 0 {
                -k
            } else {
                k
            }
        }),
{
    assert(is_moderate(n, k));
    whole_once(n, k, choose|j: int| is_moderate(n, j));
    assert(is_integer(n));
    if k < 0 {
        decimal_denotes((-k) as nat);
        assert((seq!['-'] + decimal((-k) as nat)).skip(1) =~= decimal((-k) as nat));
    } else {
        decimal_denotes(k as nat);
    }
}

/// A number with a fraction is shown as its text with ten decimals, rounded to ten
/// significant digits, without the zeros at the end; in full it is not rounded.
pub proof fn fractions_are_shown(n: Bits, fixed: Seq<char>)
    requires
        !is_integer(n),
    ensures
        full_text(n, fixed) == tidied(fixed),
        is_decimal_text(fixed) ==> number_text(n, fixed) == tidied(rounded_text(fixed)),
        !is_decimal_text(fixed) ==> number_text(n, fixed) == tidied(fixed),
{
    if exists|k: int| is_moderate(n, k) {
        let k = choose|k: int| is_moderate(n, k);
        assert(is_whole(n, k));
    }
}

/// The extent of a sheet grows to take in what is typed or coloured, and no further.
pub proof fn extents_grow(sheet: SheetV, r: u32, c: u32, raw: Seq<char>)
    requires
        r < u32::MAX,
        c < u32::MAX,
    ensures
        ({
            let t = sheet.with_raw(r, c, raw);
            &&& t.nrows == if r < sheet.nrows {
                sheet.nrows as int
            } else {
                r + 1
            }
            &&& t.ncols == if c < sheet.ncols {
                sheet.ncols as int
            } else {
                c + 1
            }
            &&& t.name == sheet.name
            &&& raw.len() > 0 ==> t.cell(r, c) == (CellV { raw, ..sheet.cell(r, c) })
            &&& raw.len() == 0 ==> !t.cells.contains_key((r, c))
        }),
        forall|fg: Option<Color>, bg: Option<Color>|
            ({
                let t = #[trigger] sheet.with_colors(r, c, fg, bg);
                let u = sheet.with_raw(r, c, raw);
                t.nrows == u.nrows && t.ncols == u.ncols && t.name == sheet.name
            }),
{
}

/// Values of different kinds are never equal; texts, errors and blanks are equal to
/// themselves and to no others; numbers are equal where neither is less than the other,
/// which for what is no number does not hold even of itself.
pub proof fn equality_is_by_kind(a: ValueV, b: ValueV)
    ensures
        equal_values(a, b) == equal_values(b, a),
        !(a is Number) ==> (equal_values(a, b) <==> a == b),
        a is Number && !(b is Number) ==> !equal_values(a, b),
        match (a, b) {
            (ValueV::Number(x), ValueV::Number(y)) => {
                &&& is_nan(x) || is_nan(y) ==> !equal_values(a, b)
                &&& !is_nan(x) && x == y ==> equal_values(a, b)
                &&& is_zero(x) && is_zero(y) ==> equal_values(a, b)
                &&& !is_zero(x) && x != y ==> !equal_values(a, b)
            },
            _ => true,
        },
{
}

} // verus!
