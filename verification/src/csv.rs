//! Sheets as CSV text: raw cell text, with the quoting of RFC 4180.

use vstd::prelude::*;

use crate::eval::{cell_index, high, low, range_cells};
use crate::model::{blank, CellV, Coord, Sheet, SheetV};
use crate::table::{
    filled_cells, sheet_of_table, sheet_with, sheet_with_cells, table_fits, table_view, text_at,
    texts, tight,
};
use crate::text::{
    chars_of, find_char, lines, push_chars, split_lines, string_of, upto, upto_is, views,
    without_return,
};

verus! {

// ---- reading --------------------------------------------------------------

/// The fields of what is left of a line, `cur` being the characters of the first
/// one so far. A quote opens or closes a quoted part; inside one, a doubled quote
/// stands for a quote, and a comma for itself.
pub open spec fn fields_from(s: Seq<char>, cur: Seq<char>, quoted: bool) -> Seq<Seq<char>>
    decreases s.len(),
{
    if s.len() == 0 {
        seq![cur]
    } else if s[0] == '"' {
        if quoted && s.len() > 1 && s[1] == '"' {
            fields_from(s.skip(2), cur.push('"'), quoted)
        } else {
            fields_from(s.skip(1), cur, !quoted)
        }
    } else if s[0] == ',' && !quoted {
        seq![cur] + fields_from(s.skip(1), Seq::empty(), quoted)
    } else {
        fields_from(s.skip(1), cur.push(s[0]), quoted)
    }
}

/// The fields of a line.
pub open spec fn fields(line: Seq<char>) -> Seq<Seq<char>> {
    fields_from(line, Seq::empty(), false)
}

/// The fields of a text, line by line.
pub open spec fn csv_fields(text: Seq<char>) -> Seq<Seq<Seq<char>>> {
    Seq::new(lines(text).len(), |r: int| fields(lines(text)[r]))
}

/// The cells of a text: its fields that are not empty.
pub open spec fn csv_cells(text: Seq<char>) -> Map<Coord, CellV> {
    filled_cells(csv_fields(text), (0, 0))
}

/// Whether every field of a text has a place in a sheet.
pub open spec fn csv_fits(text: Seq<char>) -> bool {
    table_fits(csv_fields(text), (0, 0))
}

/// Quote-aware CSV line split (`""` is an escaped quote).
pub fn parse_csv_line(line: &[char]) -> (out: Vec<String>)
    ensures
        texts(out@) == fields(line@),
{
    let mut out: Vec<String> = Vec::new();
    let mut cur: Vec<char> = Vec::new();
    let mut in_q: bool = false;
    let mut i: usize = 0;
    assert(line@.skip(0) =~= line@);
    assert(cur@ =~= Seq::<char>::empty());
    assert(texts(out@) + fields_from(line@.skip(0), cur@, in_q) =~= fields(line@));
    while i < line.len()
        invariant
            i <= line@.len(),
            texts(out@) + fields_from(line@.skip(i as int), cur@, in_q) == fields(line@),
        decreases line@.len() - i,
    {
        let ghost rest = line@.skip(i as int);
        let ghost done = texts(out@);
        assert(rest.skip(1) =~= line@.skip(i + 1));
        if line[i] == '"' {
            if in_q && i + 1 < line.len() && line[i + 1] == '"' {
                assert(rest.skip(2) =~= line@.skip(i + 2));
                cur.push('"');
                i = i + 2;
            } else {
                in_q = !in_q;
                i = i + 1;
            }
        } else if line[i] == ',' && !in_q {
            let field = string_of(cur.as_slice());
            out.push(field);
            cur = Vec::new();
            i = i + 1;
            assert(cur@ =~= Seq::<char>::empty());
            assert(texts(out@) =~= done.push(field@));
            assert(texts(out@) + fields_from(line@.skip(i as int), cur@, in_q) =~= done
                + fields_from(rest, field@, in_q));
        } else {
            cur.push(line[i]);
            i = i + 1;
        }
    }
    let ghost done = texts(out@);
    let field = string_of(cur.as_slice());
    out.push(field);
    assert(texts(out@) =~= done + seq![field@]);
    out
}

/// Parses CSV text into a Sheet (raw cell text, formulas preserved).
pub fn csv_to_sheet(text: &str, name: String) -> (sheet: Sheet)
    requires
        csv_fits(text@),
    ensures
        sheet@ == sheet_with(name@, csv_cells(text@)),
        sheet@.name == name@,
        sheet@.cells == csv_cells(text@),
        tight(sheet@),
{
    let chars = chars_of(text);
    let rows = split_lines(chars.as_slice());
    let ghost all = lines(text@);
    let mut table: Vec<Vec<String>> = Vec::new();
    let mut r: usize = 0;
    while r < rows.len()
        invariant
            views(rows@) == all,
            r <= rows@.len(),
            table@.len() == r,
            forall|i: int| 0 <= i < r ==> texts(#[trigger] table@[i]@) == fields(all[i]),
        decreases rows@.len() - r,
    {
        assert(all[r as int] == rows@[r as int]@);
        table.push(parse_csv_line(rows[r].as_slice()));
        r = r + 1;
    }
    assert(table_view(table@) =~= csv_fields(text@));
    sheet_of_table(name, &table, (0, 0))
}

// ---- writing --------------------------------------------------------------

/// The text with every quote doubled.
pub open spec fn doubled(s: Seq<char>) -> Seq<char>
    decreases s.len(),
{
    if s.len() == 0 {
        Seq::empty()
    } else if s[0] == '"' {
        seq!['"', '"'] + doubled(s.skip(1))
    } else {
        seq![s[0]] + doubled(s.skip(1))
    }
}

/// Whether a field has to be quoted.
pub open spec fn needs_quotes(s: Seq<char>) -> bool {
    s.contains(',') || s.contains('"') || s.contains('\n')
}

/// A field as it is written.
pub open spec fn field_text(s: Seq<char>) -> Seq<char> {
    if needs_quotes(s) {
        seq!['"'] + doubled(s) + seq!['"']
    } else {
        s
    }
}

/// The text of a row from a column on.
pub open spec fn row_text(sheet: SheetV, r: u32, c: int) -> Seq<char>
    decreases sheet.ncols - c,
{
    if c >= sheet.ncols {
        Seq::empty()
    } else if c + 1 == sheet.ncols {
        field_text(sheet.cell(r, c as u32).raw)
    } else {
        field_text(sheet.cell(r, c as u32).raw) + seq![','] + row_text(sheet, r, c + 1)
    }
}

/// The text of a sheet from a row on.
pub open spec fn rows_text(sheet: SheetV, r: int) -> Seq<char>
    decreases sheet.nrows - r,
{
    if r >= sheet.nrows {
        Seq::empty()
    } else {
        row_text(sheet, r as u32, 0) + seq!['\n'] + rows_text(sheet, r + 1)
    }
}

/// The CSV text of a sheet.
pub open spec fn csv_text(sheet: SheetV) -> Seq<char> {
    rows_text(sheet, 0)
}

fn quoted_field(s: &[char]) -> (out: Vec<char>)
    ensures
        out@ == field_text(s@),
{
    let plain: bool = find_char(s, ',', 0).is_none() && find_char(s, '"', 0).is_none() && find_char(
        s,
        '\n',
        0,
    ).is_none();
    let mut out: Vec<char> = Vec::new();
    if plain {
        assert(!needs_quotes(s@));
        push_chars(&mut out, s);
        assert(out@ =~= s@);
        return out;
    }
    assert(needs_quotes(s@));
    out.push('"');
    let mut i: usize = 0;
    assert(s@.skip(0) =~= s@);
    while i < s.len()
        invariant
            i <= s@.len(),
            out@ + doubled(s@.skip(i as int)) == seq!['"'] + doubled(s@),
        decreases s@.len() - i,
    {
        let ghost before = out@;
        let ghost rest = s@.skip(i as int);
        assert(rest.skip(1) =~= s@.skip(i + 1));
        if s[i] == '"' {
            out.push('"');
        }
        out.push(s[i]);
        i = i + 1;
        assert(out@ + doubled(s@.skip(i as int)) =~= before + doubled(rest));
    }
    assert(out@ =~= seq!['"'] + doubled(s@));
    out.push('"');
    out
}

/// Serializes a Sheet to CSV text (raw cell text, RFC 4180 quoting).
pub fn sheet_to_csv(sheet: &Sheet) -> (text: String)
    ensures
        text@ == csv_text(sheet@),
{
    let mut s: Vec<char> = Vec::new();
    let mut r: u32 = 0;
    let ghost whole = csv_text(sheet@);
    assert(s@ + rows_text(sheet@, 0) =~= whole);
    while r < sheet.nrows
        invariant
            r <= sheet.nrows,
            s@ + rows_text(sheet@, r as int) == whole,
        decreases sheet.nrows - r,
    {
        let ghost start = s@;
        let mut c: u32 = 0;
        assert(s@ + row_text(sheet@, r, 0) =~= start + row_text(sheet@, r, 0));
        while c < sheet.ncols
            invariant
                c <= sheet.ncols,
                s@ + rest_of_row(sheet@, r, c as int) == start + row_text(sheet@, r, 0),
            decreases sheet.ncols - c,
        {
            let ghost before = s@;
            if c > 0 {
                s.push(',');
            }
            let chars = chars_of(sheet.raw(r, c));
            let field = quoted_field(chars.as_slice());
            push_chars(&mut s, field.as_slice());
            c = c + 1;
            assert(s@ + rest_of_row(sheet@, r, c as int) =~= before + rest_of_row(
                sheet@,
                r,
                c - 1,
            ));
        }
        assert(s@ =~= start + row_text(sheet@, r, 0));
        s.push('\n');
        r = r + 1;
        assert(s@ + rows_text(sheet@, r as int) =~= start + rows_text(sheet@, r - 1));
    }
    assert(s@ =~= whole);
    string_of(s.as_slice())
}

/// What is still to be written of a row, with the comma before it.
spec fn rest_of_row(sheet: SheetV, r: u32, c: int) -> Seq<char> {
    if c >= sheet.ncols {
        Seq::empty()
    } else if c > 0 {
        seq![','] + row_text(sheet, r, c)
    } else {
        row_text(sheet, r, c)
    }
}

// ---- laws -----------------------------------------------------------------

/// A text shorter than the largest row number has room for its fields.
pub proof fn short_text_fits(text: Seq<char>)
    requires
        text.len() < u32::MAX,
    ensures
        csv_fits(text),
{
    lines_bounded(text);
    assert forall|r: int| 0 <= r < csv_fields(text).len() implies (
    #[trigger] csv_fields(text)[r]).len() <= u32::MAX by {
        assert(lines(text)[r].len() <= text.len());
        fields_bounded(lines(text)[r], Seq::empty(), false);
    }
}

/// Whether a text is so short that its fields are sure to have room.
pub fn has_room(text: &str) -> (r: bool)
    ensures
        r == (text@.len() < u32::MAX),
        r ==> csv_fits(text@),
{
    let n: usize = chars_of(text).len();
    let r: bool = (n as u64) < u32::MAX as u64;
    proof {
        if r {
            short_text_fits(text@);
        }
    }
    r
}

proof fn lines_bounded(text: Seq<char>)
    ensures
        lines(text).len() <= text.len(),
        forall|r: int| 0 <= r < lines(text).len() ==> (#[trigger] lines(text)[r]).len() <= text.len(),
    decreases text.len(),
{
    let i = upto(text, '\n');
    if text.len() > 0 && 0 <= i < text.len() {
        let rest = text.skip(i + 1);
        lines_bounded(rest);
        assert forall|r: int| 0 <= r < lines(text).len() implies (#[trigger] lines(text)[r]).len()
            <= text.len() by {
            if r > 0 {
                assert(lines(text)[r] == lines(rest)[r - 1]);
            }
        }
    }
}

proof fn fields_bounded(s: Seq<char>, cur: Seq<char>, quoted: bool)
    ensures
        fields_from(s, cur, quoted).len() <= s.len() + 1,
    decreases s.len(),
{
    if s.len() > 0 {
        if s[0] == '"' {
            if quoted && s.len() > 1 && s[1] == '"' {
                fields_bounded(s.skip(2), cur.push('"'), quoted);
            } else {
                fields_bounded(s.skip(1), cur, !quoted);
            }
        } else if s[0] == ',' && !quoted {
            fields_bounded(s.skip(1), Seq::empty(), quoted);
        } else {
            fields_bounded(s.skip(1), cur.push(s[0]), quoted);
        }
    }
}

/// A field without commas and quotes is taken up as it stands.
proof fn plain_field(f: Seq<char>, cur: Seq<char>, tail: Seq<char>)
    requires
        !f.contains(','),
        !f.contains('"'),
    ensures
        fields_from(f + tail, cur, false) == fields_from(tail, cur + f, false),
    decreases f.len(),
{
    if f.len() == 0 {
        assert(f + tail =~= tail);
        assert(cur + f =~= cur);
    } else {
        let s = f + tail;
        assert(f.contains(f[0]));
        assert(s.skip(1) =~= f.skip(1) + tail);
        assert forall|x: char| f.skip(1).contains(x) implies f.contains(x) by {
            let i = choose|i: int| 0 <= i < f.skip(1).len() && f.skip(1)[i] == x;
            assert(f[i + 1] == x);
        }
        plain_field(f.skip(1), cur.push(f[0]), tail);
        assert(cur.push(f[0]) + f.skip(1) =~= cur + f);
    }
}

/// What stands between quotes, its own quotes doubled, is taken up as it was.
proof fn quoted_part(f: Seq<char>, cur: Seq<char>, tail: Seq<char>)
    requires
        tail.len() == 0 || tail[0] != '"',
    ensures
        fields_from(doubled(f) + seq!['"'] + tail, cur, true) == fields_from(tail, cur + f, false),
    decreases f.len(),
{
    let s = doubled(f) + seq!['"'] + tail;
    if f.len() == 0 {
        assert(s =~= seq!['"'] + tail);
        assert(s.skip(1) =~= tail);
        assert(cur + f =~= cur);
    } else {
        let rest = doubled(f.skip(1)) + seq!['"'] + tail;
        quoted_part(f.skip(1), cur.push(f[0]), tail);
        assert(cur.push(f[0]) + f.skip(1) =~= cur + f);
        if f[0] == '"' {
            assert(s =~= seq!['"', '"'] + rest);
            assert(s.skip(2) =~= rest);
        } else {
            assert(s =~= seq![f[0]] + rest);
            assert(s.skip(1) =~= rest);
        }
    }
}

/// A field as it is written is taken up as it was.
proof fn field_reads_back(f: Seq<char>, tail: Seq<char>)
    requires
        tail.len() == 0 || tail[0] == ',',
    ensures
        fields_from(field_text(f) + tail, Seq::empty(), false) == fields_from(tail, f, false),
{
    assert(Seq::<char>::empty() + f =~= f);
    if needs_quotes(f) {
        let s = field_text(f) + tail;
        quoted_part(f, Seq::empty(), tail);
        assert(s.skip(1) =~= doubled(f) + seq!['"'] + tail);
    } else {
        plain_field(f, Seq::empty(), tail);
    }
}

/// The texts of the cells of a row, from a column on.
spec fn row_raws(sheet: SheetV, r: u32, c: int) -> Seq<Seq<char>> {
    Seq::new((sheet.ncols - c) as nat, |i: int| sheet.cell(r, (c + i) as u32).raw)
}

/// A row as it is written has the texts of its cells as fields.
proof fn row_reads_back(sheet: SheetV, r: u32, c: int)
    requires
        0 <= c < sheet.ncols,
    ensures
        fields(row_text(sheet, r, c)) == row_raws(sheet, r, c),
    decreases sheet.ncols - c,
{
    let f = sheet.cell(r, c as u32).raw;
    if c + 1 == sheet.ncols {
        field_reads_back(f, Seq::empty());
        assert(field_text(f) + Seq::<char>::empty() =~= field_text(f));
        assert(row_raws(sheet, r, c) =~= seq![f]);
    } else {
        let rest = row_text(sheet, r, c + 1);
        let tail = seq![','] + rest;
        row_reads_back(sheet, r, c + 1);
        field_reads_back(f, tail);
        assert(row_text(sheet, r, c) =~= field_text(f) + tail);
        assert(tail.skip(1) =~= rest);
        assert(row_raws(sheet, r, c) =~= seq![f] + row_raws(sheet, r, c + 1));
    }
}

/// Whether a sheet can be told from its CSV text: no cell holds a line feed, and
/// no cell of the last column ends in a carriage return unless it is quoted.
pub open spec fn keeps_lines(sheet: SheetV) -> bool {
    forall|at: Coord| #[trigger]
        sheet.cells.contains_key(at) ==> {
            let raw = sheet.cells[at].raw;
            &&& !raw.contains('\n')
            &&& at.1 + 1 == sheet.ncols && raw.len() > 0 && raw.last() == '\r' ==> needs_quotes(raw)
        }
}

proof fn doubled_no_feed(s: Seq<char>)
    requires
        !s.contains('\n'),
    ensures
        !doubled(s).contains('\n'),
    decreases s.len(),
{
    if s.len() > 0 {
        let rest = s.skip(1);
        assert(s.contains(s[0]));
        assert forall|x: char| rest.contains(x) implies s.contains(x) by {
            let i = choose|i: int| 0 <= i < rest.len() && rest[i] == x;
            assert(s[i + 1] == x);
        }
        doubled_no_feed(rest);
        if doubled(s).contains('\n') {
            let i = choose|i: int| 0 <= i < doubled(s).len() && doubled(s)[i] == '\n';
            let k: int = if s[0] == '"' {
                2
            } else {
                1
            };
            assert(i >= k);
            assert(doubled(rest)[i - k] == '\n');
            assert(doubled(rest).contains('\n'));
        }
    }
}

/// A row as it is written has no line feed, and does not end in a carriage return.
proof fn row_is_one_line(sheet: SheetV, r: u32, c: int)
    requires
        sheet.well_formed(),
        keeps_lines(sheet),
        0 <= c,
    ensures
        !row_text(sheet, r, c).contains('\n'),
        row_text(sheet, r, c).len() > 0 ==> row_text(sheet, r, c).last() != '\r',
    decreases sheet.ncols - c,
{
    if c < sheet.ncols {
        let f = sheet.cell(r, c as u32).raw;
        let t = field_text(f);
        assert(sheet.cells.contains_key((r, c as u32)) || f.len() == 0);
        doubled_no_feed(f);
        assert(!t.contains('\n')) by {
            if t.contains('\n') {
                let i = choose|i: int| 0 <= i < t.len() && t[i] == '\n';
                if needs_quotes(f) {
                    assert(doubled(f)[i - 1] == '\n');
                    assert(doubled(f).contains('\n'));
                }
            }
        }
        if c + 1 < sheet.ncols {
            let rest = row_text(sheet, r, c + 1);
            let whole = row_text(sheet, r, c);
            row_is_one_line(sheet, r, c + 1);
            if whole.contains('\n') {
                let i = choose|i: int| 0 <= i < whole.len() && whole[i] == '\n';
                if i < t.len() {
                    assert(t[i] == '\n');
                    assert(t.contains('\n'));
                } else {
                    assert(i > t.len());
                    assert(rest[i - t.len() - 1] == '\n');
                    assert(rest.contains('\n'));
                }
            }
            if rest.len() > 0 {
                assert(whole.last() == rest.last());
            } else {
                assert(whole.last() == ',');
            }
        }
    }
}

/// A sheet as it is written has its rows as lines.
proof fn rows_read_back(sheet: SheetV, r: int)
    requires
        sheet.well_formed(),
        keeps_lines(sheet),
        0 <= r <= sheet.nrows,
    ensures
        lines(rows_text(sheet, r)) == Seq::new(
            (sheet.nrows - r) as nat,
            |i: int| row_text(sheet, (r + i) as u32, 0),
        ),
    decreases sheet.nrows - r,
{
    let rows = Seq::new((sheet.nrows - r) as nat, |i: int| row_text(sheet, (r + i) as u32, 0));
    if r == sheet.nrows {
        assert(rows =~= Seq::<Seq<char>>::empty());
    } else {
        let row = row_text(sheet, r as u32, 0);
        let text = rows_text(sheet, r);
        row_is_one_line(sheet, r as u32, 0);
        rows_read_back(sheet, r + 1);
        assert forall|j: int| 0 <= j < row.len() implies text[j] != '\n' by {
            assert(text[j] == row[j]);
            assert(row.contains(row[j]));
        }
        assert(text[row.len() as int] == '\n');
        upto_is(text, '\n', row.len() as int);
        assert(text.take(row.len() as int) =~= row);
        assert(text.skip(row.len() as int + 1) =~= rows_text(sheet, r + 1));
        assert(lines(text) == seq![without_return(row)] + lines(rows_text(sheet, r + 1)));
        assert(rows =~= lines(text));
    }
}

/// What is written as CSV reads back as the same cells: every cell has the text
/// it had, and cells without text are none.
pub proof fn csv_reads_back(sheet: SheetV)
    requires
        sheet.well_formed(),
        keeps_lines(sheet),
    ensures
        csv_fits(csv_text(sheet)),
        forall|at: Coord| #[trigger]
            csv_cells(csv_text(sheet)).contains_key(at) <==> sheet.cell(at.0, at.1).raw.len() > 0,
        forall|at: Coord| #[trigger]
            csv_cells(csv_text(sheet)).contains_key(at) ==> csv_cells(csv_text(sheet))[at].raw
                == sheet.cell(at.0, at.1).raw,
{
    let text = csv_text(sheet);
    rows_read_back(sheet, 0);
    assert(lines(text).len() == sheet.nrows);
    assert forall|r: int| 0 <= r < lines(text).len() implies fields(#[trigger] lines(text)[r])
        == written_row(sheet, r as u32) by {
        assert(lines(text)[r] == row_text(sheet, r as u32, 0));
        if sheet.ncols > 0 {
            row_reads_back(sheet, r as u32, 0);
        }
    }
    let table = csv_fields(text);
    assert forall|r: int| 0 <= r < table.len() implies (#[trigger] table[r]).len()
        <= u32::MAX by {
        assert(fields(lines(text)[r]) == written_row(sheet, r as u32));
    }
    assert forall|at: Coord|
        text_at(table, (0, 0), at) == #[trigger] sheet.cell(at.0, at.1).raw by {
        if at.0 < sheet.nrows {
            assert(lines(text)[at.0 as int] == row_text(sheet, at.0, 0));
            assert(table[at.0 as int] == written_row(sheet, at.0));
        }
    }
}

/// The fields of a row as it is written: an empty row has one empty field.
spec fn written_row(sheet: SheetV, r: u32) -> Seq<Seq<char>> {
    if sheet.ncols > 0 {
        row_raws(sheet, r, 0)
    } else {
        seq![Seq::empty()]
    }
}

/// There are only so many cells.
proof fn cells_are_finite(dom: Set<Coord>)
    ensures
        dom.finite(),
{
    let (first, last): (Coord, Coord) = ((0, 0), (u32::MAX, u32::MAX));
    let all = range_cells(first, last);
    assert forall|at: Coord| #[trigger] dom.contains(at) implies all.to_set().contains(at) by {
        cell_index(first, last, at.0 as int, at.1 as int);
        let k = at.0 as int * (high(0, u32::MAX) - low(0, u32::MAX) + 1) + at.1;
        assert(all[k] == at);
    }
    vstd::seq_lib::seq_to_set_is_finite(all);
    vstd::set_lib::lemma_set_subset_finite(all.to_set(), dom);
}

/// The sheet of a CSV text has the text's cells, and reaches just to the last of them.
pub proof fn csv_sheet_has_cells(name: Seq<char>, text: Seq<char>)
    requires
        csv_fits(text),
    ensures
        sheet_with(name, csv_cells(text)).name == name,
        sheet_with(name, csv_cells(text)).cells == csv_cells(text),
        tight(sheet_with(name, csv_cells(text))),
{
    let cells = csv_cells(text);
    let table = csv_fields(text);
    cells_are_finite(cells.dom());
    assert forall|at: Coord| #[trigger] cells.contains_key(at) implies at.0 < u32::MAX && at.1
        < u32::MAX && cells[at].raw.len() > 0 by {
        assert(text_at(table, (0, 0), at).len() > 0);
        assert(table[at.0 as int].len() <= u32::MAX);
    }
    sheet_with_cells(name, cells);
}

/// The cell in a row and a column is the field of that number in the line of that
/// number, without a value yet, and without colours.
pub proof fn cells_are_fields(text: Seq<char>, r: u32, c: u32)
    ensures
        ({
            let there = r < lines(text).len() && c < fields(lines(text)[r as int]).len();
            &&& csv_cells(text).contains_key((r, c)) <==> there && fields(
                lines(text)[r as int],
            )[c as int].len() > 0
            &&& csv_cells(text).contains_key((r, c)) ==> csv_cells(text)[(r, c)] == (CellV {
                raw: fields(lines(text)[r as int])[c as int],
                ..blank()
            })
        }),
{
}

/// A comma outside quotes ends a field: before it stands a text without commas and
/// quotes, or a text in quotes, its own quotes doubled, whatever it holds.
pub proof fn commas_end_fields(s: Seq<char>, t: Seq<char>, rest: Seq<char>)
    requires
        !s.contains(','),
        !s.contains('"'),
    ensures
        fields(s) == seq![s],
        fields(s + seq![','] + rest) == seq![s] + fields(rest),
        fields(seq!['"'] + doubled(t) + seq!['"']) == seq![t],
        fields(seq!['"'] + doubled(t) + seq!['"', ','] + rest) == seq![t] + fields(rest),
{
    let none = Seq::<char>::empty();
    plain_field(s, none, none);
    plain_field(s, none, seq![','] + rest);
    assert(s + none =~= s);
    assert(none + s =~= s);
    assert(s + (seq![','] + rest) =~= s + seq![','] + rest);
    assert((seq![','] + rest).skip(1) =~= rest);
    quoted_part(t, none, none);
    quoted_part(t, none, seq![','] + rest);
    assert(none + t =~= t);
    let a = seq!['"'] + doubled(t) + seq!['"'];
    assert(a.skip(1) =~= doubled(t) + seq!['"'] + none);
    let b = seq!['"'] + doubled(t) + seq!['"', ','] + rest;
    assert(b.skip(1) =~= doubled(t) + seq!['"'] + (seq![','] + rest));
}

/// How a row is written: its fields with commas between, those with a comma, a quote or
/// a line feed in quotes and with their own quotes doubled, the others as they are.
pub proof fn rows_are_joined(sheet: SheetV, r: u32, c: int)
    requires
        0 <= c < sheet.ncols,
    ensures
        ({
            let s = sheet.cell(r, c as u32).raw;
            let field = if s.contains(',') || s.contains('"') || s.contains('\n') {
                seq!['"'] + doubled(s) + seq!['"']
            } else {
                s
            };
            &&& c + 1 == sheet.ncols ==> row_text(sheet, r, c) == field
            &&& c + 1 < sheet.ncols ==> row_text(sheet, r, c) == field + seq![','] + row_text(
                sheet,
                r,
                c + 1,
            )
        }),
{
}

/// Doubling quotes puts another beside each, and changes nothing else.
pub proof fn quotes_are_doubled(a: Seq<char>, b: Seq<char>)
    requires
        !a.contains('"'),
    ensures
        doubled(a) == a,
        doubled(a + seq!['"'] + b) == a + seq!['"', '"'] + doubled(b),
    decreases a.len(),
{
    let s = a + seq!['"'] + b;
    if a.len() == 0 {
        assert(s.skip(1) =~= b);
        assert(doubled(s) =~= a + seq!['"', '"'] + doubled(b));
        assert(doubled(a) =~= a);
    } else {
        let t = a.skip(1);
        assert(a.contains(a[0]));
        assert forall|c: char| #[trigger] t.contains(c) implies a.contains(c) by {
            let i = choose|i: int| 0 <= i < t.len() && t[i] == c;
            assert(a[i + 1] == c);
        }
        quotes_are_doubled(t, b);
        assert(s.skip(1) =~= t + seq!['"'] + b);
        assert(seq![a[0]] + t =~= a);
        assert(doubled(s) =~= a + seq!['"', '"'] + doubled(b));
    }
}

} // verus!
