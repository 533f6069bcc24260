//! Sheets made from tables of texts.

use vstd::prelude::*;

use crate::model::{CellV, Coord, Sheet, SheetV, ValueV};

verus! {

/// The views of the texts.
pub open spec fn texts(v: Seq<String>) -> Seq<Seq<char>> {
    Seq::new(v.len(), |i: int| v[i]@)
}

/// The views of the texts of a table.
pub open spec fn table_view(rows: Seq<Vec<String>>) -> Seq<Seq<Seq<char>>> {
    Seq::new(rows.len(), |r: int| texts(rows[r]@))
}

/// The text that a table, its corner at `corner`, has for a cell; empty where it
/// has none.
pub open spec fn text_at(table: Seq<Seq<Seq<char>>>, corner: Coord, at: Coord) -> Seq<char> {
    let (r, c) = (at.0 - corner.0, at.1 - corner.1);
    if 0 <= r < table.len() && 0 <= c < table[r].len() {
        table[r][c]
    } else {
        Seq::empty()
    }
}

/// A cell that holds a text, not evaluated yet.
pub open spec fn typed(raw: Seq<char>) -> CellV {
    CellV { raw, value: ValueV::Empty, fg: None, bg: None }
}

/// The cells of a table: its texts that are not empty.
pub open spec fn filled_cells(table: Seq<Seq<Seq<char>>>, corner: Coord) -> Map<Coord, CellV> {
    Map::new(
        |at: Coord| text_at(table, corner, at).len() > 0,
        |at: Coord| typed(text_at(table, corner, at)),
    )
}

/// Whether every text of a table has a place in a sheet.
pub open spec fn table_fits(table: Seq<Seq<Seq<char>>>, corner: Coord) -> bool {
    &&& corner.0 + table.len() <= u32::MAX
    &&& forall|r: int|
        0 <= r < table.len() ==> corner.1 + (#[trigger] table[r]).len() <= u32::MAX
}

/// Whether the extent of a sheet reaches just to its last row and column.
pub open spec fn tight(sheet: SheetV) -> bool {
    &&& sheet.well_formed()
    &&& sheet.nrows > 0 ==> exists|at: Coord| #[trigger]
        sheet.cells.contains_key(at) && at.0 + 1 == sheet.nrows
    &&& sheet.ncols > 0 ==> exists|at: Coord| #[trigger]
        sheet.cells.contains_key(at) && at.1 + 1 == sheet.ncols
}

/// The sheet with the cells `cells` whose extent reaches just to the last of them.
pub open spec fn sheet_with(name: Seq<char>, cells: Map<Coord, CellV>) -> SheetV {
    choose|s: SheetV| s.name == name && s.cells == cells && #[trigger] tight(s)
}

/// The extent of a tight sheet follows from its cells.
pub proof fn tight_once(s: SheetV)
    requires
        tight(s),
    ensures
        s == sheet_with(s.name, s.cells),
{
    let t = sheet_with(s.name, s.cells);
    assert(t.name == s.name && t.cells == s.cells && tight(t));
    extent_reached(s, t);
    extent_reached(t, s);
}

/// How far a set of cells reaches down and to the right.
proof fn reach(dom: Set<Coord>) -> (n: Coord)
    requires
        dom.finite(),
        forall|at: Coord| #[trigger] dom.contains(at) ==> at.0 < u32::MAX && at.1 < u32::MAX,
    ensures
        forall|at: Coord| #[trigger] dom.contains(at) ==> at.0 < n.0 && at.1 < n.1,
        n.0 > 0 ==> exists|at: Coord| #[trigger] dom.contains(at) && at.0 + 1 == n.0,
        n.1 > 0 ==> exists|at: Coord| #[trigger] dom.contains(at) && at.1 + 1 == n.1,
    decreases dom.len(),
{
    if dom.len() == 0 {
        (0, 0)
    } else {
        let x = dom.choose();
        let rest = dom.remove(x);
        let k = reach(rest);
        let n: Coord = (
            if x.0 < k.0 {
                k.0
            } else {
                (x.0 + 1) as u32
            },
            if x.1 < k.1 {
                k.1
            } else {
                (x.1 + 1) as u32
            },
        );
        assert forall|at: Coord| #[trigger] dom.contains(at) implies at.0 < n.0 && at.1 < n.1 by {
            assert(at == x || rest.contains(at));
        }
        if x.0 < k.0 {
            let at = choose|at: Coord| #[trigger] rest.contains(at) && at.0 + 1 == k.0;
            assert(dom.contains(at));
        }
        if x.1 < k.1 {
            let at = choose|at: Coord| #[trigger] rest.contains(at) && at.1 + 1 == k.1;
            assert(dom.contains(at));
        }
        n
    }
}

/// Cells that hold text have a sheet whose extent reaches just to the last of
/// them.
pub proof fn sheet_with_cells(name: Seq<char>, cells: Map<Coord, CellV>)
    requires
        cells.dom().finite(),
        forall|at: Coord| #[trigger]
            cells.contains_key(at) ==> at.0 < u32::MAX && at.1 < u32::MAX && cells[at].raw.len()
                > 0,
    ensures
        sheet_with(name, cells).name == name,
        sheet_with(name, cells).cells == cells,
        tight(sheet_with(name, cells)),
{
    assert forall|at: Coord| #[trigger] cells.dom().contains(at) implies at.0 < u32::MAX && at.1
        < u32::MAX by {
        assert(cells.contains_key(at));
    }
    let n = reach(cells.dom());
    let s = SheetV { name, cells, nrows: n.0, ncols: n.1 };
    assert forall|at: Coord| #[trigger] s.cells.contains_key(at) implies {
        &&& at.0 < s.nrows
        &&& at.1 < s.ncols
        &&& s.cells[at].raw.len() > 0
    } by {
        assert(cells.dom().contains(at));
    }
    if n.0 > 0 {
        let at = choose|at: Coord| #[trigger] cells.dom().contains(at) && at.0 + 1 == n.0;
        assert(s.cells.contains_key(at) && at.0 + 1 == s.nrows);
    }
    if n.1 > 0 {
        let at = choose|at: Coord| #[trigger] cells.dom().contains(at) && at.1 + 1 == n.1;
        assert(s.cells.contains_key(at) && at.1 + 1 == s.ncols);
    }
    assert(tight(s));
}

proof fn extent_reached(s: SheetV, t: SheetV)
    requires
        tight(s),
        tight(t),
        s.cells == t.cells,
    ensures
        s.nrows <= t.nrows,
        s.ncols <= t.ncols,
{
    if s.nrows > 0 {
        let at = choose|at: Coord| #[trigger]
            s.cells.contains_key(at) && at.0 + 1 == s.nrows;
        assert(t.cells.contains_key(at));
    }
    if s.ncols > 0 {
        let at = choose|at: Coord| #[trigger]
            s.cells.contains_key(at) && at.1 + 1 == s.ncols;
        assert(t.cells.contains_key(at));
    }
}

/// The cells of a table before the text at (`r`, `c`), row by row.
spec fn cells_before(table: Seq<Seq<Seq<char>>>, corner: Coord, r: int, c: int) -> Map<
    Coord,
    CellV,
> {
    Map::new(
        |at: Coord|
            text_at(table, corner, at).len() > 0 && (at.0 - corner.0 < r || (at.0 - corner.0 == r
                && at.1 - corner.1 < c)),
        |at: Coord| typed(text_at(table, corner, at)),
    )
}

/// A sheet stays tight when text is typed into one of its cells.
proof fn typing_keeps_tight(sheet: SheetV, r: u32, c: u32, raw: Seq<char>)
    requires
        tight(sheet),
        r < u32::MAX,
        c < u32::MAX,
        raw.len() > 0,
    ensures
        tight(sheet.with_raw(r, c, raw)),
{
    let after = sheet.with_raw(r, c, raw);
    assert(after.cells.contains_key((r, c)));
    if after.nrows != r + 1 {
        let at = choose|at: Coord| #[trigger]
            sheet.cells.contains_key(at) && at.0 + 1 == sheet.nrows;
        assert(after.cells.contains_key(at));
    }
    if after.ncols != c + 1 {
        let at = choose|at: Coord| #[trigger]
            sheet.cells.contains_key(at) && at.1 + 1 == sheet.ncols;
        assert(after.cells.contains_key(at));
    }
}

/// The sheet with the texts of a table, its corner at `corner`.
pub fn sheet_of_table(name: String, table: &Vec<Vec<String>>, corner: (u32, u32)) -> (sheet: Sheet)
    requires
        table_fits(table_view(table@), corner),
    ensures
        sheet@ == sheet_with(name@, filled_cells(table_view(table@), corner)),
        sheet@.name == name@,
        sheet@.cells == filled_cells(table_view(table@), corner),
        tight(sheet@),
{
    let ghost all = table_view(table@);
    let mut sheet = Sheet::named(name);
    let mut r: usize = 0;
    assert(sheet@.cells =~= cells_before(all, corner, 0, 0));
    while r < table.len()
        invariant
            all == table_view(table@),
            table_fits(all, corner),
            r <= table@.len(),
            sheet@.name == name@,
            sheet@.cells == cells_before(all, corner, r as int, 0),
            tight(sheet@),
        decreases table@.len() - r,
    {
        let line = &table[r];
        assert(texts(line@) == all[r as int]);
        let mut c: usize = 0;
        while c < line.len()
            invariant
                all == table_view(table@),
                table_fits(all, corner),
                r < table@.len(),
                texts(line@) == all[r as int],
                c <= line@.len(),
                sheet@.name == name@,
                sheet@.cells == cells_before(all, corner, r as int, c as int),
                tight(sheet@),
            decreases line@.len() - c,
        {
            let ghost before = sheet@;
            assert(corner.1 + all[r as int].len() <= u32::MAX);
            let at = (corner.0 + r as u32, corner.1 + c as u32);
            assert(line@[c as int]@ == texts(line@)[c as int]);
            assert(text_at(all, corner, at) == line@[c as int]@);
            assert(!before.cells.contains_key(at));
            if !line[c].as_str().is_empty() {
                proof {
                    typing_keeps_tight(before, at.0, at.1, line@[c as int]@);
                }
                sheet.set(at.0, at.1, line[c].clone());
                assert(sheet@.cells =~= cells_before(all, corner, r as int, c + 1));
            } else {
                assert(sheet@.cells =~= cells_before(all, corner, r as int, c + 1));
            }
            c = c + 1;
        }
        assert(cells_before(all, corner, r as int, c as int) =~= cells_before(
            all,
            corner,
            r + 1,
            0,
        ));
        r = r + 1;
    }
    assert(cells_before(all, corner, r as int, 0) =~= filled_cells(all, corner));
    proof {
        tight_once(sheet@);
    }
    sheet
}

} // verus!
