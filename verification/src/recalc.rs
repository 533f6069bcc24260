//! The recalculation of a whole sheet, and what holds of its outcome.

use vstd::prelude::*;

use crate::agree::{
    error_handed_on, eval_agrees, eval_keeps, extends, hands_on, mentions,
    only_mentioned_cells_count, value_under,
};
use crate::cells::{coords, in_order, listed, lists, precedes};
use crate::eval::{cell_value, eval, is_formula, opening, raw_at, reader, unopened, Memo, Recalc};
use crate::model::{Book, CellV, Coord, Sheet, SheetV, Value, ValueV};
use crate::num::{Bits, NumModel, Numerics, Op};
use crate::parse::formula;
use crate::value::literal_value;

verus! {

/// The values found when the cells are evaluated one after the other.
pub open spec fn found_after(m: NumModel, raws: Map<Coord, Seq<char>>, keys: Seq<Coord>) -> Memo
    decreases keys.len(),
{
    if keys.len() == 0 {
        Map::empty()
    } else {
        cell_value(
            m,
            raws,
            Set::empty(),
            keys.last(),
            found_after(m, raws, keys.drop_last()),
        ).1
    }
}

/// The values found when every stored cell is evaluated, row by row.
pub open spec fn found(m: NumModel, raws: Map<Coord, Seq<char>>) -> Memo {
    found_after(m, raws, in_order(raws.dom()))
}

/// The sheet with the value of every cell recomputed.
pub open spec fn recalculated(m: NumModel, sheet: SheetV) -> SheetV {
    let values = found(m, sheet.raws());
    SheetV {
        cells: Map::new(
            |at: Coord| sheet.cells.contains_key(at),
            |at: Coord| CellV { value: values[at], ..sheet.cells[at] },
        ),
        ..sheet
    }
}

/// No cell under evaluation has a value yet.
pub open spec fn apart(open: Set<Coord>, s: Memo) -> bool {
    forall|c: Coord| #[trigger] s.contains_key(c) ==> !open.contains(c)
}

/// Evaluating a cell keeps the values found before, and finds its own.
pub proof fn cell_kept(
    m: NumModel,
    raws: Map<Coord, Seq<char>>,
    open: Set<Coord>,
    at: Coord,
    s: Memo,
)
    requires
        raws.dom().finite(),
        apart(open, s),
    ensures
        ({
            let (v, t) = cell_value(m, raws, open, at, s);
            &&& extends(s, t)
            &&& apart(open, t)
            &&& !open.contains(at) ==> t.contains_key(at) && t[at] == v
        }),
    decreases unopened(raws, open),
{
    let raw = raw_at(raws, at);
    if !s.contains_key(at) && !open.contains(at) && is_formula(raw) {
        if let Ok(e) = formula(m, raw.skip(1)) {
            let inner = open.insert(at);
            let read = reader(m, raws, inner);
            let keeps = |t: Memo| apart(inner, t);
            let scope = |c: Coord| true;
            opening(raws, open, at);
            assert forall|c: Coord, t: Memo|
                #![trigger read(c, t)]
                scope(c) && keeps(t) implies keeps(read(c, t).1) && extends(t, read(c, t).1) by {
                cell_kept(m, raws, inner, c, t);
            }
            eval_keeps(m, read, keeps, scope, e, s);
            assert(keeps(eval(m, read, e, s).1));
        }
    }
}

/// Evaluating more cells keeps the values found before.
proof fn found_kept(m: NumModel, raws: Map<Coord, Seq<char>>, keys: Seq<Coord>)
    requires
        raws.dom().finite(),
    ensures
        forall|i: int|
            0 <= i < keys.len() ==> found_after(m, raws, keys).contains_key(#[trigger] keys[i]),
    decreases keys.len(),
{
    if keys.len() > 0 {
        let init = keys.drop_last();
        let s = found_after(m, raws, init);
        found_kept(m, raws, init);
        cell_kept(m, raws, Set::empty(), keys.last(), s);
        assert forall|i: int| 0 <= i < keys.len() implies found_after(m, raws, keys).contains_key(
            #[trigger] keys[i],
        ) by {
            if i < init.len() {
                assert(init[i] == keys[i]);
                assert(s.contains_key(init[i]));
            }
        }
    }
}

/// Whether a value is the one found for a cell.
spec fn holds_value(s: Memo, at: Coord, v: Value) -> bool {
    s.contains_key(at) && s[at] == v@
}

/// The values of the cells, evaluated one after the other.
fn results<P: Fn(&str) -> Option<Bits>, S: Fn(Bits) -> String, C: Fn(Op, Bits, Bits) -> Bits>(
    numerics: &Numerics<P, S, C>,
    sheet: &Sheet,
    keys: &Vec<(u32, u32)>,
) -> (values: Vec<Value>)
    requires
        numerics.valid(),
    ensures
        values@.len() == keys@.len(),
        forall|i: int|
            0 <= i < keys@.len() ==> (#[trigger] values@[i])@ == found_after(
                numerics.model(),
                sheet@.raws(),
                keys@,
            )[keys@[i]],
{
    let ghost m = numerics.model();
    let ghost raws = sheet@.raws();
    let mut rc = Recalc::new(sheet, numerics);
    let mut values: Vec<Value> = Vec::new();
    let mut i: usize = 0;
    assert(keys@.take(0) =~= Seq::<Coord>::empty());
    assert(raws.dom() =~= sheet.cells@.dom());
    while i < keys.len()
        invariant
            i <= keys@.len(),
            rc.inv(),
            rc.model() == m,
            rc.of() == *sheet,
            rc.open() == Set::<Coord>::empty(),
            raws == sheet@.raws(),
            raws.dom().finite(),
            rc.memo() == found_after(m, raws, keys@.take(i as int)),
            values@.len() == i,
            forall|j: int| 0 <= j < i ==> holds_value(rc.memo(), keys@[j], #[trigger] values@[j]),
        decreases keys@.len() - i,
    {
        let ghost s = rc.memo();
        assert(keys@.take(i + 1).drop_last() =~= keys@.take(i as int));
        proof {
            cell_kept(m, raws, Set::empty(), keys@[i as int], s);
        }
        let v = rc.eval_cell(keys[i]);
        let ghost held = values@;
        values.push(v);
        assert forall|j: int| 0 <= j < values@.len() implies holds_value(
            rc.memo(),
            keys@[j],
            #[trigger] values@[j],
        ) by {
            if j < i {
                assert(holds_value(s, keys@[j], held[j]));
            }
        }
        i = i + 1;
    }
    assert(keys@.take(i as int) =~= keys@);
    values
}

/// Recomputes the value of every cell.
pub fn recalc<P: Fn(&str) -> Option<Bits>, S: Fn(Bits) -> String, C: Fn(Op, Bits, Bits) -> Bits>(
    numerics: &Numerics<P, S, C>,
    sheet: &mut Sheet,
)
    requires
        numerics.valid(),
    ensures
        final(sheet)@ == recalculated(numerics.model(), old(sheet)@),
{
    let ghost before = sheet@;
    let ghost after = recalculated(numerics.model(), before);
    let keys = coords(sheet);
    let mut values = results(numerics, sheet, &keys);
    assert(before.raws().dom() =~= before.cells.dom());
    assert forall|j: int| 0 <= j < keys@.len() implies before.cells.contains_key(
        #[trigger] keys@[j],
    ) by {
        assert(keys@.contains(keys@[j]));
    }
    let mut i: usize = keys.len();
    while i > 0
        invariant
            i <= keys@.len(),
            values@.len() == i,
            lists(keys@, before.cells.dom()),
            sheet.name@ == before.name,
            sheet.nrows == before.nrows,
            sheet.ncols == before.ncols,
            sheet@.cells.dom() == before.cells.dom(),
            after == recalculated(numerics.model(), before),
            forall|j: int|
                0 <= j < i ==> (#[trigger] values@[j])@ == after.cells[keys@[j]].value,
            forall|j: int|
                0 <= j < i ==> sheet@.cells[#[trigger] keys@[j]] == before.cells[keys@[j]],
            forall|j: int|
                i <= j < keys@.len() ==> sheet@.cells[#[trigger] keys@[j]] == after.cells[keys@[j]],
        decreases i,
    {
        i = i - 1;
        let at = keys[i];
        let ghost held = sheet@.cells;
        assert(keys@.contains(at));
        assert(held.contains_key(at));
        if let Some(v) = values.pop() {
            if let Some(mut cell) = sheet.cells.remove(&at) {
                assert(cell@ == held[at]);
                cell.value = v;
                sheet.cells.insert(at, cell);
                assert(sheet@.cells =~= held.insert(at, after.cells[at]));
            }
        }
        assert forall|j: int| 0 <= j < keys@.len() && j != i implies #[trigger] keys@[j] != at by {
            assert(j < i ==> precedes(keys@[j], keys@[i as int]));
            assert(i < j ==> precedes(keys@[i as int], keys@[j]));
        }
    }
    assert(sheet@.cells =~= after.cells) by {
        assert forall|at: Coord| #[trigger] before.cells.contains_key(at) implies sheet@.cells[at]
            == after.cells[at] by {
            assert(keys@.contains(at));
        }
    }
}

/// Recomputes the values of every sheet of a book.
pub fn recalc_book<
    P: Fn(&str) -> Option<Bits>,
    S: Fn(Bits) -> String,
    C: Fn(Op, Bits, Bits) -> Bits,
>(numerics: &Numerics<P, S, C>, book: &mut Book)
    requires
        numerics.valid(),
    ensures
        final(book).sheets@.len() == old(book).sheets@.len(),
        forall|i: int|
            0 <= i < old(book).sheets@.len() ==> (#[trigger] final(book).sheets@[i])@
                == recalculated(numerics.model(), old(book).sheets@[i]@),
        final(book).active == old(book).active,
        final(book).path == old(book).path,
        final(book).dirty == old(book).dirty,
{
    let ghost before = book.sheets@;
    let mut i: usize = 0;
    while i < book.sheets.len()
        invariant
            numerics.valid(),
            i <= book.sheets@.len(),
            before == old(book).sheets@,
            book.sheets@.len() == before.len(),
            book.active == old(book).active,
            book.path == old(book).path,
            book.dirty == old(book).dirty,
            forall|j: int|
                0 <= j < i ==> (#[trigger] book.sheets@[j])@ == recalculated(
                    numerics.model(),
                    before[j]@,
                ),
            forall|j: int| i <= j < before.len() ==> #[trigger] book.sheets@[j] == before[j],
        decreases book.sheets@.len() - i,
    {
        recalc(numerics, &mut book.sheets[i]);
        i = i + 1;
    }
}

// ---- laws -----------------------------------------------------------------

/// The values that a sheet shows.
pub open spec fn shown(sheet: SheetV) -> spec_fn(Coord) -> ValueV {
    |c: Coord| sheet.cell(c.0, c.1).value
}

/// The value that a cell's text denotes when cells are read from a table.
pub open spec fn denoted(m: NumModel, raw: Seq<char>, seen: spec_fn(Coord) -> ValueV) -> ValueV {
    if is_formula(raw) {
        match formula(m, raw.skip(1)) {
            Ok(e) => value_under(m, seen, e),
            Err(code) => ValueV::Error(code),
        }
    } else {
        literal_value(m, raw)
    }
}

/// Whether the formula of a cell mentions another cell.
pub open spec fn refers(m: NumModel, raws: Map<Coord, Seq<char>>, at: Coord, c: Coord) -> bool {
    is_formula(raw_at(raws, at)) && match formula(m, raw_at(raws, at).skip(1)) {
        Ok(e) => mentions(e, c),
        Err(_) => false,
    }
}

/// The table, but for the cells `open`, which read as CYCLE.
pub open spec fn during(open: Set<Coord>, seen: spec_fn(Coord) -> ValueV) -> spec_fn(
    Coord,
) -> ValueV {
    |c: Coord|
        if open.contains(c) {
            ValueV::Error("CYCLE"@)
        } else {
            seen(c)
        }
}

/// Recalculation leaves everything but the values as it was.
pub proof fn recalc_keeps(m: NumModel, sheet: SheetV)
    requires
        sheet.well_formed(),
    ensures
        recalculated(m, sheet).well_formed(),
        recalculated(m, sheet).raws() == sheet.raws(),
        recalculated(m, sheet).name == sheet.name,
        recalculated(m, sheet).nrows == sheet.nrows,
        recalculated(m, sheet).ncols == sheet.ncols,
        forall|r: u32, c: u32|
            ({
                let after = #[trigger] recalculated(m, sheet).cell(r, c);
                &&& after.raw == sheet.cell(r, c).raw
                &&& after.fg == sheet.cell(r, c).fg
                &&& after.bg == sheet.cell(r, c).bg
            }),
{
    let after = recalculated(m, sheet);
    assert(after.cells.dom() =~= sheet.cells.dom());
    assert(after.raws() =~= sheet.raws());
}

/// Recalculating once more changes nothing.
pub proof fn recalc_settles(m: NumModel, sheet: SheetV)
    requires
        sheet.well_formed(),
    ensures
        recalculated(m, recalculated(m, sheet)) == recalculated(m, sheet),
{
    recalc_keeps(m, sheet);
    let after = recalculated(m, sheet);
    assert(recalculated(m, after).cells =~= after.cells);
}

/// The values that the stored cells end up with; other cells are blank.
spec fn ended(raws: Map<Coord, Seq<char>>, end: Memo) -> spec_fn(Coord) -> ValueV {
    |c: Coord|
        if raws.contains_key(c) {
            end[c]
        } else {
            ValueV::Empty
        }
}

/// Every value found is what its cell's text denotes in the end.
spec fn settled(m: NumModel, raws: Map<Coord, Seq<char>>, end: Memo, s: Memo) -> bool {
    forall|c: Coord| #[trigger]
        s.contains_key(c) ==> s[c] == denoted(m, raw_at(raws, c), ended(raws, end))
}

proof fn cell_settled(
    m: NumModel,
    raws: Map<Coord, Seq<char>>,
    rank: spec_fn(Coord) -> nat,
    open: Set<Coord>,
    at: Coord,
    s: Memo,
    end: Memo,
)
    requires
        raws.dom().finite(),
        forall|a: Coord, c: Coord| #[trigger] refers(m, raws, a, c) ==> rank(c) < rank(a),
        forall|o: Coord| #[trigger] open.contains(o) ==> rank(o) > rank(at),
        apart(open, s),
        settled(m, raws, end, s),
        extends(cell_value(m, raws, open, at, s).1, end),
    ensures
        settled(m, raws, end, cell_value(m, raws, open, at, s).1),
    decreases unopened(raws, open),
{
    let raw = raw_at(raws, at);
    cell_kept(m, raws, open, at, s);
    if !s.contains_key(at) && !open.contains(at) && is_formula(raw) {
        if let Ok(e) = formula(m, raw.skip(1)) {
            let inner = open.insert(at);
            let read = reader(m, raws, inner);
            let seen = ended(raws, end);
            let keeps = |t: Memo|
                apart(inner, t) && (extends(t, end) ==> settled(m, raws, end, t));
            let scope = |c: Coord| rank(c) < rank(at);
            opening(raws, open, at);
            assert forall|c: Coord, t: Memo|
                #![trigger read(c, t)]
                scope(c) && keeps(t) implies keeps(read(c, t).1) && extends(t, read(c, t).1) by {
                cell_kept(m, raws, inner, c, t);
                if extends(read(c, t).1, end) {
                    cell_settled(m, raws, rank, inner, c, t, end);
                }
            }
            assert forall|c: Coord, t: Memo|
                #![trigger read(c, t)]
                scope(c) && keeps(t) && extends(read(c, t).1, end) implies read(c, t).0 == seen(
                c,
            ) by {
                cell_kept(m, raws, inner, c, t);
                let u = read(c, t).1;
                assert(u.contains_key(c) && u[c] == read(c, t).0);
                assert(keeps(u));
                assert(end[c] == u[c]);
            }
            assert forall|c: Coord| #[trigger] mentions(e, c) implies scope(c) by {
                assert(refers(m, raws, at, c));
            }
            let (v, t) = eval(m, read, e, s);
            eval_keeps(m, read, keeps, scope, e, s);
            assert(keeps(t));
            assert(extends(t, end)) by {
                let u = t.insert(at, v);
                assert forall|c: Coord| #[trigger] t.contains_key(c) implies end.contains_key(c)
                    && end[c] == t[c] by {
                    assert(u.contains_key(c));
                }
            }
            eval_agrees(m, read, keeps, scope, seen, end, e, s, Map::empty());
        }
    }
}

proof fn found_settled(
    m: NumModel,
    raws: Map<Coord, Seq<char>>,
    rank: spec_fn(Coord) -> nat,
    keys: Seq<Coord>,
    end: Memo,
)
    requires
        raws.dom().finite(),
        forall|a: Coord, c: Coord| #[trigger] refers(m, raws, a, c) ==> rank(c) < rank(a),
        extends(found_after(m, raws, keys), end),
    ensures
        settled(m, raws, end, found_after(m, raws, keys)),
    decreases keys.len(),
{
    if keys.len() > 0 {
        let s = found_after(m, raws, keys.drop_last());
        cell_kept(m, raws, Set::empty(), keys.last(), s);
        found_settled(m, raws, rank, keys.drop_last(), end);
        cell_settled(m, raws, rank, Set::empty(), keys.last(), s, end);
    }
}

/// The value of every stored cell is found.
proof fn all_found(m: NumModel, sheet: SheetV)
    requires
        sheet.cells.dom().finite(),
    ensures
        sheet.raws().dom() == sheet.cells.dom(),
        forall|at: Coord| #[trigger]
            sheet.cells.contains_key(at) ==> found(m, sheet.raws()).contains_key(at),
        shown(recalculated(m, sheet)) == ended(sheet.raws(), found(m, sheet.raws())),
{
    let raws = sheet.raws();
    assert(raws.dom() =~= sheet.cells.dom());
    listed(raws.dom());
    let keys = in_order(raws.dom());
    found_kept(m, raws, keys);
    assert forall|at: Coord| #[trigger] sheet.cells.contains_key(at) implies found(
        m,
        raws,
    ).contains_key(at) by {
        assert(keys.contains(at));
    }
    assert(shown(recalculated(m, sheet)) =~= ended(raws, found(m, raws)));
}

/// Where no formula rests on itself (every cell can be ranked above the cells
/// that its formula mentions), each recalculated cell shows what its text denotes
/// when the cells it mentions are read as the recalculated sheet shows them.
pub proof fn values_follow_from_values(m: NumModel, sheet: SheetV, rank: spec_fn(Coord) -> nat)
    requires
        sheet.well_formed(),
        forall|at: Coord, c: Coord| #[trigger]
            refers(m, sheet.raws(), at, c) ==> rank(c) < rank(at),
    ensures
        forall|at: Coord| #[trigger]
            sheet.cells.contains_key(at) ==> recalculated(m, sheet).cells[at].value == denoted(
                m,
                sheet.cells[at].raw,
                shown(recalculated(m, sheet)),
            ),
{
    let raws = sheet.raws();
    let end = found(m, raws);
    all_found(m, sheet);
    found_settled(m, raws, rank, in_order(raws.dom()), end);
    assert forall|at: Coord| #[trigger] sheet.cells.contains_key(at) implies recalculated(
        m,
        sheet,
    ).cells[at].value == denoted(m, sheet.cells[at].raw, shown(recalculated(m, sheet))) by {
        assert(end.contains_key(at));
        assert(raw_at(raws, at) == sheet.cells[at].raw);
    }
}

/// A table is what the cells of a sheet denote under it: each stored cell has the
/// value of its text, and all others are blank.
pub open spec fn solves(m: NumModel, sheet: SheetV, seen: spec_fn(Coord) -> ValueV) -> bool {
    forall|at: Coord| #[trigger]
        seen(at) == if sheet.cells.contains_key(at) {
            denoted(m, sheet.cells[at].raw, seen)
        } else {
            ValueV::Empty
        }
}

/// Where no formula rests on itself, the values of the recalculated sheet are the
/// only ones that follow from themselves.
pub proof fn only_solution(
    m: NumModel,
    sheet: SheetV,
    rank: spec_fn(Coord) -> nat,
    seen: spec_fn(Coord) -> ValueV,
)
    requires
        sheet.well_formed(),
        forall|at: Coord, c: Coord| #[trigger]
            refers(m, sheet.raws(), at, c) ==> rank(c) < rank(at),
        solves(m, sheet, seen),
    ensures
        solves(m, sheet, shown(recalculated(m, sheet))),
        forall|at: Coord| seen(at) == #[trigger] shown(recalculated(m, sheet))(at),
{
    let after = recalculated(m, sheet);
    let end = shown(after);
    values_follow_from_values(m, sheet, rank);
    assert forall|at: Coord| #[trigger] end(at) == if sheet.cells.contains_key(at) {
        denoted(m, sheet.cells[at].raw, end)
    } else {
        ValueV::Empty
    } by {
        assert(after.cells.contains_key(at) == sheet.cells.contains_key(at));
    }
    assert(solves(m, sheet, end));
    assert forall|at: Coord| seen(at) == #[trigger] end(at) by {
        solutions_agree(m, sheet, rank, seen, end, at);
    }
}

proof fn solutions_agree(
    m: NumModel,
    sheet: SheetV,
    rank: spec_fn(Coord) -> nat,
    a: spec_fn(Coord) -> ValueV,
    b: spec_fn(Coord) -> ValueV,
    at: Coord,
)
    requires
        forall|x: Coord, c: Coord| #[trigger]
            refers(m, sheet.raws(), x, c) ==> rank(c) < rank(x),
        solves(m, sheet, a),
        solves(m, sheet, b),
    ensures
        a(at) == b(at),
    decreases rank(at),
{
    if sheet.cells.contains_key(at) {
        let raw = sheet.cells[at].raw;
        assert(raw_at(sheet.raws(), at) == raw);
        if is_formula(raw) {
            if let Ok(e) = formula(m, raw.skip(1)) {
                assert forall|c: Coord| #[trigger] mentions(e, c) implies a(c) == b(c) by {
                    assert(refers(m, sheet.raws(), at, c));
                    solutions_agree(m, sheet, rank, a, b, c);
                }
                only_mentioned_cells_count(m, e, a, b);
            }
        }
    }
}

/// Whether a value is what a cell's text denotes when some cells, its own among
/// them, read as CYCLE.
pub open spec fn explained(
    m: NumModel,
    raw: Seq<char>,
    at: Coord,
    v: ValueV,
    seen: spec_fn(Coord) -> ValueV,
) -> bool {
    exists|open: Set<Coord>| #[trigger]
        open.contains(at) && v == denoted(m, raw, during(open, seen))
}

/// Every value found is explained by the values in the end.
spec fn all_explained(m: NumModel, raws: Map<Coord, Seq<char>>, end: Memo, s: Memo) -> bool {
    forall|c: Coord| #[trigger]
        s.contains_key(c) ==> explained(m, raw_at(raws, c), c, s[c], ended(raws, end))
}

proof fn cell_explained(
    m: NumModel,
    raws: Map<Coord, Seq<char>>,
    open: Set<Coord>,
    at: Coord,
    s: Memo,
    end: Memo,
)
    requires
        raws.dom().finite(),
        apart(open, s),
        all_explained(m, raws, end, s),
        extends(cell_value(m, raws, open, at, s).1, end),
    ensures
        all_explained(m, raws, end, cell_value(m, raws, open, at, s).1),
    decreases unopened(raws, open),
{
    let raw = raw_at(raws, at);
    let seen = ended(raws, end);
    let inner = open.insert(at);
    let (found, after) = cell_value(m, raws, open, at, s);
    cell_kept(m, raws, open, at, s);
    if !s.contains_key(at) && !open.contains(at) {
        if is_formula(raw) && formula(m, raw.skip(1)) is Ok {
            let e = formula(m, raw.skip(1))->Ok_0;
            let read = reader(m, raws, inner);
            let keeps = |t: Memo|
                apart(inner, t) && (extends(t, end) ==> all_explained(m, raws, end, t));
            let scope = |c: Coord| true;
            opening(raws, open, at);
            assert forall|c: Coord, t: Memo|
                #![trigger read(c, t)]
                scope(c) && keeps(t) implies keeps(read(c, t).1) && extends(t, read(c, t).1) by {
                cell_kept(m, raws, inner, c, t);
                if extends(read(c, t).1, end) {
                    cell_explained(m, raws, inner, c, t, end);
                }
            }
            assert forall|c: Coord, t: Memo|
                #![trigger read(c, t)]
                scope(c) && keeps(t) && extends(read(c, t).1, end) implies read(c, t).0 == during(
                inner,
                seen,
            )(c) by {
                cell_kept(m, raws, inner, c, t);
                let u = read(c, t).1;
                assert(keeps(u));
                if !inner.contains(c) {
                    assert(u.contains_key(c) && u[c] == read(c, t).0);
                    assert(end[c] == u[c]);
                    if !raws.contains_key(c) {
                        assert(explained(m, raw_at(raws, c), c, u[c], seen));
                    }
                } else {
                    assert(!t.contains_key(c));
                }
            }
            let (v, t) = eval(m, read, e, s);
            eval_keeps(m, read, keeps, scope, e, s);
            assert(keeps(t));
            assert(extends(t, end)) by {
                assert forall|c: Coord| #[trigger] t.contains_key(c) implies end.contains_key(c)
                    && end[c] == t[c] by {
                    assert(after.contains_key(c));
                }
            }
            eval_agrees(m, read, keeps, scope, during(inner, seen), end, e, s, Map::empty());
            assert(all_explained(m, raws, end, t));
        }
        assert(inner.contains(at) && found == denoted(m, raw, during(inner, seen)));
        assert(explained(m, raw, at, found, seen));
    }
}

proof fn found_explained(
    m: NumModel,
    raws: Map<Coord, Seq<char>>,
    keys: Seq<Coord>,
    end: Memo,
)
    requires
        raws.dom().finite(),
        extends(found_after(m, raws, keys), end),
    ensures
        all_explained(m, raws, end, found_after(m, raws, keys)),
    decreases keys.len(),
{
    if keys.len() > 0 {
        let s = found_after(m, raws, keys.drop_last());
        cell_kept(m, raws, Set::empty(), keys.last(), s);
        found_explained(m, raws, keys.drop_last(), end);
        cell_explained(m, raws, Set::empty(), keys.last(), s, end);
    }
}

/// Whatever cycles there are, each recalculated cell shows what its text denotes
/// when every cell it mentions is read as the recalculated sheet shows it, but for
/// some cells, its own among them, which read as CYCLE.
pub proof fn values_follow_but_for_cycles(m: NumModel, sheet: SheetV)
    requires
        sheet.well_formed(),
    ensures
        forall|at: Coord| #[trigger]
            sheet.cells.contains_key(at) ==> explained(
                m,
                sheet.cells[at].raw,
                at,
                recalculated(m, sheet).cells[at].value,
                shown(recalculated(m, sheet)),
            ),
{
    let raws = sheet.raws();
    let end = found(m, raws);
    all_found(m, sheet);
    found_explained(m, raws, in_order(raws.dom()), end);
    assert forall|at: Coord| #[trigger] sheet.cells.contains_key(at) implies explained(
        m,
        sheet.cells[at].raw,
        at,
        recalculated(m, sheet).cells[at].value,
        shown(recalculated(m, sheet)),
    ) by {
        assert(end.contains_key(at));
        assert(raw_at(raws, at) == sheet.cells[at].raw);
    }
}

/// Whether the formula of a cell hands on an error in the cells of the set.
pub open spec fn rests_on(
    m: NumModel,
    raws: Map<Coord, Seq<char>>,
    at: Coord,
    ring: Set<Coord>,
) -> bool {
    is_formula(raw_at(raws, at)) && match formula(m, raw_at(raws, at).skip(1)) {
        Ok(e) => hands_on(e, ring),
        Err(_) => false,
    }
}

/// Whether the formula of every cell in the set hands on an error in the cells of the
/// set.
pub open spec fn rest_on_each_other(
    m: NumModel,
    raws: Map<Coord, Seq<char>>,
    ring: Set<Coord>,
) -> bool {
    forall|at: Coord| ring.contains(at) ==> #[trigger] rests_on(m, raws, at, ring)
}

/// Every value found of a cell in the set is CYCLE.
spec fn cyclic(ring: Set<Coord>, s: Memo) -> bool {
    forall|c: Coord| #[trigger]
        s.contains_key(c) && ring.contains(c) ==> s[c] == ValueV::Error("CYCLE"@)
}

proof fn cell_cyclic(
    m: NumModel,
    raws: Map<Coord, Seq<char>>,
    ring: Set<Coord>,
    open: Set<Coord>,
    at: Coord,
    s: Memo,
)
    requires
        raws.dom().finite(),
        rest_on_each_other(m, raws, ring),
        apart(open, s),
        cyclic(ring, s),
    ensures
        cyclic(ring, cell_value(m, raws, open, at, s).1),
        ring.contains(at) ==> cell_value(m, raws, open, at, s).0 == ValueV::Error("CYCLE"@),
    decreases unopened(raws, open),
{
    let raw = raw_at(raws, at);
    assert(ring.contains(at) ==> rests_on(m, raws, at, ring));
    if !s.contains_key(at) && !open.contains(at) && is_formula(raw) {
        if let Ok(e) = formula(m, raw.skip(1)) {
            let inner = open.insert(at);
            let read = reader(m, raws, inner);
            let keeps = |t: Memo| apart(inner, t) && cyclic(ring, t);
            let scope = |c: Coord| true;
            opening(raws, open, at);
            assert forall|c: Coord, t: Memo|
                #![trigger read(c, t)]
                scope(c) && keeps(t) implies keeps(read(c, t).1) && extends(t, read(c, t).1) by {
                cell_kept(m, raws, inner, c, t);
                cell_cyclic(m, raws, ring, inner, c, t);
            }
            eval_keeps(m, read, keeps, scope, e, s);
            assert(keeps(eval(m, read, e, s).1));
            if ring.contains(at) {
                assert forall|c: Coord| #[trigger] ring.contains(c) implies read(c, s).0
                    == ValueV::Error("CYCLE"@) by {
                    cell_cyclic(m, raws, ring, inner, c, s);
                }
                error_handed_on(m, read, ring, e, s, "CYCLE"@);
            }
        }
    }
}

proof fn found_cyclic(
    m: NumModel,
    raws: Map<Coord, Seq<char>>,
    ring: Set<Coord>,
    keys: Seq<Coord>,
)
    requires
        raws.dom().finite(),
        rest_on_each_other(m, raws, ring),
    ensures
        cyclic(ring, found_after(m, raws, keys)),
    decreases keys.len(),
{
    if keys.len() > 0 {
        let s = found_after(m, raws, keys.drop_last());
        found_cyclic(m, raws, ring, keys.drop_last());
        cell_cyclic(m, raws, ring, Set::empty(), keys.last(), s);
    }
}

/// Cells whose formulas rest on each other, each handing on an error in the others,
/// all come out as #CYCLE.
pub proof fn cycles_surface(m: NumModel, sheet: SheetV, ring: Set<Coord>)
    requires
        sheet.well_formed(),
        rest_on_each_other(m, sheet.raws(), ring),
    ensures
        forall|at: Coord| #[trigger]
            ring.contains(at) ==> recalculated(m, sheet).cell(at.0, at.1).value == ValueV::Error(
                "CYCLE"@,
            ),
{
    let raws = sheet.raws();
    all_found(m, sheet);
    found_cyclic(m, raws, ring, in_order(raws.dom()));
    assert forall|at: Coord| #[trigger] ring.contains(at) implies recalculated(m, sheet).cell(
        at.0,
        at.1,
    ).value == ValueV::Error("CYCLE"@) by {
        assert(rests_on(m, raws, at, ring));
        assert(sheet.cells.contains_key(at));
        assert(found(m, raws).contains_key(at));
    }
}

} // verus!
