//! What the value of a formula rests on: it keeps every value found before, and
//! is the value that the formula has when the cells it mentions are read from a
//! fixed table. And which formulas hand on an error in a cell that they mention.

use vstd::prelude::*;

use crate::ast::ExprV;
use crate::eval::{
    cell_index, eval, eval_call, flatten, high, in_range, lookup_offset, low, range_cells,
    read_cells, scalars, search, Memo, Reader,
};
use crate::model::{Coord, ValueV};
use crate::num::{Bits, NumModel};
use crate::value::{
    arity, connected, function_named, joined, numbers, same_value, takes_list, truth_of, Func,
};

verus! {

/// Whether a formula mentions a cell, by itself or in a range.
pub open spec fn mentions(e: ExprV, at: Coord) -> bool
    decreases e,
{
    match e {
        ExprV::Ref(r, c) => at == (r, c),
        ExprV::Range(a, b) => in_range(at, a, b),
        ExprV::Unary(_, inner) => mentions(*inner, at),
        ExprV::Binary(_, l, r) => mentions(*l, at) || mentions(*r, at),
        ExprV::Call(_, args) => mentioned(args, at),
        _ => false,
    }
}

/// Whether one of the formulas mentions a cell.
pub open spec fn mentioned(args: Seq<ExprV>, at: Coord) -> bool
    decreases args,
{
    args.len() > 0 && (mentions(args.last(), at) || mentioned(args.drop_last(), at))
}

/// Whether `t` holds every value of `s`.
pub open spec fn extends(s: Memo, t: Memo) -> bool {
    forall|c: Coord| #[trigger] s.contains_key(c) ==> t.contains_key(c) && t[c] == s[c]
}

/// Reading a cell in `scope` keeps the property `keeps` of the values found, and
/// the values themselves.
pub open spec fn steady(
    read: Reader,
    keeps: spec_fn(Memo) -> bool,
    scope: spec_fn(Coord) -> bool,
) -> bool {
    forall|c: Coord, s: Memo|
        #![trigger read(c, s)]
        scope(c) && keeps(s) ==> keeps(read(c, s).1) && extends(s, read(c, s).1)
}

/// Reading a cell in `scope` gives its value in the table `seen`, as long as what
/// is found agrees with `end`.
pub open spec fn true_to(
    read: Reader,
    keeps: spec_fn(Memo) -> bool,
    scope: spec_fn(Coord) -> bool,
    seen: spec_fn(Coord) -> ValueV,
    end: Memo,
) -> bool {
    forall|c: Coord, s: Memo|
        #![trigger read(c, s)]
        scope(c) && keeps(s) && extends(read(c, s).1, end) ==> read(c, s).0 == seen(c)
}

/// Reading cells from a table.
pub open spec fn table(seen: spec_fn(Coord) -> ValueV) -> Reader {
    |c: Coord, s: Memo| (seen(c), s)
}

/// The value of a formula whose cells are read from a table.
pub open spec fn value_under(m: NumModel, seen: spec_fn(Coord) -> ValueV, e: ExprV) -> ValueV {
    eval(m, table(seen), e, Map::empty()).0
}

/// What one of the formulas mentions, the formulas mention.
proof fn mentioned_by_one(args: Seq<ExprV>, i: int, at: Coord)
    requires
        0 <= i < args.len(),
        mentions(args[i], at),
    ensures
        mentioned(args, at),
    decreases args.len(),
{
    if i < args.len() - 1 {
        mentioned_by_one(args.drop_last(), i, at);
    }
}

/// Every cell of a rectangle lies in it.
proof fn range_cells_in_range(a: Coord, b: Coord)
    ensures
        forall|i: int|
            0 <= i < range_cells(a, b).len() ==> in_range(#[trigger] range_cells(a, b)[i], a, b),
{
    let height = high(a.0, b.0) - low(a.0, b.0) + 1;
    let width = high(a.1, b.1) - low(a.1, b.1) + 1;
    assert forall|i: int| 0 <= i < range_cells(a, b).len() implies in_range(
        #[trigger] range_cells(a, b)[i],
        a,
        b,
    ) by {
        assert(0 <= height * width) by (nonlinear_arith)
            requires
                height > 0,
                width > 0,
        ;
        assert(0 <= i / width < height && 0 <= i % width < width) by (nonlinear_arith)
            requires
                0 <= i < height * width,
                width > 0,
        ;
    }
}

// ---- what is kept ---------------------------------------------------------

proof fn cells_keep(
    read: Reader,
    keeps: spec_fn(Memo) -> bool,
    scope: spec_fn(Coord) -> bool,
    cells: Seq<Coord>,
    s: Memo,
)
    requires
        steady(read, keeps, scope),
        keeps(s),
        forall|i: int| 0 <= i < cells.len() ==> scope(#[trigger] cells[i]),
    ensures
        keeps(read_cells(read, cells, s).1),
        extends(s, read_cells(read, cells, s).1),
    decreases cells.len(),
{
    if cells.len() > 0 {
        let init = cells.drop_last();
        assert forall|i: int| 0 <= i < init.len() implies scope(#[trigger] init[i]) by {
            assert(init[i] == cells[i]);
        }
        cells_keep(read, keeps, scope, init, s);
        let s1 = read_cells(read, init, s).1;
        assert(scope(cells[cells.len() - 1]));
        assert(keeps(read(cells.last(), s1).1));
    }
}

proof fn search_keeps(
    m: NumModel,
    read: Reader,
    keeps: spec_fn(Memo) -> bool,
    scope: spec_fn(Coord) -> bool,
    key: ValueV,
    r: int,
    last: int,
    c: u32,
    target: u32,
    s: Memo,
)
    requires
        steady(read, keeps, scope),
        keeps(s),
        0 <= r,
        last <= u32::MAX,
        forall|i: u32| r <= i <= last ==> #[trigger] scope((i, c)) && scope((i, target)),
    ensures
        keeps(search(m, read, key, r, last, c, target, s).1),
        extends(s, search(m, read, key, r, last, c, target, s).1),
    decreases last - r + 1,
{
    if r <= last {
        let (v, s1) = read((r as u32, c), s);
        assert(scope((r as u32, c)));
        if same_value(m, v, key) {
            assert(keeps(read((r as u32, target), s1).1));
        } else {
            search_keeps(m, read, keeps, scope, key, r + 1, last, c, target, s1);
        }
    }
}

/// The value of a formula keeps the values found before.
pub proof fn eval_keeps(
    m: NumModel,
    read: Reader,
    keeps: spec_fn(Memo) -> bool,
    scope: spec_fn(Coord) -> bool,
    e: ExprV,
    s: Memo,
)
    requires
        steady(read, keeps, scope),
        keeps(s),
        forall|c: Coord| #[trigger] mentions(e, c) ==> scope(c),
    ensures
        keeps(eval(m, read, e, s).1),
        extends(s, eval(m, read, e, s).1),
    decreases e, 0nat,
{
    match e {
        ExprV::Ref(r, c) => {
            assert(mentions(e, (r, c)));
        },
        ExprV::Unary(op, inner) => {
            assert forall|c: Coord| #[trigger] mentions(*inner, c) implies scope(c) by {
                assert(mentions(e, c));
            }
            eval_keeps(m, read, keeps, scope, *inner, s);
        },
        ExprV::Binary(op, l, r) => {
            assert forall|c: Coord| #[trigger] mentions(*l, c) implies scope(c) by {
                assert(mentions(e, c));
            }
            assert forall|c: Coord| #[trigger] mentions(*r, c) implies scope(c) by {
                assert(mentions(e, c));
            }
            eval_keeps(m, read, keeps, scope, *l, s);
            eval_keeps(m, read, keeps, scope, *r, eval(m, read, *l, s).1);
        },
        ExprV::Call(name, args) => {
            assert forall|c: Coord| #[trigger] mentioned(args, c) implies scope(c) by {
                assert(mentions(e, c));
            }
            call_keeps(m, read, keeps, scope, function_named(name), args, s);
        },
        _ => {},
    }
}

/// What an argument mentions is in scope where what the arguments mention is.
proof fn argument_in_scope(args: Seq<ExprV>, scope: spec_fn(Coord) -> bool, i: int)
    requires
        0 <= i < args.len(),
        forall|c: Coord| #[trigger] mentioned(args, c) ==> scope(c),
    ensures
        forall|c: Coord| #[trigger] mentions(args[i], c) ==> scope(c),
{
    assert forall|c: Coord| #[trigger] mentions(args[i], c) implies scope(c) by {
        mentioned_by_one(args, i, c);
    }
}

/// The cells that a lookup reads are in scope where its range is.
proof fn lookup_in_scope(a: Coord, b: Coord, scope: spec_fn(Coord) -> bool, target: u32)
    requires
        low(a.1, b.1) <= target <= high(a.1, b.1),
        forall|c: Coord| #[trigger] mentions(ExprV::Range(a, b), c) ==> scope(c),
    ensures
        forall|i: u32|
            low(a.0, b.0) <= i <= high(a.0, b.0) ==> #[trigger] scope((i, low(a.1, b.1))) && scope(
                (i, target),
            ),
{
    assert forall|i: u32| low(a.0, b.0) <= i <= high(a.0, b.0) implies #[trigger] scope(
        (i, low(a.1, b.1)),
    ) && scope((i, target)) by {
        assert(mentions(ExprV::Range(a, b), (i, low(a.1, b.1))));
        assert(mentions(ExprV::Range(a, b), (i, target)));
    }
}

proof fn call_keeps(
    m: NumModel,
    read: Reader,
    keeps: spec_fn(Memo) -> bool,
    scope: spec_fn(Coord) -> bool,
    f: Func,
    args: Seq<ExprV>,
    s: Memo,
)
    requires
        steady(read, keeps, scope),
        keeps(s),
        forall|c: Coord| #[trigger] mentioned(args, c) ==> scope(c),
    ensures
        keeps(eval_call(m, read, f, args, s).1),
        extends(s, eval_call(m, read, f, args, s).1),
    decreases args, 5nat,
{
    if f == Func::Unknown {
    } else if f == Func::If {
        if args.len() >= 2 {
            argument_in_scope(args, scope, 0);
            eval_keeps(m, read, keeps, scope, args[0], s);
            let (cond, s1) = eval(m, read, args[0], s);
            argument_in_scope(args, scope, 1);
            eval_keeps(m, read, keeps, scope, args[1], s1);
            if args.len() >= 3 {
                argument_in_scope(args, scope, 2);
                eval_keeps(m, read, keeps, scope, args[2], s1);
            }
        }
    } else if f == Func::Vlookup {
        if args.len() >= 3 {
            argument_in_scope(args, scope, 0);
            eval_keeps(m, read, keeps, scope, args[0], s);
            let (key, s1) = eval(m, read, args[0], s);
            argument_in_scope(args, scope, 2);
            eval_keeps(m, read, keeps, scope, args[2], s1);
            let (col, s2) = eval(m, read, args[2], s1);
            if let ExprV::Range(a, b) = args[1] {
                let left = low(a.1, b.1);
                let target = left + lookup_offset(m, col);
                if target <= high(a.1, b.1) {
                    argument_in_scope(args, scope, 1);
                    lookup_in_scope(a, b, scope, target as u32);
                    search_keeps(
                        m,
                        read,
                        keeps,
                        scope,
                        key,
                        low(a.0, b.0) as int,
                        high(a.0, b.0) as int,
                        left,
                        target as u32,
                        s2,
                    );
                }
            }
        }
    } else if f == Func::Not && args.len() != 1 {
    } else if takes_list(f) {
        flatten_keeps(m, read, keeps, scope, args, s);
    } else {
        scalars_keep(m, read, keeps, scope, args, arity(f), s);
    }
}

proof fn flatten_keeps(
    m: NumModel,
    read: Reader,
    keeps: spec_fn(Memo) -> bool,
    scope: spec_fn(Coord) -> bool,
    args: Seq<ExprV>,
    s: Memo,
)
    requires
        steady(read, keeps, scope),
        keeps(s),
        forall|c: Coord| #[trigger] mentioned(args, c) ==> scope(c),
    ensures
        keeps(flatten(m, read, args, s).1),
        extends(s, flatten(m, read, args, s).1),
    decreases args, 4nat,
{
    if args.len() > 0 {
        let init = args.drop_last();
        assert forall|c: Coord| #[trigger] mentioned(init, c) implies scope(c) by {
            assert(mentioned(args, c));
        }
        flatten_keeps(m, read, keeps, scope, init, s);
        let s1 = flatten(m, read, init, s).1;
        argument_in_scope(args, scope, args.len() - 1);
        match args.last() {
            ExprV::Range(a, b) => {
                range_cells_in_range(a, b);
                let cells = range_cells(a, b);
                assert forall|i: int| 0 <= i < cells.len() implies scope(#[trigger] cells[i]) by {
                    assert(mentions(args.last(), cells[i]));
                }
                cells_keep(read, keeps, scope, cells, s1);
            },
            e => {
                eval_keeps(m, read, keeps, scope, e, s1);
            },
        }
    }
}

proof fn scalars_keep(
    m: NumModel,
    read: Reader,
    keeps: spec_fn(Memo) -> bool,
    scope: spec_fn(Coord) -> bool,
    args: Seq<ExprV>,
    k: nat,
    s: Memo,
)
    requires
        steady(read, keeps, scope),
        keeps(s),
        forall|c: Coord| #[trigger] mentioned(args, c) ==> scope(c),
    ensures
        keeps(scalars(m, read, args, k, s).1),
        extends(s, scalars(m, read, args, k, s).1),
    decreases args, k,
{
    if k > 0 {
        scalars_keep(m, read, keeps, scope, args, (k - 1) as nat, s);
        if k <= args.len() {
            let s1 = scalars(m, read, args, (k - 1) as nat, s).1;
            argument_in_scope(args, scope, k - 1);
            eval_keeps(m, read, keeps, scope, args[k - 1], s1);
        }
    }
}

// ---- what is agreed on ----------------------------------------------------

proof fn cells_agree(
    read: Reader,
    keeps: spec_fn(Memo) -> bool,
    scope: spec_fn(Coord) -> bool,
    seen: spec_fn(Coord) -> ValueV,
    end: Memo,
    cells: Seq<Coord>,
    s: Memo,
    t: Memo,
)
    requires
        steady(read, keeps, scope),
        true_to(read, keeps, scope, seen, end),
        keeps(s),
        forall|i: int| 0 <= i < cells.len() ==> scope(#[trigger] cells[i]),
        extends(read_cells(read, cells, s).1, end),
    ensures
        read_cells(table(seen), cells, t) == (read_cells(read, cells, s).0, t),
    decreases cells.len(),
{
    if cells.len() > 0 {
        let init = cells.drop_last();
        assert forall|i: int| 0 <= i < init.len() implies scope(#[trigger] init[i]) by {
            assert(init[i] == cells[i]);
        }
        cells_keep(read, keeps, scope, init, s);
        let s1 = read_cells(read, init, s).1;
        assert(scope(cells[cells.len() - 1]));
        assert(extends(s1, read(cells.last(), s1).1));
        cells_agree(read, keeps, scope, seen, end, init, s, t);
        assert(read(cells.last(), s1).0 == seen(cells.last()));
    }
}

proof fn search_agrees(
    m: NumModel,
    read: Reader,
    keeps: spec_fn(Memo) -> bool,
    scope: spec_fn(Coord) -> bool,
    seen: spec_fn(Coord) -> ValueV,
    end: Memo,
    key: ValueV,
    r: int,
    last: int,
    c: u32,
    target: u32,
    s: Memo,
    t: Memo,
)
    requires
        steady(read, keeps, scope),
        true_to(read, keeps, scope, seen, end),
        keeps(s),
        0 <= r,
        last <= u32::MAX,
        forall|i: u32| r <= i <= last ==> #[trigger] scope((i, c)) && scope((i, target)),
        extends(search(m, read, key, r, last, c, target, s).1, end),
    ensures
        search(m, table(seen), key, r, last, c, target, t) == (
            search(m, read, key, r, last, c, target, s).0,
            t,
        ),
    decreases last - r + 1,
{
    if r <= last {
        let (v, s1) = read((r as u32, c), s);
        assert(scope((r as u32, c)));
        if same_value(m, v, key) {
            assert(extends(s1, read((r as u32, target), s1).1));
            assert(read((r as u32, target), s1).0 == seen((r as u32, target)));
        } else {
            search_keeps(m, read, keeps, scope, key, r + 1, last, c, target, s1);
            search_agrees(
                m,
                read,
                keeps,
                scope,
                seen,
                end,
                key,
                r + 1,
                last,
                c,
                target,
                s1,
                t,
            );
        }
        assert(extends(s1, end));
        assert(v == seen((r as u32, c)));
    }
}

/// The value of a formula is the one that it has when its cells are read from a
/// table that they agree with.
pub proof fn eval_agrees(
    m: NumModel,
    read: Reader,
    keeps: spec_fn(Memo) -> bool,
    scope: spec_fn(Coord) -> bool,
    seen: spec_fn(Coord) -> ValueV,
    end: Memo,
    e: ExprV,
    s: Memo,
    t: Memo,
)
    requires
        steady(read, keeps, scope),
        true_to(read, keeps, scope, seen, end),
        keeps(s),
        forall|c: Coord| #[trigger] mentions(e, c) ==> scope(c),
        extends(eval(m, read, e, s).1, end),
    ensures
        eval(m, table(seen), e, t) == (eval(m, read, e, s).0, t),
    decreases e, 0nat,
{
    match e {
        ExprV::Ref(r, c) => {
            assert(mentions(e, (r, c)));
            assert(read((r, c), s).0 == seen((r, c)));
        },
        ExprV::Unary(op, inner) => {
            assert forall|c: Coord| #[trigger] mentions(*inner, c) implies scope(c) by {
                assert(mentions(e, c));
            }
            eval_agrees(m, read, keeps, scope, seen, end, *inner, s, t);
        },
        ExprV::Binary(op, l, r) => {
            assert forall|c: Coord| #[trigger] mentions(*l, c) implies scope(c) by {
                assert(mentions(e, c));
            }
            assert forall|c: Coord| #[trigger] mentions(*r, c) implies scope(c) by {
                assert(mentions(e, c));
            }
            let s1 = eval(m, read, *l, s).1;
            eval_keeps(m, read, keeps, scope, *l, s);
            eval_keeps(m, read, keeps, scope, *r, s1);
            eval_agrees(m, read, keeps, scope, seen, end, *r, s1, t);
            eval_agrees(m, read, keeps, scope, seen, end, *l, s, t);
        },
        ExprV::Call(name, args) => {
            assert forall|c: Coord| #[trigger] mentioned(args, c) implies scope(c) by {
                assert(mentions(e, c));
            }
            call_agrees(m, read, keeps, scope, seen, end, function_named(name), args, s, t);
        },
        _ => {},
    }
}

proof fn call_agrees(
    m: NumModel,
    read: Reader,
    keeps: spec_fn(Memo) -> bool,
    scope: spec_fn(Coord) -> bool,
    seen: spec_fn(Coord) -> ValueV,
    end: Memo,
    f: Func,
    args: Seq<ExprV>,
    s: Memo,
    t: Memo,
)
    requires
        steady(read, keeps, scope),
        true_to(read, keeps, scope, seen, end),
        keeps(s),
        forall|c: Coord| #[trigger] mentioned(args, c) ==> scope(c),
        extends(eval_call(m, read, f, args, s).1, end),
    ensures
        eval_call(m, table(seen), f, args, t) == (eval_call(m, read, f, args, s).0, t),
    decreases args, 5nat,
{
    if f == Func::Unknown {
    } else if f == Func::If {
        if args.len() >= 2 {
            argument_in_scope(args, scope, 0);
            argument_in_scope(args, scope, 1);
            eval_keeps(m, read, keeps, scope, args[0], s);
            let (cond, s1) = eval(m, read, args[0], s);
            match truth_of(m, cond) {
                Ok(true) => {
                    eval_keeps(m, read, keeps, scope, args[1], s1);
                    eval_agrees(m, read, keeps, scope, seen, end, args[1], s1, t);
                },
                Ok(false) => if args.len() >= 3 {
                    argument_in_scope(args, scope, 2);
                    eval_keeps(m, read, keeps, scope, args[2], s1);
                    eval_agrees(m, read, keeps, scope, seen, end, args[2], s1, t);
                },
                Err(_) => {},
            }
            assert(extends(s1, end));
            eval_agrees(m, read, keeps, scope, seen, end, args[0], s, t);
        }
    } else if f == Func::Vlookup {
        if args.len() >= 3 {
            argument_in_scope(args, scope, 0);
            argument_in_scope(args, scope, 2);
            eval_keeps(m, read, keeps, scope, args[0], s);
            let (key, s1) = eval(m, read, args[0], s);
            eval_keeps(m, read, keeps, scope, args[2], s1);
            let (col, s2) = eval(m, read, args[2], s1);
            if let ExprV::Range(a, b) = args[1] {
                let left = low(a.1, b.1);
                let target = left + lookup_offset(m, col);
                if target <= high(a.1, b.1) {
                    let (r0, r1) = (low(a.0, b.0) as int, high(a.0, b.0) as int);
                    argument_in_scope(args, scope, 1);
                    lookup_in_scope(a, b, scope, target as u32);
                    search_keeps(
                        m,
                        read,
                        keeps,
                        scope,
                        key,
                        r0,
                        r1,
                        left,
                        target as u32,
                        s2,
                    );
                    search_agrees(
                        m,
                        read,
                        keeps,
                        scope,
                        seen,
                        end,
                        key,
                        r0,
                        r1,
                        left,
                        target as u32,
                        s2,
                        t,
                    );
                }
            }
            assert(extends(s2, end));
            eval_agrees(m, read, keeps, scope, seen, end, args[2], s1, t);
            eval_agrees(m, read, keeps, scope, seen, end, args[0], s, t);
        }
    } else if f == Func::Not && args.len() != 1 {
    } else if takes_list(f) {
        flatten_agrees(m, read, keeps, scope, seen, end, args, s, t);
    } else {
        scalars_agree(m, read, keeps, scope, seen, end, args, arity(f), s, t);
    }
}

proof fn flatten_agrees(
    m: NumModel,
    read: Reader,
    keeps: spec_fn(Memo) -> bool,
    scope: spec_fn(Coord) -> bool,
    seen: spec_fn(Coord) -> ValueV,
    end: Memo,
    args: Seq<ExprV>,
    s: Memo,
    t: Memo,
)
    requires
        steady(read, keeps, scope),
        true_to(read, keeps, scope, seen, end),
        keeps(s),
        forall|c: Coord| #[trigger] mentioned(args, c) ==> scope(c),
        extends(flatten(m, read, args, s).1, end),
    ensures
        flatten(m, table(seen), args, t) == (flatten(m, read, args, s).0, t),
    decreases args, 4nat,
{
    if args.len() > 0 {
        let init = args.drop_last();
        assert forall|c: Coord| #[trigger] mentioned(init, c) implies scope(c) by {
            assert(mentioned(args, c));
        }
        flatten_keeps(m, read, keeps, scope, init, s);
        let s1 = flatten(m, read, init, s).1;
        argument_in_scope(args, scope, args.len() - 1);
        match args.last() {
            ExprV::Range(a, b) => {
                range_cells_in_range(a, b);
                let cells = range_cells(a, b);
                assert forall|i: int| 0 <= i < cells.len() implies scope(#[trigger] cells[i]) by {
                    assert(mentions(args.last(), cells[i]));
                }
                cells_keep(read, keeps, scope, cells, s1);
                cells_agree(read, keeps, scope, seen, end, cells, s1, t);
            },
            e => {
                eval_keeps(m, read, keeps, scope, e, s1);
                eval_agrees(m, read, keeps, scope, seen, end, e, s1, t);
            },
        }
        assert(extends(s1, end));
        flatten_agrees(m, read, keeps, scope, seen, end, init, s, t);
    }
}

proof fn scalars_agree(
    m: NumModel,
    read: Reader,
    keeps: spec_fn(Memo) -> bool,
    scope: spec_fn(Coord) -> bool,
    seen: spec_fn(Coord) -> ValueV,
    end: Memo,
    args: Seq<ExprV>,
    k: nat,
    s: Memo,
    t: Memo,
)
    requires
        steady(read, keeps, scope),
        true_to(read, keeps, scope, seen, end),
        keeps(s),
        forall|c: Coord| #[trigger] mentioned(args, c) ==> scope(c),
        extends(scalars(m, read, args, k, s).1, end),
    ensures
        scalars(m, table(seen), args, k, t) == (scalars(m, read, args, k, s).0, t),
    decreases args, k,
{
    if k > 0 {
        let before = (k - 1) as nat;
        scalars_keep(m, read, keeps, scope, args, before, s);
        let s1 = scalars(m, read, args, before, s).1;
        if k <= args.len() {
            argument_in_scope(args, scope, k - 1);
            eval_keeps(m, read, keeps, scope, args[k - 1], s1);
            eval_agrees(m, read, keeps, scope, seen, end, args[k - 1], s1, t);
        }
        assert(extends(s1, end));
        scalars_agree(m, read, keeps, scope, seen, end, args, before, s, t);
    }
}

// ---- laws -----------------------------------------------------------------

/// The value of a formula rests on the cells that it mentions, and on no others.
pub proof fn only_mentioned_cells_count(
    m: NumModel,
    e: ExprV,
    a: spec_fn(Coord) -> ValueV,
    b: spec_fn(Coord) -> ValueV,
)
    requires
        forall|c: Coord| #[trigger] mentions(e, c) ==> a(c) == b(c),
    ensures
        value_under(m, a, e) == value_under(m, b, e),
{
    let read = table(a);
    let keeps = |s: Memo| s == Map::<Coord, ValueV>::empty();
    let scope = |c: Coord| mentions(e, c);
    assert forall|c: Coord, s: Memo|
        #![trigger read(c, s)]
        scope(c) && keeps(s) implies keeps(read(c, s).1) && extends(s, read(c, s).1) by {}
    assert forall|c: Coord, s: Memo|
        #![trigger read(c, s)]
        scope(c) && keeps(s) && extends(read(c, s).1, Map::empty()) implies read(c, s).0 == b(
        c,
    ) by {
        assert(mentions(e, c));
    }
    assert(keeps(Map::empty()));
    eval_keeps(m, read, keeps, scope, e, Map::empty());
    eval_agrees(m, read, keeps, scope, b, Map::empty(), e, Map::empty(), Map::empty());
}

/// A lookup gives the cell in the row of the first match, and N/A where there is
/// none.
pub proof fn lookup_takes_first_match(
    m: NumModel,
    seen: spec_fn(Coord) -> ValueV,
    key: ValueV,
    first: u32,
    last: u32,
    c: u32,
    target: u32,
    s: Memo,
)
    requires
        first <= last,
    ensures
        forall|r: u32|
            first <= r <= last && same_value(m, #[trigger] seen((r, c)), key) && (forall|i: u32|
                first <= i < r ==> !same_value(m, #[trigger] seen((i, c)), key)) ==> search(
                m,
                table(seen),
                key,
                first as int,
                last as int,
                c,
                target,
                s,
            ) == (seen((r, target)), s),
        (forall|i: u32| first <= i <= last ==> !same_value(m, #[trigger] seen((i, c)), key))
            ==> search(m, table(seen), key, first as int, last as int, c, target, s) == (
            ValueV::Error("N/A"@),
            s,
        ),
{
    assert forall|r: u32|
        first <= r <= last && same_value(m, #[trigger] seen((r, c)), key) && (forall|i: u32|
            first <= i < r ==> !same_value(m, #[trigger] seen((i, c)), key)) implies search(
        m,
        table(seen),
        key,
        first as int,
        last as int,
        c,
        target,
        s,
    ) == (seen((r, target)), s) by {
        passed_over(m, seen, key, first as int, r as int, last as int, c, target, s);
    }
    if forall|i: u32| first <= i <= last ==> !same_value(m, #[trigger] seen((i, c)), key) {
        passed_over(m, seen, key, first as int, last + 1, last as int, c, target, s);
    }
}

/// Rows that do not match are passed over.
proof fn passed_over(
    m: NumModel,
    seen: spec_fn(Coord) -> ValueV,
    key: ValueV,
    first: int,
    r: int,
    last: int,
    c: u32,
    target: u32,
    s: Memo,
)
    requires
        0 <= first <= r <= last + 1 <= u32::MAX + 1,
        forall|i: u32| first <= i < r ==> !same_value(m, #[trigger] seen((i, c)), key),
    ensures
        search(m, table(seen), key, first, last, c, target, s) == search(
            m,
            table(seen),
            key,
            r,
            last,
            c,
            target,
            s,
        ),
    decreases r - first,
{
    if first < r {
        assert(!same_value(m, seen((first as u32, c)), key));
        passed_over(m, seen, key, first + 1, r, last, c, target, s);
    }
}

// ---- errors ---------------------------------------------------------------

/// Whether a function of so many arguments hands on an error in its first one.
pub open spec fn passes_error(f: Func, n: nat) -> bool {
    match f {
        Func::If => n >= 2,
        Func::Not => n == 1,
        Func::CountA
        | Func::Left
        | Func::Right
        | Func::Mid
        | Func::Vlookup
        | Func::Unknown => false,
        _ => n >= 1,
    }
}

/// Whether a formula hands on an error in a cell of the set: it is a reference to
/// such a cell; a sign or a percent sign at a formula that hands it on; an operator
/// whose left operand does so, or whose right one does so and whose left one is a
/// number; or a function whose first argument does so, or is a range that begins with
/// such a cell.
pub open spec fn hands_on(e: ExprV, ring: Set<Coord>) -> bool
    decreases e,
{
    match e {
        ExprV::Ref(r, c) => ring.contains((r, c)),
        ExprV::Unary(_, inner) => hands_on(*inner, ring),
        ExprV::Binary(_, l, r) => hands_on(*l, ring) || (*l is Num && hands_on(*r, ring)),
        ExprV::Call(name, args) => passes_error(function_named(name), args.len()) && first_hands_on(
            function_named(name),
            args,
            ring,
        ),
        _ => false,
    }
}

/// Whether the first argument of a function hands on an error in a cell of the set.
pub open spec fn first_hands_on(f: Func, args: Seq<ExprV>, ring: Set<Coord>) -> bool
    decreases args,
{
    args.len() > 0 && (hands_on(args[0], ring) || (takes_list(f) && match args[0] {
        ExprV::Range(a, b) => ring.contains((low(a.0, b.0), low(a.1, b.1))),
        _ => false,
    }))
}

/// The first of the values of the arguments is that of the first argument.
proof fn first_flattened(m: NumModel, read: Reader, args: Seq<ExprV>, s: Memo)
    requires
        args.len() > 0,
    ensures
        ({
            let vals = flatten(m, read, args, s).0;
            &&& vals.len() > 0
            &&& vals[0] == match args[0] {
                ExprV::Range(a, b) => read((low(a.0, b.0), low(a.1, b.1)), s).0,
                e => eval(m, read, e, s).0,
            }
        }),
    decreases args.len(),
{
    let before = args.drop_last();
    if before.len() > 0 {
        first_flattened(m, read, before, s);
    } else {
        assert(flatten(m, read, before, s) == (Seq::<ValueV>::empty(), s));
        if let ExprV::Range(a, b) = args[0] {
            let cells = range_cells(a, b);
            cell_index(a, b, low(a.0, b.0) as int, low(a.1, b.1) as int);
            assert(0 * (high(a.1, b.1) - low(a.1, b.1) + 1) == 0);
            first_read(read, cells, s);
        }
    }
}

/// The first of the values read is that of the first cell.
proof fn first_read(read: Reader, cells: Seq<Coord>, s: Memo)
    requires
        cells.len() > 0,
    ensures
        read_cells(read, cells, s).0.len() > 0,
        read_cells(read, cells, s).0[0] == read(cells[0], s).0,
    decreases cells.len(),
{
    let before = cells.drop_last();
    if before.len() > 0 {
        first_read(read, before, s);
    } else {
        assert(read_cells(read, before, s) == (Seq::<ValueV>::empty(), s));
    }
}

/// The first of the single values is that of the first argument.
proof fn first_scalar(m: NumModel, read: Reader, args: Seq<ExprV>, k: nat, s: Memo)
    requires
        args.len() > 0,
        k > 0,
    ensures
        scalars(m, read, args, k, s).0.len() > 0,
        scalars(m, read, args, k, s).0[0] == eval(m, read, args[0], s).0,
    decreases k,
{
    if k > 1 {
        first_scalar(m, read, args, (k - 1) as nat, s);
    } else {
        assert(scalars(m, read, args, 0, s) == (Seq::<ValueV>::empty(), s));
    }
}

/// A list of values whose first is an error has that error for its result.
proof fn first_error(m: NumModel, all: bool, vals: Seq<ValueV>)
    requires
        vals.len() > 0,
        vals[0] is Error,
    ensures
        connected(m, all, vals) == Err::<bool, ValueV>(vals[0]),
        numbers(m, vals) == Err::<Seq<Bits>, ValueV>(vals[0]),
        joined(m, vals) == Err::<Seq<char>, ValueV>(vals[0]),
    decreases vals.len(),
{
    let before = vals.drop_last();
    if before.len() > 0 {
        first_error(m, all, before);
    } else {
        assert(connected(m, all, before) is Ok && numbers(m, before) is Ok && joined(
            m,
            before,
        ) is Ok);
    }
}

/// A formula that hands on an error in the cells of a set has that error for its
/// value where they all read as it.
pub proof fn error_handed_on(
    m: NumModel,
    read: Reader,
    ring: Set<Coord>,
    e: ExprV,
    s: Memo,
    code: Seq<char>,
)
    requires
        hands_on(e, ring),
        forall|c: Coord| #[trigger] ring.contains(c) ==> read(c, s).0 == ValueV::Error(code),
    ensures
        eval(m, read, e, s).0 == ValueV::Error(code),
    decreases e,
{
    match e {
        ExprV::Unary(_, inner) => {
            error_handed_on(m, read, ring, *inner, s, code);
        },
        ExprV::Binary(_, l, r) => {
            if hands_on(*l, ring) {
                error_handed_on(m, read, ring, *l, s, code);
            } else {
                error_handed_on(m, read, ring, *r, s, code);
                assert(eval(m, read, *l, s) == (eval(m, read, *l, s).0, s));
            }
        },
        ExprV::Call(name, args) => {
            first_error_handed_on(m, read, ring, function_named(name), args, s, code);
        },
        _ => {},
    }
}

proof fn first_error_handed_on(
    m: NumModel,
    read: Reader,
    ring: Set<Coord>,
    f: Func,
    args: Seq<ExprV>,
    s: Memo,
    code: Seq<char>,
)
    requires
        passes_error(f, args.len()),
        first_hands_on(f, args, ring),
        forall|c: Coord| #[trigger] ring.contains(c) ==> read(c, s).0 == ValueV::Error(code),
    ensures
        eval_call(m, read, f, args, s).0 == ValueV::Error(code),
    decreases args,
{
    if hands_on(args[0], ring) {
        error_handed_on(m, read, ring, args[0], s, code);
    }
    if takes_list(f) {
        let vals = flatten(m, read, args, s).0;
        first_flattened(m, read, args, s);
        first_error(m, f == Func::And, vals);
    } else if f != Func::If {
        first_scalar(m, read, args, arity(f), s);
    }
}

} // verus!
