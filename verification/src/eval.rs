//! The evaluation of formulas. Cell references are followed recursively; the
//! cells under evaluation are remembered, so that a cycle comes out as `#CYCLE`
//! instead of looping, and so are the values already found.

use std::collections::{BTreeMap, BTreeSet};

use vstd::prelude::*;

use crate::ast::{exprs_view, exprs_view_each, Expr, ExprV};
use crate::model::{Coord, Sheet, Value, ValueV};
use crate::num::{Bits, NumModel, Numerics, Op, ONE, ZERO};
use crate::parse::{formula, parse};
use crate::text::{chars_of, slice_of, string_of};
use crate::value::{
    apply_binary, apply_list, apply_scalar, apply_unary, arity, binary_value, bool_value, boolval,
    classify, cut, error, find_function, function_named, list_value, literal_value, num, number_or,
    same_value, scalar_value, takes_list, truth_of, truthy, unary_value, values_eq, values_view,
    Func,
};

verus! {

// ---- meaning --------------------------------------------------------------

/// The values found so far.
pub type Memo = Map<Coord, ValueV>;

/// How a cell is read: from its place and the values found so far, its value and
/// the values found then.
pub type Reader = spec_fn(Coord, Memo) -> (ValueV, Memo);

/// The lesser of two rows or columns.
pub open spec fn low(a: u32, b: u32) -> u32 {
    if a < b {
        a
    } else {
        b
    }
}

/// The greater of two rows or columns.
pub open spec fn high(a: u32, b: u32) -> u32 {
    if a < b {
        b
    } else {
        a
    }
}

/// Whether a cell lies in the rectangle with the corners `a` and `b`.
pub open spec fn in_range(at: Coord, a: Coord, b: Coord) -> bool {
    &&& low(a.0, b.0) <= at.0 <= high(a.0, b.0)
    &&& low(a.1, b.1) <= at.1 <= high(a.1, b.1)
}

/// The cells of a rectangle, row by row.
pub open spec fn range_cells(a: Coord, b: Coord) -> Seq<Coord> {
    let height = high(a.0, b.0) - low(a.0, b.0) + 1;
    let width = high(a.1, b.1) - low(a.1, b.1) + 1;
    Seq::new(
        (height * width) as nat,
        |i: int| ((low(a.0, b.0) + i / width) as u32, (low(a.1, b.1) + i % width) as u32),
    )
}

/// The values of the cells, read one after the other.
pub open spec fn read_cells(read: Reader, cells: Seq<Coord>, s: Memo) -> (Seq<ValueV>, Memo)
    decreases cells.len(),
{
    if cells.len() == 0 {
        (Seq::empty(), s)
    } else {
        let (vals, s1) = read_cells(read, cells.drop_last(), s);
        let (v, s2) = read(cells.last(), s1);
        (vals.push(v), s2)
    }
}

/// The value at column `target` in the first row from `r` to `last` whose cell at
/// column `c` is the key.
pub open spec fn search(
    m: NumModel,
    read: Reader,
    key: ValueV,
    r: int,
    last: int,
    c: u32,
    target: u32,
    s: Memo,
) -> (ValueV, Memo)
    decreases last - r + 1,
{
    if r > last {
        (ValueV::Error("N/A"@), s)
    } else {
        let (v, s1) = read((r as u32, c), s);
        if same_value(m, v, key) {
            read((r as u32, target), s1)
        } else {
            search(m, read, key, r + 1, last, c, target, s1)
        }
    }
}

/// The column that a lookup gives back, counted from the left of its range.
pub open spec fn lookup_offset(m: NumModel, col: ValueV) -> int {
    let n = cut(m, number_or(m, col, ONE));
    if n == 0 {
        0
    } else if n > u32::MAX {
        u32::MAX - 1
    } else {
        n - 1
    }
}

/// The value of a lookup of a key in the rectangle with the corners `a` and `b`.
pub open spec fn lookup(
    m: NumModel,
    read: Reader,
    key: ValueV,
    a: Coord,
    b: Coord,
    col: ValueV,
    s: Memo,
) -> (ValueV, Memo) {
    let left = low(a.1, b.1);
    let target = left + lookup_offset(m, col);
    if target > high(a.1, b.1) {
        (ValueV::Error("REF"@), s)
    } else {
        search(
            m,
            read,
            key,
            low(a.0, b.0) as int,
            high(a.0, b.0) as int,
            left,
            target as u32,
            s,
        )
    }
}

/// The value of a formula.
pub open spec fn eval(m: NumModel, read: Reader, e: ExprV, s: Memo) -> (ValueV, Memo)
    decreases e, 0nat,
{
    match e {
        ExprV::Num(n) => (ValueV::Number(n), s),
        ExprV::Str(t) => (ValueV::Text(t), s),
        ExprV::Bool(b) => (bool_value(b), s),
        ExprV::ErrName => (ValueV::Error("NAME"@), s),
        ExprV::Ref(r, c) => read((r, c), s),
        ExprV::Range(_, _) => (ValueV::Error("VALUE"@), s),
        ExprV::Unary(op, inner) => {
            let (v, s1) = eval(m, read, *inner, s);
            (unary_value(m, op, v), s1)
        },
        ExprV::Binary(op, l, r) => {
            let (a, s1) = eval(m, read, *l, s);
            let (b, s2) = eval(m, read, *r, s1);
            (binary_value(m, op, a, b), s2)
        },
        ExprV::Call(name, args) => eval_call(m, read, function_named(name), args, s),
    }
}

/// The value of a function at its arguments. IF evaluates only the branch it
/// takes.
pub open spec fn eval_call(
    m: NumModel,
    read: Reader,
    f: Func,
    args: Seq<ExprV>,
    s: Memo,
) -> (ValueV, Memo)
    decreases args, 5nat,
{
    if f == Func::Unknown {
        (ValueV::Error("NAME"@), s)
    } else if f == Func::If {
        if args.len() < 2 {
            (ValueV::Error("N/A"@), s)
        } else {
            let (cond, s1) = eval(m, read, args[0], s);
            match truth_of(m, cond) {
                Err(e) => (e, s1),
                Ok(true) => eval(m, read, args[1], s1),
                Ok(false) => if args.len() < 3 {
                    (bool_value(false), s1)
                } else {
                    eval(m, read, args[2], s1)
                },
            }
        }
    } else if f == Func::Vlookup {
        if args.len() < 3 {
            (ValueV::Error("N/A"@), s)
        } else {
            let (key, s1) = eval(m, read, args[0], s);
            let (col, s2) = eval(m, read, args[2], s1);
            match args[1] {
                ExprV::Range(a, b) => lookup(m, read, key, a, b, col, s2),
                _ => (ValueV::Error("VALUE"@), s2),
            }
        }
    } else if f == Func::Not && args.len() != 1 {
        (ValueV::Error("N/A"@), s)
    } else if takes_list(f) {
        let (vals, s1) = flatten(m, read, args, s);
        (list_value(m, f, vals), s1)
    } else {
        let (vals, s1) = scalars(m, read, args, arity(f), s);
        (scalar_value(m, f, vals), s1)
    }
}

/// The values of the arguments, those of a range being all its cells.
pub open spec fn flatten(m: NumModel, read: Reader, args: Seq<ExprV>, s: Memo) -> (
    Seq<ValueV>,
    Memo,
)
    decreases args, 4nat,
{
    if args.len() == 0 {
        (Seq::empty(), s)
    } else {
        let (vals, s1) = flatten(m, read, args.drop_last(), s);
        match args.last() {
            ExprV::Range(a, b) => {
                let (more, s2) = read_cells(read, range_cells(a, b), s1);
                (vals + more, s2)
            },
            e => {
                let (v, s2) = eval(m, read, e, s1);
                (vals.push(v), s2)
            },
        }
    }
}

/// The values of the first `k` arguments, blank where an argument is missing.
pub open spec fn scalars(m: NumModel, read: Reader, args: Seq<ExprV>, k: nat, s: Memo) -> (
    Seq<ValueV>,
    Memo,
)
    decreases args, k,
{
    if k == 0 {
        (Seq::empty(), s)
    } else {
        let (vals, s1) = scalars(m, read, args, (k - 1) as nat, s);
        if k <= args.len() {
            let (v, s2) = eval(m, read, args[k - 1], s1);
            (vals.push(v), s2)
        } else {
            (vals.push(ValueV::Empty), s1)
        }
    }
}

/// The text of a cell.
pub open spec fn raw_at(raws: Map<Coord, Seq<char>>, at: Coord) -> Seq<char> {
    if raws.contains_key(at) {
        raws[at]
    } else {
        Seq::empty()
    }
}

/// Whether a cell's text is a formula.
pub open spec fn is_formula(raw: Seq<char>) -> bool {
    raw.len() > 0 && raw[0] == '='
}

/// The cells that are not under evaluation yet.
pub open spec fn unopened(raws: Map<Coord, Seq<char>>, open: Set<Coord>) -> nat {
    raws.dom().difference(open).len()
}

/// The value of a cell while the cells `open` are under evaluation: the value
/// found before, CYCLE where the cell is itself under evaluation, or what its
/// text denotes.
pub open spec fn cell_value(
    m: NumModel,
    raws: Map<Coord, Seq<char>>,
    open: Set<Coord>,
    at: Coord,
    s: Memo,
) -> (ValueV, Memo)
    decreases unopened(raws, open), 0nat,
    when raws.dom().finite()
{
    if s.contains_key(at) {
        (s[at], s)
    } else if open.contains(at) {
        (ValueV::Error("CYCLE"@), s)
    } else {
        let raw = raw_at(raws, at);
        let (v, s1) = if is_formula(raw) {
            proof {
                opening(raws, open, at);
            }
            match formula(m, raw.skip(1)) {
                Ok(e) => eval(m, reader(m, raws, open.insert(at)), e, s),
                Err(code) => (ValueV::Error(code), s),
            }
        } else {
            (literal_value(m, raw), s)
        };
        (v, s1.insert(at, v))
    }
}

/// How cells are read while the cells `open` are under evaluation.
pub open spec fn reader(m: NumModel, raws: Map<Coord, Seq<char>>, open: Set<Coord>) -> Reader
    decreases unopened(raws, open), 1nat,
    when raws.dom().finite()
{
    |at: Coord, s: Memo| cell_value(m, raws, open, at, s)
}

/// With every formula that is opened fewer remain.
pub proof fn opening(raws: Map<Coord, Seq<char>>, open: Set<Coord>, at: Coord)
    requires
        raws.dom().finite(),
        !open.contains(at),
        is_formula(raw_at(raws, at)),
    ensures
        unopened(raws, open.insert(at)) < unopened(raws, open),
{
    let before = raws.dom().difference(open);
    assert(raws.dom().difference(open.insert(at)) =~= before.remove(at));
    assert(before.contains(at));
    vstd::set_lib::lemma_len_difference(raws.dom(), open);
}

/// Where the cell (`r`, `c`) stands among the cells of a rectangle.
pub proof fn cell_index(a: Coord, b: Coord, r: int, c: int)
    requires
        low(a.0, b.0) <= r <= high(a.0, b.0),
        low(a.1, b.1) <= c <= high(a.1, b.1),
    ensures
        ({
            let width = high(a.1, b.1) - low(a.1, b.1) + 1;
            let k = (r - low(a.0, b.0)) * width + (c - low(a.1, b.1));
            &&& 0 <= k < range_cells(a, b).len()
            &&& range_cells(a, b)[k] == (r as u32, c as u32)
        }),
{
    let height = high(a.0, b.0) - low(a.0, b.0) + 1;
    let width = high(a.1, b.1) - low(a.1, b.1) + 1;
    let i = r - low(a.0, b.0);
    let j = c - low(a.1, b.1);
    let k = i * width + j;
    assert(0 <= k < height * width) by (nonlinear_arith)
        requires
            0 <= i < height,
            0 <= j < width,
            k == i * width + j,
    ;
    vstd::arithmetic::div_mod::lemma_fundamental_div_mod_converse(k, width, i, j);
}

// ---- laws -----------------------------------------------------------------

/// References to cells, one after the other.
pub open spec fn references(cells: Seq<Coord>) -> Seq<ExprV> {
    Seq::new(cells.len(), |i: int| ExprV::Ref(cells[i].0, cells[i].1))
}

proof fn references_read(m: NumModel, read: Reader, cells: Seq<Coord>, s: Memo)
    ensures
        flatten(m, read, references(cells), s) == read_cells(read, cells, s),
    decreases cells.len(),
{
    if cells.len() > 0 {
        references_read(m, read, cells.drop_last(), s);
        assert(references(cells).drop_last() =~= references(cells.drop_last()));
        let at = cells.last();
        let s1 = read_cells(read, cells.drop_last(), s).1;
        assert(references(cells).last() == ExprV::Ref(at.0, at.1));
        assert(eval(m, read, ExprV::Ref(at.0, at.1), s1) == read(at, s1));
    } else {
        assert(references(cells) =~= Seq::<ExprV>::empty());
    }
}

/// To a function of a list of values, a range is the same as references to its
/// cells, row by row.
pub proof fn range_is_its_cells(m: NumModel, read: Reader, f: Func, a: Coord, b: Coord, s: Memo)
    requires
        takes_list(f),
    ensures
        eval_call(m, read, f, seq![ExprV::Range(a, b)], s) == eval_call(
            m,
            read,
            f,
            references(range_cells(a, b)),
            s,
        ),
{
    let args = seq![ExprV::Range(a, b)];
    references_read(m, read, range_cells(a, b), s);
    assert(args.drop_last() =~= Seq::<ExprV>::empty());
    assert(flatten(m, read, args.drop_last(), s) == (Seq::<ValueV>::empty(), s));
    let (vals, after) = read_cells(read, range_cells(a, b), s);
    assert(Seq::<ValueV>::empty() + vals =~= vals);
}

/// A range is given by any two of its opposite corners.
pub proof fn any_corners(a: Coord, b: Coord)
    ensures
        range_cells(a, b) == range_cells(b, a),
        range_cells(a, b) == range_cells((a.0, b.1), (b.0, a.1)),
{
    assert(range_cells(a, b) =~= range_cells(b, a));
    assert(range_cells(a, b) =~= range_cells((a.0, b.1), (b.0, a.1)));
}

/// IF does not look at the branch that it does not take.
pub proof fn other_branch_untouched(
    m: NumModel,
    read: Reader,
    cond: ExprV,
    x: ExprV,
    y: ExprV,
    other: ExprV,
    s: Memo,
)
    ensures
        ({
            let (v, t) = eval(m, read, cond, s);
            match truth_of(m, v) {
                Ok(true) => eval_call(m, read, Func::If, seq![cond, x, y], s) == eval_call(
                    m,
                    read,
                    Func::If,
                    seq![cond, x, other],
                    s,
                ),
                Ok(false) => eval_call(m, read, Func::If, seq![cond, x, y], s) == eval_call(
                    m,
                    read,
                    Func::If,
                    seq![cond, other, y],
                    s,
                ),
                Err(e) => eval_call(m, read, Func::If, seq![cond, x, y], s) == (e, t),
            }
        }),
{
}

/// A range is the rectangle between its corners: all its cells, each once, row by row
/// and from the left.
pub proof fn range_is_a_rectangle(a: Coord, b: Coord, at: Coord)
    ensures
        range_cells(a, b).contains(at) <==> (a.0 <= at.0 <= b.0 || b.0 <= at.0 <= a.0) && (a.1
            <= at.1 <= b.1 || b.1 <= at.1 <= a.1),
        in_range(at, a, b) == range_cells(a, b).contains(at),
        forall|i: int, j: int|
            0 <= i < j < range_cells(a, b).len() ==> {
                let (x, y) = (#[trigger] range_cells(a, b)[i], #[trigger] range_cells(a, b)[j]);
                x.0 < y.0 || (x.0 == y.0 && x.1 < y.1)
            },
{
    let cells = range_cells(a, b);
    let height = high(a.0, b.0) - low(a.0, b.0) + 1;
    let width = high(a.1, b.1) - low(a.1, b.1) + 1;
    assert forall|i: int| 0 <= i < cells.len() implies {
        &&& 0 <= i / width < height
        &&& 0 <= i % width < width
        &&& i == width * (i / width) + i % width
        &&& #[trigger] cells[i] == (
            (low(a.0, b.0) + i / width) as u32,
            (low(a.1, b.1) + i % width) as u32,
        )
    } by {
        assert(height * width >= 0) by (nonlinear_arith)
            requires
                height > 0,
                width > 0,
        ;
        assert(0 <= i / width < height && 0 <= i % width < width) by (nonlinear_arith)
            requires
                0 <= i < height * width,
                width > 0,
        ;
        vstd::arithmetic::div_mod::lemma_fundamental_div_mod(i, width);
    }
    if cells.contains(at) {
        let i = choose|i: int| 0 <= i < cells.len() && cells[i] == at;
        assert(cells[i] == at);
    }
    if in_range(at, a, b) {
        cell_index(a, b, at.0 as int, at.1 as int);
    }
    assert forall|i: int, j: int| 0 <= i < j < cells.len() implies {
        let (x, y) = (#[trigger] cells[i], #[trigger] cells[j]);
        x.0 < y.0 || (x.0 == y.0 && x.1 < y.1)
    } by {
        let (p, q) = (i / width, j / width);
        let (x, y) = (cells[i], cells[j]);
        assert(x == ((low(a.0, b.0) + p) as u32, (low(a.1, b.1) + i % width) as u32));
        assert(y == ((low(a.0, b.0) + q) as u32, (low(a.1, b.1) + j % width) as u32));
        assert(p <= q) by (nonlinear_arith)
            requires
                i == width * p + i % width,
                j == width * q + j % width,
                i < j,
                0 <= i % width < width,
                0 <= j % width < width,
                width > 0,
        ;
        if p == q {
            assert(i % width < j % width);
        }
    }
}

// ---- code -----------------------------------------------------------------

/// An evaluation under way: the sheet, the values found and the cells under
/// evaluation.
pub struct Recalc<'a, P, S, C> {
    sheet: &'a Sheet,
    numerics: &'a Numerics<P, S, C>,
    cache: BTreeMap<(u32, u32), Value>,
    visiting: BTreeSet<(u32, u32)>,
}

impl<
    'a,
    P: Fn(&str) -> Option<Bits>,
    S: Fn(Bits) -> String,
    C: Fn(Op, Bits, Bits) -> Bits,
> Recalc<'a, P, S, C> {
    /// The sheet whose cells are read.
    pub closed spec fn of(&self) -> Sheet {
        *self.sheet
    }

    /// The number functions.
    pub closed spec fn model(&self) -> NumModel {
        self.numerics.model()
    }

    /// The values found so far.
    pub closed spec fn memo(&self) -> Memo {
        self.cache@.map_values(|v: Value| v@)
    }

    /// The cells under evaluation.
    pub closed spec fn open(&self) -> Set<Coord> {
        self.visiting@
    }

    /// How the evaluation reads cells.
    pub open spec fn read(&self) -> Reader {
        reader(self.model(), self.of()@.raws(), self.open())
    }

    pub closed spec fn inv(&self) -> bool {
        &&& self.numerics.valid()
        &&& self.of()@.raws().dom().finite()
    }

    /// Only the values found have changed since `before`.
    pub open spec fn follows(&self, before: Self) -> bool {
        &&& self.of() == before.of()
        &&& self.model() == before.model()
        &&& self.open() == before.open()
    }

    /// How many cells are not under evaluation.
    pub open spec fn remaining(&self) -> nat {
        unopened(self.of()@.raws(), self.open())
    }

    /// The start of an evaluation.
    pub fn new(sheet: &'a Sheet, numerics: &'a Numerics<P, S, C>) -> (rc: Self)
        requires
            numerics.valid(),
        ensures
            rc.inv(),
            rc.of() == *sheet,
            rc.model() == numerics.model(),
            rc.memo() == Map::<Coord, ValueV>::empty(),
            rc.open() == Set::<Coord>::empty(),
    {
        let rc = Recalc { sheet, numerics, cache: BTreeMap::new(), visiting: BTreeSet::new() };
        assert(sheet@.raws().dom() =~= sheet.cells@.dom());
        assert(rc.memo() =~= Map::<Coord, ValueV>::empty());
        rc
    }

    /// The value of a cell.
    pub fn eval_cell(&mut self, coord: (u32, u32)) -> (v: Value)
        requires
            old(self).inv(),
        ensures
            final(self).inv(),
            final(self).follows(*old(self)),
            (v@, final(self).memo()) == cell_value(
                old(self).model(),
                old(self).of()@.raws(),
                old(self).open(),
                coord,
                old(self).memo(),
            ),
        decreases old(self).remaining(), 0nat, Seq::<Expr>::empty(), 0nat,
    {
        if let Some(v) = self.cache.get(&coord) {
            return v.clone();
        }
        if self.visiting.contains(&coord) {
            return error("CYCLE");
        }
        let sheet = self.sheet;
        let raw = sheet.raw(coord.0, coord.1);
        let ghost raws = self.of()@.raws();
        assert(raw@ == raw_at(raws, coord));
        let chars = chars_of(raw);
        let v = if chars.len() > 0 && chars[0] == '=' {
            let ghost outer = self.visiting@;
            proof {
                opening(raws, outer, coord);
            }
            self.visiting.insert(coord);
            let rest = slice_of(chars.as_slice(), 1, chars.len());
            assert(rest@ =~= raw@.skip(1));
            let val = match parse(self.numerics, string_of(rest.as_slice()).as_str()) {
                Ok(ast) => self.eval(&ast),
                Err(code) => Value::Error(code),
            };
            self.visiting.remove(&coord);
            assert(self.visiting@ =~= outer);
            val
        } else {
            classify(self.numerics, raw)
        };
        let ghost found = self.memo();
        self.cache.insert(coord, v.clone());
        assert(self.memo() =~= found.insert(coord, v@));
        v
    }

    /// The value of a formula.
    pub fn eval(&mut self, e: &Expr) -> (v: Value)
        requires
            old(self).inv(),
        ensures
            final(self).inv(),
            final(self).follows(*old(self)),
            (v@, final(self).memo()) == eval(
                old(self).model(),
                old(self).read(),
                e@,
                old(self).memo(),
            ),
        decreases old(self).remaining(), 2nat, e, 0nat,
    {
        match e {
            Expr::Num(n) => Value::Number(*n),
            Expr::Str(s) => Value::Text(s.clone()),
            Expr::Bool(b) => boolval(*b),
            Expr::ErrName => error("NAME"),
            Expr::Ref(r, c) => self.eval_cell((*r, *c)),
            Expr::Range(_, _) => error("VALUE"),
            Expr::Unary(op, inner) => {
                let v = self.eval(inner);
                apply_unary(self.numerics, *op, v)
            },
            Expr::Binary(op, l, r) => {
                let a = self.eval(l);
                let b = self.eval(r);
                apply_binary(self.numerics, *op, a, b)
            },
            Expr::Call(name, args) => self.eval_call(name.as_str(), args),
        }
    }

    /// The value of a function at its arguments.
    fn eval_call(&mut self, name: &str, args: &Vec<Expr>) -> (v: Value)
        requires
            old(self).inv(),
        ensures
            final(self).inv(),
            final(self).follows(*old(self)),
            (v@, final(self).memo()) == eval_call(
                old(self).model(),
                old(self).read(),
                function_named(name@),
                exprs_view(args@),
                old(self).memo(),
            ),
        decreases old(self).remaining(), 2nat, args@, 5nat,
    {
        broadcast use exprs_view_each;

        let f = find_function(name);
        match f {
            Func::Unknown => error("NAME"),
            Func::If => {
                if args.len() < 2 {
                    return error("N/A");
                }
                let cond = self.eval(&args[0]);
                match truthy(self.numerics, &cond) {
                    Ok(true) => self.eval(&args[1]),
                    Ok(false) => if args.len() < 3 {
                        boolval(false)
                    } else {
                        self.eval(&args[2])
                    },
                    Err(e) => e,
                }
            },
            Func::Vlookup => self.vlookup(args),
            _ => {
                if f == Func::Not && args.len() != 1 {
                    return error("N/A");
                }
                if is_list_function(f) {
                    let vals = self.flatten(args);
                    apply_list(self.numerics, f, vals.as_slice())
                } else {
                    let vals = self.scalars(args, operand_count(f));
                    apply_scalar(self.numerics, f, vals.as_slice())
                }
            },
        }
    }

    /// The values of the cells of a rectangle, row by row.
    fn read_range(&mut self, a: (u32, u32), b: (u32, u32)) -> (out: Vec<Value>)
        requires
            old(self).inv(),
        ensures
            final(self).inv(),
            final(self).follows(*old(self)),
            (values_view(out@), final(self).memo()) == read_cells(
                old(self).read(),
                range_cells(a, b),
                old(self).memo(),
            ),
        decreases old(self).remaining(), 1nat, Seq::<Expr>::empty(), 0nat,
    {
        let (r0, r1) = if a.0 < b.0 {
            (a.0, b.0)
        } else {
            (b.0, a.0)
        };
        let (c0, c1) = if a.1 < b.1 {
            (a.1, b.1)
        } else {
            (b.1, a.1)
        };
        let ghost cells = range_cells(a, b);
        let ghost width: int = c1 - c0 + 1;
        let ghost read = self.read();
        let ghost start = self.memo();
        let mut out: Vec<Value> = Vec::new();
        let mut r: u64 = r0 as u64;
        assert(values_view(out@) =~= Seq::<ValueV>::empty());
        assert((r - r0) * width == 0) by (nonlinear_arith)
            requires
                r == r0,
        ;
        while r <= r1 as u64
            invariant
                self.inv(),
                self.follows(*old(self)),
                read == old(self).read(),
                cells == range_cells(a, b),
                r0 == low(a.0, b.0),
                r1 == high(a.0, b.0),
                c0 == low(a.1, b.1),
                c1 == high(a.1, b.1),
                r0 <= r <= r1 + 1,
                width == c1 - c0 + 1,
                cells.len() == (r1 - r0 + 1) * width,
                0 <= (r - r0) * width <= cells.len(),
                (values_view(out@), self.memo()) == read_cells(
                    read,
                    cells.take((r - r0) * width),
                    start,
                ),
            decreases r1 + 1 - r,
        {
            let mut c: u64 = c0 as u64;
            while c <= c1 as u64
                invariant
                    self.inv(),
                    self.follows(*old(self)),
                    read == old(self).read(),
                    cells == range_cells(a, b),
                    r0 == low(a.0, b.0),
                    r1 == high(a.0, b.0),
                    c0 == low(a.1, b.1),
                    c1 == high(a.1, b.1),
                    r0 <= r <= r1,
                    c0 <= c <= c1 + 1,
                    width == c1 - c0 + 1,
                    0 <= (r - r0) * width + (c - c0) <= cells.len(),
                    (values_view(out@), self.memo()) == read_cells(
                        read,
                        cells.take((r - r0) * width + (c - c0)),
                        start,
                    ),
                decreases c1 + 1 - c,
            {
                let ghost k = (r - r0) * width + (c - c0);
                proof {
                    cell_index(a, b, r as int, c as int);
                    assert(cells.take(k + 1).drop_last() =~= cells.take(k));
                }
                let ghost seen = out@;
                let v = self.eval_cell((r as u32, c as u32));
                out.push(v);
                assert(values_view(out@) =~= values_view(seen).push(v@));
                c = c + 1;
            }
            assert((r - r0) * width + width == (r + 1 - r0) * width) by (nonlinear_arith);
            r = r + 1;
        }
        assert(cells.take(cells.len() as int) =~= cells);
        out
    }

    /// The values of the arguments, expanding ranges. Used by aggregates.
    fn flatten(&mut self, args: &Vec<Expr>) -> (out: Vec<Value>)
        requires
            old(self).inv(),
        ensures
            final(self).inv(),
            final(self).follows(*old(self)),
            (values_view(out@), final(self).memo()) == flatten(
                old(self).model(),
                old(self).read(),
                exprs_view(args@),
                old(self).memo(),
            ),
        decreases old(self).remaining(), 2nat, args@, 4nat,
    {
        broadcast use exprs_view_each;

        let ghost views = exprs_view(args@);
        let ghost read = self.read();
        let ghost start = self.memo();
        let mut out: Vec<Value> = Vec::new();
        assert(values_view(out@) =~= Seq::<ValueV>::empty());
        let mut i: usize = 0;
        while i < args.len()
            invariant
                self.inv(),
                self.follows(*old(self)),
                read == old(self).read(),
                views == exprs_view(args@),
                views.len() == args@.len(),
                i <= args@.len(),
                (values_view(out@), self.memo()) == flatten(
                    self.model(),
                    read,
                    views.take(i as int),
                    start,
                ),
            decreases args@.len() - i,
        {
            broadcast use exprs_view_each;

            let ghost seen = out@;
            assert(views.take(i + 1).drop_last() =~= views.take(i as int));
            assert(views[i as int] == args@[i as int]@);
            if let Expr::Range(a, b) = &args[i] {
                let mut more = self.read_range(*a, *b);
                let ghost added = more@;
                out.append(&mut more);
                assert(values_view(out@) =~= values_view(seen) + values_view(added));
            } else {
                let v = self.eval(&args[i]);
                out.push(v);
                assert(values_view(out@) =~= values_view(seen).push(v@));
            }
            i = i + 1;
        }
        assert(views.take(i as int) =~= views);
        out
    }

    /// The value of an argument, blank where it is missing.
    fn scalar(&mut self, args: &Vec<Expr>, i: usize) -> (v: Value)
        requires
            old(self).inv(),
        ensures
            final(self).inv(),
            final(self).follows(*old(self)),
            (v@, final(self).memo()) == if i < args@.len() {
                eval(old(self).model(), old(self).read(), args@[i as int]@, old(self).memo())
            } else {
                (ValueV::Empty, old(self).memo())
            },
        decreases old(self).remaining(), 2nat, args@, 0nat,
    {
        if i < args.len() {
            self.eval(&args[i])
        } else {
            Value::Empty
        }
    }

    /// The values of the first `k` arguments.
    fn scalars(&mut self, args: &Vec<Expr>, k: usize) -> (out: Vec<Value>)
        requires
            old(self).inv(),
        ensures
            final(self).inv(),
            final(self).follows(*old(self)),
            out@.len() == k,
            (values_view(out@), final(self).memo()) == scalars(
                old(self).model(),
                old(self).read(),
                exprs_view(args@),
                k as nat,
                old(self).memo(),
            ),
        decreases old(self).remaining(), 2nat, args@, 1nat,
    {
        broadcast use exprs_view_each;

        let ghost views = exprs_view(args@);
        let ghost read = self.read();
        let ghost start = self.memo();
        let mut out: Vec<Value> = Vec::new();
        assert(values_view(out@) =~= Seq::<ValueV>::empty());
        let mut i: usize = 0;
        while i < k
            invariant
                self.inv(),
                self.follows(*old(self)),
                read == old(self).read(),
                views == exprs_view(args@),
                i <= k,
                out@.len() == i,
                (values_view(out@), self.memo()) == scalars(
                    self.model(),
                    read,
                    views,
                    i as nat,
                    start,
                ),
            decreases k - i,
        {
            broadcast use exprs_view_each;

            let ghost seen = out@;
            assert(i < args@.len() ==> views[i as int] == args@[i as int]@);
            let v = self.scalar(args, i);
            out.push(v);
            assert(values_view(out@) =~= values_view(seen).push(v@));
            i = i + 1;
        }
        out
    }

    /// VLOOKUP(key, range, col_index): exact match only.
    fn vlookup(&mut self, args: &Vec<Expr>) -> (v: Value)
        requires
            old(self).inv(),
        ensures
            final(self).inv(),
            final(self).follows(*old(self)),
            (v@, final(self).memo()) == eval_call(
                old(self).model(),
                old(self).read(),
                Func::Vlookup,
                exprs_view(args@),
                old(self).memo(),
            ),
        decreases old(self).remaining(), 2nat, args@, 3nat,
    {
        broadcast use exprs_view_each;

        if args.len() < 3 {
            return error("N/A");
        }
        let key = self.eval(&args[0]);
        let col = self.eval(&args[2]);
        let n: Bits = match num(self.numerics, &col) {
            Ok(n) => n,
            Err(_) => ONE,
        };
        let whole: u64 = self.numerics.compute(Op::Truncate, n, ZERO);
        let offset: u32 = if whole == 0 {
            0
        } else if whole > u32::MAX as u64 {
            u32::MAX - 1
        } else {
            (whole - 1) as u32
        };
        if let Expr::Range(a, b) = &args[1] {
            let (r0, r1) = if a.0 < b.0 {
                (a.0, b.0)
            } else {
                (b.0, a.0)
            };
            let (c0, c1) = if a.1 < b.1 {
                (a.1, b.1)
            } else {
                (b.1, a.1)
            };
            if offset > c1 - c0 {
                return error("REF");
            }
            self.find_row(&key, r0, r1, c0, c0 + offset)
        } else {
            error("VALUE")
        }
    }

    /// The value at column `target` in the first row whose cell at column `c` is
    /// the key.
    fn find_row(&mut self, key: &Value, r0: u32, r1: u32, c: u32, target: u32) -> (v: Value)
        requires
            old(self).inv(),
            r0 <= r1,
        ensures
            final(self).inv(),
            final(self).follows(*old(self)),
            (v@, final(self).memo()) == search(
                old(self).model(),
                old(self).read(),
                key@,
                r0 as int,
                r1 as int,
                c,
                target,
                old(self).memo(),
            ),
        decreases old(self).remaining(), 1nat, Seq::<Expr>::empty(), 0nat,
    {
        let ghost read = self.read();
        let ghost whole = search(
            self.model(),
            read,
            key@,
            r0 as int,
            r1 as int,
            c,
            target,
            self.memo(),
        );
        let mut r: u64 = r0 as u64;
        while r <= r1 as u64
            invariant
                self.inv(),
                self.follows(*old(self)),
                read == old(self).read(),
                r0 <= r <= r1 + 1,
                whole == search(
                    old(self).model(),
                    read,
                    key@,
                    r0 as int,
                    r1 as int,
                    c,
                    target,
                    old(self).memo(),
                ),
                whole == search(
                    self.model(),
                    read,
                    key@,
                    r as int,
                    r1 as int,
                    c,
                    target,
                    self.memo(),
                ),
            decreases r1 + 1 - r,
        {
            let v = self.eval_cell((r as u32, c));
            if values_eq(self.numerics, &v, key) {
                return self.eval_cell((r as u32, target));
            }
            r = r + 1;
        }
        error("N/A")
    }
}

fn is_list_function(f: Func) -> (r: bool)
    ensures
        r == takes_list(f),
{
    match f {
        Func::And
        | Func::Or
        | Func::Sum
        | Func::Average
        | Func::Min
        | Func::Max
        | Func::Count
        | Func::CountA
        | Func::Product
        | Func::Concat => true,
        _ => false,
    }
}

fn operand_count(f: Func) -> (k: usize)
    ensures
        k == arity(f),
{
    match f {
        Func::Not
        | Func::Abs
        | Func::Int
        | Func::Sqrt
        | Func::Len
        | Func::Upper
        | Func::Lower
        | Func::Trim => 1,
        Func::Round | Func::Mod | Func::Power | Func::Left | Func::Right => 2,
        _ => 3,
    }
}

} // verus!
