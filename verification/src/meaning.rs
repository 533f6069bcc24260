//! What the operators and functions of the formula language mean, as relations
//! between the values of formulas.

use vstd::prelude::*;

use crate::agree::{eval_agrees, eval_keeps, table, value_under};
use crate::ast::{BinOp, ExprV};
use crate::eval::{
    eval, eval_call, flatten, high, lookup, lookup_offset, low, range_cells, read_cells, scalars,
    search, Memo,
};
use crate::model::{display_text, Coord, ValueV};
use crate::num::{
    is_nan, number_order, Bits, NumModel, Op, Order, HUNDRED, INFINITY, MINUS_INFINITY, MINUS_ZERO,
    ONE, ZERO,
};
use crate::text::{ascii_lower, lowercase_text, same_ignoring_case, trim_space, uppercase_text};
use crate::value::{
    arity, connected_error, function_named, joined, list_value, literal_value, mid_text, number_of,
    number_or, numbers, present, same_value, scalar_value, takes_list, text_order_equal,
    text_order_less, text_order_reversed, Func,
};

verus! {

// ---- evaluation from a table ----------------------------------------------

/// The value of a function at its arguments, whose cells are read from a table.
pub open spec fn call(
    m: NumModel,
    seen: spec_fn(Coord) -> ValueV,
    name: Seq<char>,
    args: Seq<ExprV>,
) -> ValueV {
    value_under(m, seen, ExprV::Call(name, args))
}

/// The value of an operator between two formulas.
pub open spec fn between(
    m: NumModel,
    seen: spec_fn(Coord) -> ValueV,
    l: ExprV,
    op: BinOp,
    r: ExprV,
) -> ValueV {
    value_under(m, seen, ExprV::Binary(op, Box::new(l), Box::new(r)))
}

/// Reading from a table finds nothing new.
proof fn eval_steady(m: NumModel, seen: spec_fn(Coord) -> ValueV, e: ExprV, t: Memo)
    ensures
        eval(m, table(seen), e, t) == (value_under(m, seen, e), t),
{
    let none = Map::<Coord, ValueV>::empty();
    let keeps = |s: Memo| s == none;
    let scope = |c: Coord| true;
    eval_keeps(m, table(seen), keeps, scope, e, none);
    eval_agrees(m, table(seen), keeps, scope, seen, none, e, none, t);
}

/// The values of the arguments of a function of a list.
pub open spec fn values(
    m: NumModel,
    seen: spec_fn(Coord) -> ValueV,
    args: Seq<ExprV>,
) -> Seq<ValueV> {
    flatten(m, table(seen), args, Map::empty()).0
}

proof fn cells_steady(seen: spec_fn(Coord) -> ValueV, cells: Seq<Coord>, t: Memo)
    ensures
        read_cells(table(seen), cells, t) == (
            Seq::new(cells.len(), |i: int| seen(cells[i])),
            t,
        ),
    decreases cells.len(),
{
    let all = Seq::new(cells.len(), |i: int| seen(cells[i]));
    if cells.len() > 0 {
        let init = cells.drop_last();
        cells_steady(seen, init, t);
        assert(all =~= Seq::new(init.len(), |i: int| seen(init[i])).push(seen(cells.last())));
    } else {
        assert(all =~= Seq::<ValueV>::empty());
    }
}

proof fn flatten_steady(m: NumModel, seen: spec_fn(Coord) -> ValueV, args: Seq<ExprV>, t: Memo)
    ensures
        flatten(m, table(seen), args, t) == (values(m, seen, args), t),
    decreases args.len(),
{
    if args.len() > 0 {
        let none = Map::<Coord, ValueV>::empty();
        flatten_steady(m, seen, args.drop_last(), t);
        flatten_steady(m, seen, args.drop_last(), none);
        match args.last() {
            ExprV::Range(a, b) => {
                cells_steady(seen, range_cells(a, b), t);
                cells_steady(seen, range_cells(a, b), none);
            },
            e => {
                eval_steady(m, seen, e, t);
                eval_steady(m, seen, e, none);
            },
        }
    }
}

/// The values of arguments are those of each of them, one after the other, a range
/// giving those of its cells.
pub proof fn values_listed(m: NumModel, seen: spec_fn(Coord) -> ValueV, args: Seq<ExprV>, e: ExprV)
    ensures
        values(m, seen, Seq::empty()).len() == 0,
        !(e is Range) ==> values(m, seen, args.push(e)) == values(m, seen, args).push(
            value_under(m, seen, e),
        ),
        e matches ExprV::Range(a, b) ==> values(m, seen, args.push(e)) == values(m, seen, args)
            + Seq::new(range_cells(a, b).len(), |i: int| seen(range_cells(a, b)[i])),
{
    let none = Map::<Coord, ValueV>::empty();
    flatten_steady(m, seen, args, none);
    assert(args.push(e).drop_last() =~= args);
    eval_steady(m, seen, e, none);
    if let ExprV::Range(a, b) = e {
        cells_steady(seen, range_cells(a, b), none);
    }
}

proof fn scalars_steady(
    m: NumModel,
    seen: spec_fn(Coord) -> ValueV,
    args: Seq<ExprV>,
    k: nat,
    t: Memo,
)
    ensures
        scalars(m, table(seen), args, k, t).1 == t,
        scalars(m, table(seen), args, k, t).0.len() == k,
        forall|i: int|
            0 <= i < k ==> #[trigger] scalars(m, table(seen), args, k, t).0[i] == if i < args.len() {
                value_under(m, seen, args[i])
            } else {
                ValueV::Empty
            },
    decreases k,
{
    if k > 0 {
        scalars_steady(m, seen, args, (k - 1) as nat, t);
        if k <= args.len() {
            eval_steady(m, seen, args[k - 1], t);
        }
    }
}

/// The names of the functions.
proof fn names()
    ensures
        function_named("IF"@) == Func::If,
        function_named("AND"@) == Func::And,
        function_named("OR"@) == Func::Or,
        function_named("SUM"@) == Func::Sum,
        function_named("AVERAGE"@) == Func::Average,
        function_named("AVG"@) == Func::Average,
        function_named("MIN"@) == Func::Min,
        function_named("MAX"@) == Func::Max,
        function_named("COUNT"@) == Func::Count,
        function_named("COUNTA"@) == Func::CountA,
        function_named("PRODUCT"@) == Func::Product,
        function_named("NOT"@) == Func::Not,
        function_named("ROUND"@) == Func::Round,
        function_named("ABS"@) == Func::Abs,
        function_named("INT"@) == Func::Int,
        function_named("SQRT"@) == Func::Sqrt,
        function_named("MOD"@) == Func::Mod,
        function_named("POWER"@) == Func::Power,
        function_named("CONCAT"@) == Func::Concat,
        function_named("CONCATENATE"@) == Func::Concat,
        function_named("LEN"@) == Func::Len,
        function_named("UPPER"@) == Func::Upper,
        function_named("LOWER"@) == Func::Lower,
        function_named("TRIM"@) == Func::Trim,
        function_named("LEFT"@) == Func::Left,
        function_named("RIGHT"@) == Func::Right,
        function_named("MID"@) == Func::Mid,
        function_named("VLOOKUP"@) == Func::Vlookup,
{
    reveal_strlit("IF");
    assert("IF"@[0] == 'I' && "IF"@[1] == 'F');
    reveal_strlit("AND");
    assert("AND"@[0] == 'A' && "AND"@[1] == 'N' && "AND"@[2] == 'D');
    reveal_strlit("OR");
    assert("OR"@[0] == 'O' && "OR"@[1] == 'R');
    reveal_strlit("SUM");
    assert("SUM"@[0] == 'S' && "SUM"@[1] == 'U' && "SUM"@[2] == 'M');
    reveal_strlit("AVERAGE");
    assert("AVERAGE"@[0] == 'A' && "AVERAGE"@[1] == 'V' && "AVERAGE"@[2] == 'E');
    reveal_strlit("AVG");
    assert("AVG"@[0] == 'A' && "AVG"@[1] == 'V' && "AVG"@[2] == 'G');
    reveal_strlit("MIN");
    assert("MIN"@[0] == 'M' && "MIN"@[1] == 'I' && "MIN"@[2] == 'N');
    reveal_strlit("MAX");
    assert("MAX"@[0] == 'M' && "MAX"@[1] == 'A' && "MAX"@[2] == 'X');
    reveal_strlit("COUNT");
    assert("COUNT"@[0] == 'C' && "COUNT"@[1] == 'O' && "COUNT"@[2] == 'U');
    reveal_strlit("COUNTA");
    assert("COUNT"@.len() == 5 && "COUNTA"@.len() == 6);
    assert("COUNTA"@[0] == 'C' && "COUNTA"@[1] == 'O' && "COUNTA"@[2] == 'U');
    reveal_strlit("PRODUCT");
    assert("PRODUCT"@[0] == 'P' && "PRODUCT"@[1] == 'R' && "PRODUCT"@[2] == 'O');
    reveal_strlit("NOT");
    assert("NOT"@[0] == 'N' && "NOT"@[1] == 'O' && "NOT"@[2] == 'T');
    reveal_strlit("ROUND");
    assert("ROUND"@[0] == 'R' && "ROUND"@[1] == 'O' && "ROUND"@[2] == 'U');
    reveal_strlit("ABS");
    assert("ABS"@[0] == 'A' && "ABS"@[1] == 'B' && "ABS"@[2] == 'S');
    reveal_strlit("INT");
    assert("INT"@[0] == 'I' && "INT"@[1] == 'N' && "INT"@[2] == 'T');
    reveal_strlit("SQRT");
    assert("SQRT"@[0] == 'S' && "SQRT"@[1] == 'Q' && "SQRT"@[2] == 'R');
    reveal_strlit("MOD");
    assert("MOD"@[0] == 'M' && "MOD"@[1] == 'O' && "MOD"@[2] == 'D');
    reveal_strlit("POWER");
    assert("POWER"@[0] == 'P' && "POWER"@[1] == 'O' && "POWER"@[2] == 'W');
    reveal_strlit("CONCAT");
    assert("CONCAT"@[0] == 'C' && "CONCAT"@[1] == 'O' && "CONCAT"@[2] == 'N');
    reveal_strlit("CONCATENATE");
    assert("CONCATENATE"@[0] == 'C' && "CONCATENATE"@[1] == 'O' && "CONCATENATE"@[2] == 'N');
    reveal_strlit("LEN");
    assert("LEN"@[0] == 'L' && "LEN"@[1] == 'E' && "LEN"@[2] == 'N');
    reveal_strlit("UPPER");
    assert("UPPER"@[0] == 'U' && "UPPER"@[1] == 'P' && "UPPER"@[2] == 'P');
    reveal_strlit("LOWER");
    assert("LOWER"@[0] == 'L' && "LOWER"@[1] == 'O' && "LOWER"@[2] == 'W');
    reveal_strlit("TRIM");
    assert("TRIM"@[0] == 'T' && "TRIM"@[1] == 'R' && "TRIM"@[2] == 'I');
    reveal_strlit("LEFT");
    assert("LEFT"@[0] == 'L' && "LEFT"@[1] == 'E' && "LEFT"@[2] == 'F');
    reveal_strlit("RIGHT");
    assert("RIGHT"@[0] == 'R' && "RIGHT"@[1] == 'I' && "RIGHT"@[2] == 'G');
    reveal_strlit("MID");
    assert("MID"@[0] == 'M' && "MID"@[1] == 'I' && "MID"@[2] == 'D');
    reveal_strlit("VLOOKUP");
    assert("VLOOKUP"@[0] == 'V' && "VLOOKUP"@[1] == 'L' && "VLOOKUP"@[2] == 'O');
}

/// The value of a function of a list of values.
proof fn list_call(
    m: NumModel,
    seen: spec_fn(Coord) -> ValueV,
    name: Seq<char>,
    args: Seq<ExprV>,
)
    requires
        takes_list(function_named(name)),
    ensures
        call(m, seen, name, args) == list_value(
            m,
            function_named(name),
            values(m, seen, args),
        ),
{
    let none = Map::<Coord, ValueV>::empty();
    assert(eval(m, table(seen), ExprV::Call(name, args), none) == eval_call(
        m,
        table(seen),
        function_named(name),
        args,
        none,
    ));
}

/// The value of a function of single values.
proof fn scalar_call(
    m: NumModel,
    seen: spec_fn(Coord) -> ValueV,
    name: Seq<char>,
    args: Seq<ExprV>,
) -> (vals: Seq<ValueV>)
    requires
        ({
            let f = function_named(name);
            !takes_list(f) && f != Func::If && f != Func::Vlookup && f != Func::Unknown && (f
                == Func::Not ==> args.len() == 1)
        }),
    ensures
        call(m, seen, name, args) == scalar_value(m, function_named(name), vals),
        vals.len() == arity(function_named(name)),
        forall|i: int|
            0 <= i < vals.len() ==> #[trigger] vals[i] == if i < args.len() {
                value_under(m, seen, args[i])
            } else {
                ValueV::Empty
            },
{
    let none = Map::<Coord, ValueV>::empty();
    let f = function_named(name);
    assert(eval(m, table(seen), ExprV::Call(name, args), none) == eval_call(
        m,
        table(seen),
        f,
        args,
        none,
    ));
    scalars_steady(m, seen, args, arity(f), none);
    scalars(m, table(seen), args, arity(f), none).0
}

// ---- operators ------------------------------------------------------------

/// What a formula counts as in arithmetic: the number that it is, zero where it is
/// blank, the number that its text reads as.
pub open spec fn counts_as(
    m: NumModel,
    seen: spec_fn(Coord) -> ValueV,
    e: ExprV,
    x: Bits,
) -> bool {
    let v = value_under(m, seen, e);
    ||| v == ValueV::Number(x)
    ||| v is Empty && x == ZERO
    ||| v is Text && number_of(m, v) == Ok::<Bits, ValueV>(x)
}

/// The operators of arithmetic compute what they are written for, on whatever counts
/// as a number; a division by zero, of either sign, is an error.
pub proof fn arithmetic_computes(
    m: NumModel,
    seen: spec_fn(Coord) -> ValueV,
    l: ExprV,
    r: ExprV,
    x: Bits,
    y: Bits,
)
    requires
        counts_as(m, seen, l, x),
        counts_as(m, seen, r, y),
    ensures
        between(m, seen, l, BinOp::Add, r) == ValueV::Number((m.calc)(Op::Add, x, y)),
        between(m, seen, l, BinOp::Sub, r) == ValueV::Number((m.calc)(Op::Sub, x, y)),
        between(m, seen, l, BinOp::Mul, r) == ValueV::Number((m.calc)(Op::Mul, x, y)),
        between(m, seen, l, BinOp::Pow, r) == ValueV::Number((m.calc)(Op::Pow, x, y)),
        y != ZERO && y != MINUS_ZERO ==> between(m, seen, l, BinOp::Div, r) == ValueV::Number(
            (m.calc)(Op::Div, x, y),
        ),
        y == ZERO || y == MINUS_ZERO ==> between(m, seen, l, BinOp::Div, r) == ValueV::Error(
            "DIV/0"@,
        ),
        value_under(m, seen, ExprV::Unary('-', Box::new(l))) == ValueV::Number(
            (m.calc)(Op::Neg, x, ZERO),
        ),
        value_under(m, seen, ExprV::Unary('%', Box::new(l))) == between(
            m,
            seen,
            l,
            BinOp::Div,
            ExprV::Num(HUNDRED),
        ),
{
    let none = Map::<Coord, ValueV>::empty();
    eval_steady(m, seen, l, none);
    eval_steady(m, seen, r, none);
    assert(value_under(m, seen, ExprV::Num(HUNDRED)) == ValueV::Number(HUNDRED));
    eval_steady(m, seen, ExprV::Num(HUNDRED), none);
}

/// Text that is no number makes arithmetic fail.
pub proof fn text_is_no_operand(m: NumModel, seen: spec_fn(Coord) -> ValueV, l: ExprV, r: ExprV)
    requires
        value_under(m, seen, l) is Text,
        number_of(m, value_under(m, seen, l)) is Err,
    ensures
        forall|op: BinOp|
            op == BinOp::Add || op == BinOp::Sub || op == BinOp::Mul || op == BinOp::Div || op
                == BinOp::Pow ==> #[trigger] between(m, seen, l, op, r) == ValueV::Error("VALUE"@),
{
    eval_steady(m, seen, l, Map::empty());
    eval_steady(m, seen, r, Map::empty());
}

/// What text reads as, white space at its ends left out: the words for truth are one
/// and zero, in whatever case, and else it is what the text parses to.
pub proof fn text_reads_as_number(m: NumModel, s: Seq<char>)
    ensures
        same_ignoring_case(trim_space(s), "true"@) ==> number_of(m, ValueV::Text(s)) == Ok::<
            Bits,
            ValueV,
        >(ONE),
        same_ignoring_case(trim_space(s), "false"@) ==> number_of(m, ValueV::Text(s)) == Ok::<
            Bits,
            ValueV,
        >(ZERO),
        !same_ignoring_case(trim_space(s), "true"@) && !same_ignoring_case(
            trim_space(s),
            "false"@,
        ) ==> match (m.parse)(trim_space(s)) {
            Some(n) => number_of(m, ValueV::Text(s)) == Ok::<Bits, ValueV>(n),
            None => number_of(m, ValueV::Text(s)) == Err::<Bits, ValueV>(ValueV::Error("VALUE"@)),
        },
{
    assert(same_ignoring_case("true"@, "true"@));
    if same_ignoring_case(trim_space(s), "true"@) && same_ignoring_case(trim_space(s), "false"@) {
        reveal_strlit("true");
        reveal_strlit("false");
        let t = ascii_lower(trim_space(s));
        assert(ascii_lower("true"@).len() == 4);
        assert(ascii_lower("false"@).len() == 5);
    }
}

/// `&` writes the texts of its operands one after the other, as CONCAT does.
pub proof fn joining_appends(m: NumModel, seen: spec_fn(Coord) -> ValueV, l: ExprV, r: ExprV)
    requires
        !(value_under(m, seen, l) is Error),
        !(value_under(m, seen, r) is Error),
    ensures
        ({
            let (a, b) = (
                display_text(m, value_under(m, seen, l)),
                display_text(m, value_under(m, seen, r)),
            );
            between(m, seen, l, BinOp::Concat, r) == ValueV::Text(a + b)
        }),
        !(l is Range) && !(r is Range) ==> call(m, seen, "CONCAT"@, seq![l, r]) == between(
            m,
            seen,
            l,
            BinOp::Concat,
            r,
        ),
        call(m, seen, "CONCATENATE"@, seq![l, r]) == call(m, seen, "CONCAT"@, seq![l, r]),
{
    let none = Map::<Coord, ValueV>::empty();
    names();
    eval_steady(m, seen, l, none);
    eval_steady(m, seen, r, none);
    values_listed(m, seen, Seq::empty(), l);
    values_listed(m, seen, Seq::empty().push(l), r);
    assert(seq![l, r] =~= Seq::empty().push(l).push(r));
    let (a, b) = (value_under(m, seen, l), value_under(m, seen, r));
    list_call(m, seen, "CONCAT"@, seq![l, r]);
    list_call(m, seen, "CONCATENATE"@, seq![l, r]);
    if !(l is Range) && !(r is Range) {
        let vals = values(m, seen, seq![l, r]);
        assert(values(m, seen, Seq::empty()) =~= Seq::<ValueV>::empty());
        assert(vals =~= seq![a, b]);
        assert(vals.drop_last() =~= seq![a]);
        assert(seq![a].drop_last() =~= Seq::<ValueV>::empty());
        assert(joined(m, Seq::<ValueV>::empty()) == Ok::<Seq<char>, ValueV>(Seq::empty()));
        assert(joined(m, seq![a]) == Ok::<Seq<char>, ValueV>(
            Seq::<char>::empty() + display_text(m, a),
        ));
        assert(joined(m, vals) == Ok::<Seq<char>, ValueV>(
            Seq::<char>::empty() + display_text(m, a) + display_text(m, b),
        ));
        assert(Seq::<char>::empty() + display_text(m, a) + display_text(m, b) =~= display_text(m, a)
            + display_text(m, b));
    }
}

/// The truth values, as they stand in a cell.
pub open spec fn truth(b: bool) -> ValueV {
    if b {
        ValueV::Text("TRUE"@)
    } else {
        ValueV::Text("FALSE"@)
    }
}

/// The words for truth are two.
proof fn truths_differ()
    ensures
        truth(true) != truth(false),
{
    reveal_strlit("TRUE");
    reveal_strlit("FALSE");
    assert("TRUE"@.len() == 4 && "FALSE"@.len() == 5);
}

/// The six comparisons of what counts as numbers go by the order of the numbers: of
/// `<`, `=` and `>` one is true, `<=` is `<` or `=`, `>=` is `>` or `=`, and `<>` is
/// what `=` is not.
pub proof fn numbers_compare(
    m: NumModel,
    seen: spec_fn(Coord) -> ValueV,
    l: ExprV,
    r: ExprV,
    x: Bits,
    y: Bits,
)
    requires
        counts_as(m, seen, l, x),
        counts_as(m, seen, r, y),
        !is_nan(x),
        !is_nan(y),
    ensures
        ({
            let less = number_order(x, y) == Some(Order::Less);
            let more = number_order(y, x) == Some(Order::Less);
            &&& between(m, seen, l, BinOp::Lt, r) == truth(less)
            &&& between(m, seen, l, BinOp::Gt, r) == truth(more)
            &&& between(m, seen, l, BinOp::Eq, r) == truth(!less && !more)
            &&& between(m, seen, l, BinOp::Le, r) == truth(!more)
            &&& between(m, seen, l, BinOp::Ge, r) == truth(!less)
            &&& between(m, seen, l, BinOp::Ne, r) == truth(less || more)
        }),
{
    eval_steady(m, seen, l, Map::empty());
    eval_steady(m, seen, r, Map::empty());
}

/// Whatever two values are compared, the six comparisons fit together: `<=` is true
/// exactly where `<` or `=` is, and false exactly where `>` is true; `>=` is true
/// exactly where `>` or `=` is; `<>` is true exactly where `=` is false; and no two of
/// `<`, `=` and `>` are true. Turned round, `<` is `>`.
pub proof fn comparisons_fit_together(
    m: NumModel,
    seen: spec_fn(Coord) -> ValueV,
    l: ExprV,
    r: ExprV,
)
    requires
        between(m, seen, l, BinOp::Eq, r) == truth(true) || between(m, seen, l, BinOp::Eq, r)
            == truth(false),
    ensures
        ({
            let lt = between(m, seen, l, BinOp::Lt, r);
            let le = between(m, seen, l, BinOp::Le, r);
            let eq = between(m, seen, l, BinOp::Eq, r);
            let ne = between(m, seen, l, BinOp::Ne, r);
            let ge = between(m, seen, l, BinOp::Ge, r);
            let gt = between(m, seen, l, BinOp::Gt, r);
            &&& le == truth(lt == truth(true) || eq == truth(true))
            &&& ge == truth(gt == truth(true) || eq == truth(true))
            &&& ne == truth(eq == truth(false))
            &&& lt == truth(ge == truth(false))
            &&& gt == truth(le == truth(false))
            &&& eq == truth(le == truth(true) && ge == truth(true))
            &&& lt == between(m, seen, r, BinOp::Gt, l)
            &&& le == between(m, seen, r, BinOp::Ge, l)
            &&& eq == between(m, seen, r, BinOp::Eq, l)
        }),
{
    eval_steady(m, seen, l, Map::empty());
    eval_steady(m, seen, r, Map::empty());
    truths_differ();
    let (a, b) = (value_under(m, seen, l), value_under(m, seen, r));
    text_order_reversed(
        lowercase_text(display_text(m, a)),
        lowercase_text(display_text(m, b)),
    );
    truth_is_no_error();
}

proof fn truth_is_no_error()
    ensures
        !(truth(true) is Error),
        !(truth(false) is Error),
{
}

/// Texts that are no numbers compare without regard to case: equal where their small
/// letters are the same, and else by the first characters that differ, a text coming
/// before its continuations.
pub proof fn texts_compare(
    m: NumModel,
    seen: spec_fn(Coord) -> ValueV,
    l: ExprV,
    r: ExprV,
    s: Seq<char>,
    t: Seq<char>,
    k: int,
)
    requires
        value_under(m, seen, l) == ValueV::Text(s),
        value_under(m, seen, r) == ValueV::Text(t),
        number_of(m, ValueV::Text(s)) is Err || number_of(m, ValueV::Text(t)) is Err,
    ensures
        ({
            let (a, b) = (lowercase_text(s), lowercase_text(t));
            &&& between(m, seen, l, BinOp::Eq, r) == truth(a == b)
            &&& 0 <= k <= a.len() && k < b.len() && a.take(k) == b.take(k) && (k == a.len() || a[k]
                < b[k]) ==> {
                &&& between(m, seen, l, BinOp::Lt, r) == truth(true)
                &&& between(m, seen, r, BinOp::Lt, l) == truth(false)
            }
        }),
{
    eval_steady(m, seen, l, Map::empty());
    eval_steady(m, seen, r, Map::empty());
    let (a, b) = (lowercase_text(s), lowercase_text(t));
    text_order_equal(a, b);
    text_order_reversed(a, b);
    if 0 <= k <= a.len() && k < b.len() && a.take(k) == b.take(k) && (k == a.len() || a[k] < b[k]) {
        text_order_less(a, b, k);
    }
}

// ---- decisions ------------------------------------------------------------

/// IF takes its second argument where the first counts as a number other than zero,
/// and its third, or FALSE where there is none, where it counts as zero.
pub proof fn if_chooses(
    m: NumModel,
    seen: spec_fn(Coord) -> ValueV,
    cond: ExprV,
    x: ExprV,
    y: ExprV,
    n: Bits,
)
    requires
        counts_as(m, seen, cond, n),
    ensures
        ({
            let zero = n == ZERO || n == MINUS_ZERO;
            &&& call(m, seen, "IF"@, seq![cond, x, y]) == if zero {
                value_under(m, seen, y)
            } else {
                value_under(m, seen, x)
            }
            &&& call(m, seen, "IF"@, seq![cond, x]) == if zero {
                truth(false)
            } else {
                value_under(m, seen, x)
            }
        }),
{
    names();
    let none = Map::<Coord, ValueV>::empty();
    assert(eval(m, table(seen), ExprV::Call("IF"@, seq![cond, x, y]), none) == eval_call(
        m,
        table(seen),
        Func::If,
        seq![cond, x, y],
        none,
    ));
    assert(eval(m, table(seen), ExprV::Call("IF"@, seq![cond, x]), none) == eval_call(
        m,
        table(seen),
        Func::If,
        seq![cond, x],
        none,
    ));
    eval_steady(m, seen, cond, none);
    eval_steady(m, seen, x, none);
    eval_steady(m, seen, y, none);
}

/// NOT turns truth round.
pub proof fn not_turns_round(m: NumModel, seen: spec_fn(Coord) -> ValueV, e: ExprV, n: Bits)
    requires
        counts_as(m, seen, e, n),
    ensures
        call(m, seen, "NOT"@, seq![e]) == truth(n == ZERO || n == MINUS_ZERO),
{
    names();
    let vals = scalar_call(m, seen, "NOT"@, seq![e]);
    assert(vals[0] == value_under(m, seen, e));
}

/// AND and OR of no arguments are true and false; one more argument keeps AND true
/// where it counts as a number other than zero, and makes OR true where it does.
pub proof fn truths_connect(
    m: NumModel,
    seen: spec_fn(Coord) -> ValueV,
    args: Seq<ExprV>,
    e: ExprV,
    n: Bits,
)
    requires
        counts_as(m, seen, e, n),
        !(e is Range),
    ensures
        ({
            let yes = n != ZERO && n != MINUS_ZERO;
            let and = call(m, seen, "AND"@, args);
            let or = call(m, seen, "OR"@, args);
            &&& call(m, seen, "AND"@, Seq::empty()) == truth(true)
            &&& call(m, seen, "OR"@, Seq::empty()) == truth(false)
            &&& and is Text ==> call(m, seen, "AND"@, args.push(e)) == truth(
                and == truth(true) && yes,
            )
            &&& or is Text ==> call(m, seen, "OR"@, args.push(e)) == truth(
                or == truth(true) || yes,
            )
            &&& and is Error ==> call(m, seen, "AND"@, args.push(e)) == and
            &&& or is Error ==> call(m, seen, "OR"@, args.push(e)) == or
        }),
{
    names();
    truths_differ();
    values_listed(m, seen, args, e);
    let none = Seq::<ExprV>::empty();
    assert(values(m, seen, none) =~= Seq::<ValueV>::empty());
    let vals = values(m, seen, args);
    assert(values(m, seen, args.push(e)).drop_last() =~= vals);
    list_call(m, seen, "AND"@, args);
    list_call(m, seen, "OR"@, args);
    list_call(m, seen, "AND"@, args.push(e));
    list_call(m, seen, "OR"@, args.push(e));
    list_call(m, seen, "AND"@, none);
    list_call(m, seen, "OR"@, none);
    connected_error(m, true, vals);
    connected_error(m, false, vals);
    eval_steady(m, seen, e, Map::empty());
}

// ---- aggregates -----------------------------------------------------------

/// Whether a value takes part in a numeric aggregate: a number, or text that reads as
/// one.
pub open spec fn is_numeric(m: NumModel, v: ValueV) -> bool {
    v is Number || (v is Text && number_of(m, v) is Ok)
}

proof fn numbers_counted(m: NumModel, vals: Seq<ValueV>)
    ensures
        numbers(m, vals) matches Ok(ns) ==> ns.len() == vals.filter(
            |v: ValueV| is_numeric(m, v),
        ).len(),
        numbers(m, vals) is Ok <==> forall|i: int| 0 <= i < vals.len() ==> !(#[trigger] vals[i] is Error),
        numbers(m, vals) matches Err(e) ==> e is Error,
        present(vals) == vals.filter(|v: ValueV| !(v is Empty)).len(),
        vals.filter(|v: ValueV| is_numeric(m, v)).len() <= vals.len(),
    decreases vals.len(),
{
    reveal(Seq::filter);
    if vals.len() > 0 {
        let init = vals.drop_last();
        numbers_counted(m, init);
        assert forall|i: int| 0 <= i < init.len() implies init[i] == vals[i] by {}
        assert(vals[vals.len() - 1] == vals.last());
        if numbers(m, init) is Err {
            let i = choose|i: int| 0 <= i < init.len() && #[trigger] init[i] is Error;
            assert(vals[i] is Error);
        }
    }
}

/// SUM, PRODUCT, MIN and MAX of no numbers, and of one number more: it is added to the
/// sum, the product is multiplied with it, and the smaller and the larger of it and
/// the one before are taken.
pub proof fn aggregates_grow(
    m: NumModel,
    seen: spec_fn(Coord) -> ValueV,
    args: Seq<ExprV>,
    e: ExprV,
    x: Bits,
)
    requires
        !(e is Range),
        counts_as(m, seen, e, x),
        !(value_under(m, seen, e) is Empty),
    ensures
        call(m, seen, "SUM"@, Seq::empty()) == ValueV::Number(MINUS_ZERO),
        call(m, seen, "PRODUCT"@, Seq::empty()) == ValueV::Number(ONE),
        call(m, seen, "MIN"@, Seq::empty()) == ValueV::Number(INFINITY),
        call(m, seen, "MAX"@, Seq::empty()) == ValueV::Number(MINUS_INFINITY),
        call(m, seen, "SUM"@, args) matches ValueV::Number(t) ==> call(
            m,
            seen,
            "SUM"@,
            args.push(e),
        ) == ValueV::Number((m.calc)(Op::Add, t, x)),
        call(m, seen, "PRODUCT"@, args) matches ValueV::Number(t) ==> call(
            m,
            seen,
            "PRODUCT"@,
            args.push(e),
        ) == ValueV::Number((m.calc)(Op::Mul, t, x)),
        call(m, seen, "MIN"@, args) matches ValueV::Number(t) ==> call(
            m,
            seen,
            "MIN"@,
            args.push(e),
        ) == ValueV::Number((m.calc)(Op::Min, t, x)),
        call(m, seen, "MAX"@, args) matches ValueV::Number(t) ==> call(
            m,
            seen,
            "MAX"@,
            args.push(e),
        ) == ValueV::Number((m.calc)(Op::Max, t, x)),
{
    names();
    let none = Seq::<ExprV>::empty();
    values_listed(m, seen, args, e);
    let vals = values(m, seen, args);
    let more = values(m, seen, args.push(e));
    assert(values(m, seen, none) =~= Seq::<ValueV>::empty());
    assert(more.drop_last() =~= vals);
    numbers_counted(m, vals);
    list_call(m, seen, "SUM"@, none);
    list_call(m, seen, "PRODUCT"@, none);
    list_call(m, seen, "MIN"@, none);
    list_call(m, seen, "MAX"@, none);
    list_call(m, seen, "SUM"@, args);
    list_call(m, seen, "PRODUCT"@, args);
    list_call(m, seen, "MIN"@, args);
    list_call(m, seen, "MAX"@, args);
    list_call(m, seen, "SUM"@, args.push(e));
    list_call(m, seen, "PRODUCT"@, args.push(e));
    list_call(m, seen, "MIN"@, args.push(e));
    list_call(m, seen, "MAX"@, args.push(e));
    if let Ok(ns) = numbers(m, vals) {
        assert(ns.push(x).drop_last() =~= ns);
        assert(numbers(m, more) == Ok::<Seq<Bits>, ValueV>(ns.push(x)));
    }
}

/// COUNT is how many values are numbers or read as such, COUNTA how many are not
/// blank, and AVERAGE is SUM divided by COUNT, or DIV/0 where COUNT finds nothing.
/// AVG is AVERAGE.
pub proof fn averages_divide(m: NumModel, seen: spec_fn(Coord) -> ValueV, args: Seq<ExprV>)
    ensures
        ({
            let vals = values(m, seen, args);
            let n = vals.filter(|v: ValueV| is_numeric(m, v)).len();
            let all = vals.filter(|v: ValueV| !(v is Empty)).len();
            let fine = forall|i: int| 0 <= i < vals.len() ==> !(#[trigger] vals[i] is Error);
            &&& fine ==> call(m, seen, "COUNT"@, args) == ValueV::Number(
                (m.calc)(Op::OfCount, n as u64, ZERO),
            )
            &&& call(m, seen, "COUNTA"@, args) == ValueV::Number(
                (m.calc)(Op::OfCount, all as u64, ZERO),
            )
            &&& fine && n == 0 ==> call(m, seen, "AVERAGE"@, args) == ValueV::Error("DIV/0"@)
            &&& fine && n > 0 ==> match (
                call(m, seen, "SUM"@, args),
                call(m, seen, "COUNT"@, args),
            ) {
                (ValueV::Number(s), ValueV::Number(c)) => call(m, seen, "AVERAGE"@, args)
                    == ValueV::Number((m.calc)(Op::Div, s, c)),
                _ => false,
            }
            &&& call(m, seen, "AVG"@, args) == call(m, seen, "AVERAGE"@, args)
        }),
{
    names();
    numbers_counted(m, values(m, seen, args));
    list_call(m, seen, "SUM"@, args);
    list_call(m, seen, "COUNT"@, args);
    list_call(m, seen, "COUNTA"@, args);
    list_call(m, seen, "AVERAGE"@, args);
    list_call(m, seen, "AVG"@, args);
}

/// The names of the numeric aggregates.
pub open spec fn is_aggregate(name: Seq<char>) -> bool {
    name == "SUM"@ || name == "AVERAGE"@ || name == "AVG"@ || name == "MIN"@ || name == "MAX"@
        || name == "COUNT"@ || name == "PRODUCT"@
}

/// Blanks and text that is no number change no numeric aggregate, and the first error
/// among the values is the outcome.
pub proof fn aggregates_pass_over(
    m: NumModel,
    seen: spec_fn(Coord) -> ValueV,
    name: Seq<char>,
    args: Seq<ExprV>,
    e: ExprV,
)
    requires
        is_aggregate(name),
        !(e is Range),
    ensures
        ({
            let v = value_under(m, seen, e);
            let vals = values(m, seen, args);
            let fine = forall|i: int| 0 <= i < vals.len() ==> !(#[trigger] vals[i] is Error);
            &&& !is_numeric(m, v) && !(v is Error) ==> call(m, seen, name, args.push(e)) == call(
                m,
                seen,
                name,
                args,
            )
            &&& v is Error && fine ==> call(m, seen, name, args.push(e)) == v
            &&& !fine ==> call(m, seen, name, args) is Error && call(m, seen, name, args.push(e))
                == call(m, seen, name, args)
        }),
{
    names();
    values_listed(m, seen, args, e);
    let vals = values(m, seen, args);
    assert(values(m, seen, args.push(e)).drop_last() =~= vals);
    numbers_counted(m, vals);
    list_call(m, seen, name, args);
    list_call(m, seen, name, args.push(e));
}

// ---- functions of single values -------------------------------------------

/// The functions of one number.
pub proof fn number_functions(m: NumModel, seen: spec_fn(Coord) -> ValueV, e: ExprV, x: Bits)
    requires
        counts_as(m, seen, e, x),
    ensures
        call(m, seen, "ABS"@, seq![e]) == ValueV::Number((m.calc)(Op::Abs, x, ZERO)),
        call(m, seen, "INT"@, seq![e]) == ValueV::Number((m.calc)(Op::Floor, x, ZERO)),
        call(m, seen, "SQRT"@, seq![e]) == ValueV::Number((m.calc)(Op::Sqrt, x, ZERO)),
{
    names();
    let a = scalar_call(m, seen, "ABS"@, seq![e]);
    let b = scalar_call(m, seen, "INT"@, seq![e]);
    let c = scalar_call(m, seen, "SQRT"@, seq![e]);
    assert(a[0] == value_under(m, seen, e) && b[0] == a[0] && c[0] == a[0]);
}

/// ROUND multiplies with a power of ten, takes the nearest integer and divides again;
/// without a second argument the power is that of zero.
pub proof fn rounding_scales(
    m: NumModel,
    seen: spec_fn(Coord) -> ValueV,
    e: ExprV,
    d: ExprV,
    x: Bits,
    n: Bits,
)
    requires
        counts_as(m, seen, e, x),
        counts_as(m, seen, d, n),
    ensures
        ({
            let at = |k: Bits|
                {
                    let t = (m.calc)(Op::PowTen, k, ZERO);
                    (m.calc)(Op::Div, (m.calc)(Op::Nearest, (m.calc)(Op::Mul, x, t), ZERO), t)
                };
            &&& call(m, seen, "ROUND"@, seq![e, d]) == ValueV::Number(at(n))
            &&& call(m, seen, "ROUND"@, seq![e]) == ValueV::Number(at(ZERO))
        }),
{
    names();
    let a = scalar_call(m, seen, "ROUND"@, seq![e, d]);
    let b = scalar_call(m, seen, "ROUND"@, seq![e]);
    assert(a[0] == value_under(m, seen, e) && a[1] == value_under(m, seen, d));
    assert(b[0] == value_under(m, seen, e) && b[1] == ValueV::Empty);
}

/// POWER is `^`, and MOD is what is left of a number after a whole number of times
/// another; what is no number then, and a remainder of a division by zero, is NUM.
pub proof fn number_pairs(
    m: NumModel,
    seen: spec_fn(Coord) -> ValueV,
    l: ExprV,
    r: ExprV,
    x: Bits,
    y: Bits,
)
    requires
        counts_as(m, seen, l, x),
        counts_as(m, seen, r, y),
    ensures
        ({
            let power = between(m, seen, l, BinOp::Pow, r);
            let times = ExprV::Call(
                "INT"@,
                seq![ExprV::Binary(BinOp::Div, Box::new(l), Box::new(r))],
            );
            let rest = between(
                m,
                seen,
                l,
                BinOp::Sub,
                ExprV::Binary(BinOp::Mul, Box::new(r), Box::new(times)),
            );
            let checked = |v: ValueV|
                if v matches ValueV::Number(n) && !is_nan(n) {
                    v
                } else {
                    ValueV::Error("NUM"@)
                };
            &&& call(m, seen, "POWER"@, seq![l, r]) == checked(power)
            &&& y != ZERO && y != MINUS_ZERO ==> call(m, seen, "MOD"@, seq![l, r]) == checked(rest)
            &&& y == ZERO || y == MINUS_ZERO ==> call(m, seen, "MOD"@, seq![l, r])
                == ValueV::Error("NUM"@)
        }),
{
    names();
    let quotient = ExprV::Binary(BinOp::Div, Box::new(l), Box::new(r));
    let times = ExprV::Call("INT"@, seq![quotient]);
    let product = ExprV::Binary(BinOp::Mul, Box::new(r), Box::new(times));
    arithmetic_computes(m, seen, l, r, x, y);
    if y != ZERO && y != MINUS_ZERO {
        let q = (m.calc)(Op::Div, x, y);
        assert(value_under(m, seen, quotient) == ValueV::Number(q));
        number_functions(m, seen, quotient, q);
        let f = (m.calc)(Op::Floor, q, ZERO);
        assert(value_under(m, seen, times) == ValueV::Number(f));
        arithmetic_computes(m, seen, r, times, y, f);
        let p = (m.calc)(Op::Mul, y, f);
        assert(value_under(m, seen, product) == ValueV::Number(p));
        arithmetic_computes(m, seen, l, product, x, p);
    }
    let a = scalar_call(m, seen, "POWER"@, seq![l, r]);
    let b = scalar_call(m, seen, "MOD"@, seq![l, r]);
    assert(a[0] == value_under(m, seen, l) && a[1] == value_under(m, seen, r));
    assert(b[0] == value_under(m, seen, l) && b[1] == value_under(m, seen, r));
}

/// The functions of one text: how many characters it has, its capitals, its small
/// letters, and what is left of it without the white space around it.
pub proof fn text_functions(m: NumModel, seen: spec_fn(Coord) -> ValueV, e: ExprV)
    requires
        !(value_under(m, seen, e) is Error),
    ensures
        ({
            let s = display_text(m, value_under(m, seen, e));
            &&& call(m, seen, "LEN"@, seq![e]) == ValueV::Number(
                (m.calc)(Op::OfCount, s.len() as u64, ZERO),
            )
            &&& call(m, seen, "UPPER"@, seq![e]) == ValueV::Text(uppercase_text(s))
            &&& call(m, seen, "LOWER"@, seq![e]) == ValueV::Text(lowercase_text(s))
            &&& call(m, seen, "TRIM"@, seq![e]) == ValueV::Text(trim_space(s))
        }),
{
    names();
    let a = scalar_call(m, seen, "LEN"@, seq![e]);
    let b = scalar_call(m, seen, "UPPER"@, seq![e]);
    let c = scalar_call(m, seen, "LOWER"@, seq![e]);
    let d = scalar_call(m, seen, "TRIM"@, seq![e]);
    assert(a[0] == value_under(m, seen, e) && b[0] == a[0] && c[0] == a[0] && d[0] == a[0]);
}

/// LEFT and RIGHT are the beginning and the end of a text, of so many characters or
/// all there are; MID is what follows so many characters but one, of so many or all
/// that are left.
pub proof fn parts_of_text(
    m: NumModel,
    seen: spec_fn(Coord) -> ValueV,
    e: ExprV,
    from: ExprV,
    count: ExprV,
    x: Bits,
    n: Bits,
)
    requires
        counts_as(m, seen, from, x),
        counts_as(m, seen, count, n),
    ensures
        ({
            let s = display_text(m, value_under(m, seen, e));
            let k = (m.calc)(Op::Truncate, n, ZERO) as nat;
            let start = (m.calc)(Op::Truncate, x, ZERO) as nat;
            let size = |room: int|
                if k < room {
                    k as int
                } else {
                    room
                };
            &&& match call(m, seen, "LEFT"@, seq![e, count]) {
                ValueV::Text(t) => t.is_prefix_of(s) && t.len() == size(s.len() as int),
                _ => false,
            }
            &&& match call(m, seen, "RIGHT"@, seq![e, count]) {
                ValueV::Text(t) => t.is_suffix_of(s) && t.len() == size(s.len() as int),
                _ => false,
            }
            &&& match call(m, seen, "MID"@, seq![e, from, count]) {
                ValueV::Text(t) => {
                    let skipped = if start == 0 {
                        0
                    } else if start - 1 < s.len() {
                        start - 1
                    } else {
                        s.len() as int
                    };
                    &&& t.is_prefix_of(s.skip(skipped))
                    &&& t.len() == size(s.len() - skipped)
                },
                _ => false,
            }
        }),
{
    names();
    let a = scalar_call(m, seen, "LEFT"@, seq![e, count]);
    let b = scalar_call(m, seen, "RIGHT"@, seq![e, count]);
    let c = scalar_call(m, seen, "MID"@, seq![e, from, count]);
    let v = value_under(m, seen, e);
    assert(a[0] == v && a[1] == value_under(m, seen, count));
    assert(b[0] == v && b[1] == value_under(m, seen, count));
    assert(c[0] == v && c[1] == value_under(m, seen, from) && c[2] == value_under(m, seen, count));
}

// ---- lookups --------------------------------------------------------------

proof fn search_from(
    m: NumModel,
    seen: spec_fn(Coord) -> ValueV,
    key: ValueV,
    r: int,
    last: int,
    c: u32,
    target: u32,
    t: Memo,
    at: int,
)
    requires
        0 <= r <= at,
        at <= last + 1,
        last <= u32::MAX,
        forall|i: int| r <= i < at ==> !same_value(m, #[trigger] seen((i as u32, c)), key),
        at <= last ==> same_value(m, seen((at as u32, c)), key),
    ensures
        search(m, table(seen), key, r, last, c, target, t).0 == if at <= last {
            seen((at as u32, target))
        } else {
            ValueV::Error("N/A"@)
        },
    decreases at - r,
{
    if r < at {
        assert(!same_value(m, seen((r as u32, c)), key));
        search_from(m, seen, key, r + 1, last, c, target, t, at);
    }
}

/// Whether two numbers are equal: both are numbers, and neither is less than the
/// other.
pub open spec fn level(x: Bits, y: Bits) -> bool {
    &&& !is_nan(x)
    &&& !is_nan(y)
    &&& number_order(x, y) != Some(Order::Less)
    &&& number_order(y, x) != Some(Order::Less)
}

/// Whether a value is the key of a lookup: an equal number where both are numbers or
/// read as such, and else the same text but for the case of letters.
pub open spec fn is_key(m: NumModel, v: ValueV, key: ValueV) -> bool {
    match (number_of(m, v), number_of(m, key)) {
        (Ok(x), Ok(y)) => level(x, y),
        _ => same_ignoring_case(display_text(m, v), display_text(m, key)),
    }
}

/// Whether the key stands in no row of a column from one up to another.
pub open spec fn no_key_between(
    m: NumModel,
    seen: spec_fn(Coord) -> ValueV,
    key: ValueV,
    c: u32,
    from: int,
    to: int,
) -> bool {
    forall|i: int| from <= i < to ==> !is_key(m, #[trigger] seen((i as u32, c)), key)
}

/// A lookup gives back what stands in the column asked for, counted from the left of
/// the range, in the first row whose first cell is the key; N/A where no row is, and
/// REF where the range has no such column.
pub proof fn lookup_finds_the_key(
    m: NumModel,
    seen: spec_fn(Coord) -> ValueV,
    key: ExprV,
    a: Coord,
    b: Coord,
    col: ExprV,
    c: Bits,
    top: u32,
    bottom: u32,
    left: u32,
    right: u32,
    row: int,
)
    requires
        top <= bottom && left <= right,
        (a.0 == top && b.0 == bottom) || (a.0 == bottom && b.0 == top),
        (a.1 == left && b.1 == right) || (a.1 == right && b.1 == left),
        counts_as(m, seen, col, c),
    ensures
        ({
            let k = value_under(m, seen, key);
            let got = call(m, seen, "VLOOKUP"@, seq![key, ExprV::Range(a, b), col]);
            let nth = (m.calc)(Op::Truncate, c, ZERO) as int;
            let not_above = no_key_between(m, seen, k, left, top as int, row);
            &&& left + nth - 1 > right && nth <= u32::MAX ==> got == ValueV::Error("REF"@)
            &&& 1 <= nth <= u32::MAX && left + nth - 1 <= right && not_above && top <= row <= bottom
                && is_key(m, seen((row as u32, left)), k) ==> got == seen(
                (row as u32, (left + nth - 1) as u32),
            )
            &&& 1 <= nth <= u32::MAX && left + nth - 1 <= right && not_above && row == bottom + 1
                ==> got == ValueV::Error("N/A"@)
        }),
{
    names();
    let none = Map::<Coord, ValueV>::empty();
    let args = seq![key, ExprV::Range(a, b), col];
    assert(eval(m, table(seen), ExprV::Call("VLOOKUP"@, args), none) == eval_call(
        m,
        table(seen),
        Func::Vlookup,
        args,
        none,
    ));
    eval_steady(m, seen, key, none);
    eval_steady(m, seen, col, none);
    let k = value_under(m, seen, key);
    let v = value_under(m, seen, col);
    assert(args[0] == key && args[1] == ExprV::Range(a, b) && args[2] == col);
    assert(eval_call(m, table(seen), Func::Vlookup, args, none) == lookup(
        m,
        table(seen),
        k,
        a,
        b,
        v,
        none,
    ));
    assert(lookup_offset(m, v) == if (m.calc)(Op::Truncate, c, ZERO) == 0 {
        0
    } else if (m.calc)(Op::Truncate, c, ZERO) > u32::MAX {
        u32::MAX - 1
    } else {
        (m.calc)(Op::Truncate, c, ZERO) - 1
    });
    assert(low(a.0, b.0) == top && high(a.0, b.0) == bottom);
    assert(low(a.1, b.1) == left && high(a.1, b.1) == right);
    assert forall|v: ValueV| #[trigger] same_value(m, v, k) == is_key(m, v, k) by {}
    let nth = (m.calc)(Op::Truncate, c, ZERO) as int;
    let not_above = no_key_between(m, seen, k, left, top as int, row);
    if left + nth - 1 > right && nth <= u32::MAX {
        assert(lookup(m, table(seen), k, a, b, v, none).0 == ValueV::Error("REF"@));
    }
    if 1 <= nth <= u32::MAX && left + nth - 1 <= right && not_above {
        let target = (left + nth - 1) as u32;
        if (top <= row <= bottom && is_key(m, seen((row as u32, left)), k)) || row == bottom + 1 {
            assert forall|i: int| top <= i < row implies !same_value(
                m,
                #[trigger] seen((i as u32, left)),
                k,
            ) by {
                assert(!is_key(m, seen((i as u32, left)), k));
            }
            search_from(m, seen, k, top as int, bottom as int, left, target, none, row);
            assert(left + lookup_offset(m, v) == target);
            assert(lookup(m, table(seen), k, a, b, v, none) == search(
                m,
                table(seen),
                k,
                top as int,
                bottom as int,
                left,
                target,
                none,
            ));
        }
    }
}

// ---- literals and errors --------------------------------------------------

/// What the parts of a formula are worth: a number and a text are themselves, the words
/// for truth are truth values, a cell is what stands in it, a name that means nothing is
/// NAME, and a range where one value is wanted is VALUE.
pub proof fn parts_are_worth(
    m: NumModel,
    seen: spec_fn(Coord) -> ValueV,
    n: Bits,
    s: Seq<char>,
    b: bool,
    p: Coord,
    q: Coord,
)
    ensures
        value_under(m, seen, ExprV::Num(n)) == ValueV::Number(n),
        value_under(m, seen, ExprV::Str(s)) == ValueV::Text(s),
        value_under(m, seen, ExprV::Bool(b)) == truth(b),
        value_under(m, seen, ExprV::Ref(p.0, p.1)) == seen(p),
        value_under(m, seen, ExprV::ErrName) == ValueV::Error("NAME"@),
        value_under(m, seen, ExprV::Range(p, q)) == ValueV::Error("VALUE"@),
{
}

/// An error in the left operand is the value of every operator, and so is one in the
/// right where the left is none.
pub proof fn errors_come_out(
    m: NumModel,
    seen: spec_fn(Coord) -> ValueV,
    l: ExprV,
    op: BinOp,
    r: ExprV,
    x: Bits,
)
    ensures
        value_under(m, seen, l) is Error ==> between(m, seen, l, op, r) == value_under(m, seen, l),
        value_under(m, seen, r) is Error && counts_as(m, seen, l, x) ==> between(m, seen, l, op, r)
            == value_under(m, seen, r),
        value_under(m, seen, l) is Error ==> value_under(m, seen, ExprV::Unary('-', Box::new(l)))
            == value_under(m, seen, l) && value_under(m, seen, ExprV::Unary('%', Box::new(l)))
            == value_under(m, seen, l),
{
    eval_steady(m, seen, l, Map::empty());
    eval_steady(m, seen, r, Map::empty());
}

/// Functions that are called with too few arguments, or with none of the names there
/// are, fail.
pub proof fn calls_fail(
    m: NumModel,
    seen: spec_fn(Coord) -> ValueV,
    name: Seq<char>,
    args: Seq<ExprV>,
)
    ensures
        args.len() < 2 ==> call(m, seen, "IF"@, args) == ValueV::Error("N/A"@),
        args.len() != 1 ==> call(m, seen, "NOT"@, args) == ValueV::Error("N/A"@),
        args.len() < 3 ==> call(m, seen, "VLOOKUP"@, args) == ValueV::Error("N/A"@),
        args.len() >= 3 && !(args[1] is Range) ==> call(m, seen, "VLOOKUP"@, args)
            == ValueV::Error("VALUE"@),
        name != "IF"@ && name != "AND"@ && name != "OR"@ && name != "SUM"@ && name != "AVERAGE"@
            && name != "AVG"@ && name != "MIN"@ && name != "MAX"@ && name != "COUNT"@ && name
            != "COUNTA"@ && name != "PRODUCT"@ && name != "NOT"@ && name != "ROUND"@ && name
            != "ABS"@ && name != "INT"@ && name != "SQRT"@ && name != "MOD"@ && name != "POWER"@
            && name != "CONCAT"@ && name != "CONCATENATE"@ && name != "LEN"@ && name != "UPPER"@
            && name != "LOWER"@ && name != "TRIM"@ && name != "LEFT"@ && name != "RIGHT"@ && name
            != "MID"@ && name != "VLOOKUP"@ ==> call(m, seen, name, args) == ValueV::Error("NAME"@),
{
    names();
    let none = Map::<Coord, ValueV>::empty();
    assert(eval(m, table(seen), ExprV::Call("IF"@, args), none) == eval_call(
        m,
        table(seen),
        Func::If,
        args,
        none,
    ));
    assert(eval(m, table(seen), ExprV::Call("NOT"@, args), none) == eval_call(
        m,
        table(seen),
        Func::Not,
        args,
        none,
    ));
    assert(eval(m, table(seen), ExprV::Call("VLOOKUP"@, args), none) == eval_call(
        m,
        table(seen),
        Func::Vlookup,
        args,
        none,
    ));
    assert(eval(m, table(seen), ExprV::Call(name, args), none) == eval_call(
        m,
        table(seen),
        function_named(name),
        args,
        none,
    ));
}

/// What a cell without a formula is worth: nothing where it is empty, a number where it
/// reads as one, and else its text.
pub proof fn literals_are_worth(m: NumModel, raw: Seq<char>)
    ensures
        literal_value(m, Seq::empty()) == ValueV::Empty,
        raw.len() > 0 ==> match (m.parse)(raw) {
            Some(n) => literal_value(m, raw) == ValueV::Number(n),
            None => literal_value(m, raw) == ValueV::Text(raw),
        },
{
}

/// CONCAT grows with its arguments as `&` does.
pub proof fn joining_grows(m: NumModel, seen: spec_fn(Coord) -> ValueV, args: Seq<ExprV>, e: ExprV)
    requires
        !(e is Range),
    ensures
        ({
            let v = value_under(m, seen, e);
            let before = call(m, seen, "CONCAT"@, args);
            let after = call(m, seen, "CONCAT"@, args.push(e));
            &&& call(m, seen, "CONCAT"@, Seq::empty()) == ValueV::Text(Seq::empty())
            &&& before matches ValueV::Text(s) ==> after == if v is Error {
                v
            } else {
                ValueV::Text(s + display_text(m, v))
            }
            &&& before is Error ==> after == before
        }),
{
    names();
    let none = Seq::<ExprV>::empty();
    values_listed(m, seen, args, e);
    assert(values(m, seen, none) =~= Seq::<ValueV>::empty());
    assert(values(m, seen, args.push(e)).drop_last() =~= values(m, seen, args));
    list_call(m, seen, "CONCAT"@, none);
    list_call(m, seen, "CONCAT"@, args);
    list_call(m, seen, "CONCAT"@, args.push(e));
    joined_error(m, values(m, seen, args));
}

proof fn joined_error(m: NumModel, vals: Seq<ValueV>)
    ensures
        joined(m, vals) matches Err(e) ==> e is Error,
    decreases vals.len(),
{
    if vals.len() > 0 {
        joined_error(m, vals.drop_last());
    }
}

/// Where a count, a place or a column is wanted and what stands there has no negative,
/// being no number, one character or the first column is taken, and no decimals, no
/// characters or those from the beginning.
pub proof fn odd_arguments_are_passed_over(
    m: NumModel,
    seen: spec_fn(Coord) -> ValueV,
    e: ExprV,
    odd: ExprV,
    k: ExprV,
    a: Coord,
    b: Coord,
)
    requires
        value_under(m, seen, ExprV::Unary('-', Box::new(odd))) is Error,
    ensures
        call(m, seen, "ROUND"@, seq![e, odd]) == call(m, seen, "ROUND"@, seq![e, ExprV::Num(ZERO)]),
        call(m, seen, "LEFT"@, seq![e, odd]) == call(m, seen, "LEFT"@, seq![e, ExprV::Num(ONE)]),
        call(m, seen, "RIGHT"@, seq![e, odd]) == call(m, seen, "RIGHT"@, seq![e, ExprV::Num(ONE)]),
        call(m, seen, "MID"@, seq![e, odd, k]) == call(
            m,
            seen,
            "MID"@,
            seq![e, ExprV::Num(ZERO), k],
        ),
        call(m, seen, "MID"@, seq![e, k, odd]) == call(
            m,
            seen,
            "MID"@,
            seq![e, k, ExprV::Num(ZERO)],
        ),
        call(m, seen, "VLOOKUP"@, seq![e, ExprV::Range(a, b), odd]) == call(
            m,
            seen,
            "VLOOKUP"@,
            seq![e, ExprV::Range(a, b), ExprV::Num(ONE)],
        ),
{
    names();
    let zero = ExprV::Num(ZERO);
    let one = ExprV::Num(ONE);
    let v = value_under(m, seen, odd);
    eval_steady(m, seen, odd, Map::empty());
    assert(number_of(m, v) is Err);
    odd_second(m, seen, "ROUND"@, e, odd, zero);
    odd_second(m, seen, "LEFT"@, e, odd, one);
    odd_second(m, seen, "RIGHT"@, e, odd, one);
    odd_middle(m, seen, e, odd, k);
    odd_column(m, seen, e, odd, a, b);
}

proof fn odd_second(
    m: NumModel,
    seen: spec_fn(Coord) -> ValueV,
    name: Seq<char>,
    e: ExprV,
    odd: ExprV,
    like: ExprV,
)
    requires
        number_of(m, value_under(m, seen, odd)) is Err,
        (name == "ROUND"@ && like == ExprV::Num(ZERO)) || ((name == "LEFT"@ || name == "RIGHT"@)
            && like == ExprV::Num(ONE)),
    ensures
        call(m, seen, name, seq![e, odd]) == call(m, seen, name, seq![e, like]),
{
    names();
    let one = scalar_call(m, seen, name, seq![e, odd]);
    let two = scalar_call(m, seen, name, seq![e, like]);
    assert(one[0] == two[0] && one[1] == value_under(m, seen, odd));
    assert(two[1] == value_under(m, seen, like));
}

proof fn odd_middle(
    m: NumModel,
    seen: spec_fn(Coord) -> ValueV,
    e: ExprV,
    odd: ExprV,
    k: ExprV,
)
    requires
        number_of(m, value_under(m, seen, odd)) is Err,
    ensures
        call(m, seen, "MID"@, seq![e, odd, k]) == call(
            m,
            seen,
            "MID"@,
            seq![e, ExprV::Num(ZERO), k],
        ),
        call(m, seen, "MID"@, seq![e, k, odd]) == call(
            m,
            seen,
            "MID"@,
            seq![e, k, ExprV::Num(ZERO)],
        ),
{
    let zero = ExprV::Num(ZERO);
    let (v, z) = (value_under(m, seen, odd), value_under(m, seen, zero));
    middle_call(m, seen, e, odd, k);
    middle_call(m, seen, e, zero, k);
    middle_call(m, seen, e, k, odd);
    middle_call(m, seen, e, k, zero);
    assert(z == ValueV::Number(ZERO));
    assert(number_or(m, v, ZERO) == number_or(m, z, ZERO));
}

proof fn middle_call(
    m: NumModel,
    seen: spec_fn(Coord) -> ValueV,
    e: ExprV,
    from: ExprV,
    count: ExprV,
)
    ensures
        call(m, seen, "MID"@, seq![e, from, count]) == ValueV::Text(
            mid_text(
                m,
                value_under(m, seen, e),
                value_under(m, seen, from),
                value_under(m, seen, count),
            ),
        ),
{
    names();
    let args = scalar_call(m, seen, "MID"@, seq![e, from, count]);
    assert(args[0] == value_under(m, seen, e));
    assert(args[1] == value_under(m, seen, from));
    assert(args[2] == value_under(m, seen, count));
}

proof fn odd_column(
    m: NumModel,
    seen: spec_fn(Coord) -> ValueV,
    e: ExprV,
    odd: ExprV,
    a: Coord,
    b: Coord,
)
    requires
        number_of(m, value_under(m, seen, odd)) is Err,
    ensures
        call(m, seen, "VLOOKUP"@, seq![e, ExprV::Range(a, b), odd]) == call(
            m,
            seen,
            "VLOOKUP"@,
            seq![e, ExprV::Range(a, b), ExprV::Num(ONE)],
        ),
{
    let one = ExprV::Num(ONE);
    lookup_call(m, seen, e, a, b, odd);
    lookup_call(m, seen, e, a, b, one);
    assert(value_under(m, seen, one) == ValueV::Number(ONE));
    assert(lookup_offset(m, value_under(m, seen, odd)) == lookup_offset(
        m,
        value_under(m, seen, one),
    ));
}

proof fn lookup_call(
    m: NumModel,
    seen: spec_fn(Coord) -> ValueV,
    key: ExprV,
    a: Coord,
    b: Coord,
    col: ExprV,
)
    ensures
        call(m, seen, "VLOOKUP"@, seq![key, ExprV::Range(a, b), col]) == lookup(
            m,
            table(seen),
            value_under(m, seen, key),
            a,
            b,
            value_under(m, seen, col),
            Map::empty(),
        ).0,
{
    names();
    let none = Map::<Coord, ValueV>::empty();
    let args = seq![key, ExprV::Range(a, b), col];
    assert(eval(m, table(seen), ExprV::Call("VLOOKUP"@, args), none) == eval_call(
        m,
        table(seen),
        Func::Vlookup,
        args,
        none,
    ));
    eval_steady(m, seen, key, none);
    eval_steady(m, seen, col, none);
    assert(args[0] == key && args[1] == ExprV::Range(a, b) && args[2] == col);
}

/// Columns of a lookup are counted from one: column nought is the first one too, and
/// columns too far out to be counted are all the same.
pub proof fn lookup_counts_columns(
    m: NumModel,
    seen: spec_fn(Coord) -> ValueV,
    key: ExprV,
    a: Coord,
    b: Coord,
    col: ExprV,
    like: ExprV,
    c: Bits,
    d: Bits,
)
    requires
        counts_as(m, seen, col, c),
        counts_as(m, seen, like, d),
        ({
            let n = (m.calc)(Op::Truncate, c, ZERO);
            let k = (m.calc)(Op::Truncate, d, ZERO);
            n == k || (n == 0 && k == 1) || (n >= u32::MAX && k >= u32::MAX)
        }),
    ensures
        call(m, seen, "VLOOKUP"@, seq![key, ExprV::Range(a, b), col]) == call(
            m,
            seen,
            "VLOOKUP"@,
            seq![key, ExprV::Range(a, b), like],
        ),
{
    lookup_call(m, seen, key, a, b, col);
    lookup_call(m, seen, key, a, b, like);
    assert(lookup_offset(m, value_under(m, seen, col)) == lookup_offset(
        m,
        value_under(m, seen, like),
    ));
}

/// Arguments that are missing count as blank cells.
pub proof fn missing_arguments_are_blank(
    m: NumModel,
    seen: spec_fn(Coord) -> ValueV,
    e: ExprV,
    at: Coord,
)
    requires
        seen(at) is Empty,
    ensures
        ({
            let blank = ExprV::Ref(at.0, at.1);
            &&& call(m, seen, "LEFT"@, seq![e]) == call(m, seen, "LEFT"@, seq![e, blank])
            &&& call(m, seen, "RIGHT"@, seq![e]) == call(m, seen, "RIGHT"@, seq![e, blank])
            &&& call(m, seen, "ROUND"@, seq![e]) == call(m, seen, "ROUND"@, seq![e, blank])
            &&& call(m, seen, "MOD"@, seq![e]) == call(m, seen, "MOD"@, seq![e, blank])
            &&& call(m, seen, "POWER"@, seq![e]) == call(m, seen, "POWER"@, seq![e, blank])
            &&& call(m, seen, "ABS"@, seq![]) == call(m, seen, "ABS"@, seq![blank])
            &&& call(m, seen, "INT"@, seq![]) == call(m, seen, "INT"@, seq![blank])
            &&& call(m, seen, "SQRT"@, seq![]) == call(m, seen, "SQRT"@, seq![blank])
            &&& call(m, seen, "LEN"@, seq![]) == call(m, seen, "LEN"@, seq![blank])
            &&& call(m, seen, "TRIM"@, seq![]) == call(m, seen, "TRIM"@, seq![blank])
        }),
{
    let blank = ExprV::Ref(at.0, at.1);
    assert(value_under(m, seen, blank) == ValueV::Empty);
    blank_second(m, seen, "LEFT"@, e, blank);
    blank_second(m, seen, "RIGHT"@, e, blank);
    blank_second(m, seen, "ROUND"@, e, blank);
    blank_second(m, seen, "MOD"@, e, blank);
    blank_second(m, seen, "POWER"@, e, blank);
    blank_first(m, seen, "ABS"@, blank);
    blank_first(m, seen, "INT"@, blank);
    blank_first(m, seen, "SQRT"@, blank);
    blank_first(m, seen, "LEN"@, blank);
    blank_first(m, seen, "TRIM"@, blank);
}

proof fn blank_second(
    m: NumModel,
    seen: spec_fn(Coord) -> ValueV,
    name: Seq<char>,
    e: ExprV,
    blank: ExprV,
)
    requires
        name == "LEFT"@ || name == "RIGHT"@ || name == "ROUND"@ || name == "MOD"@ || name
            == "POWER"@,
        value_under(m, seen, blank) is Empty,
    ensures
        call(m, seen, name, seq![e]) == call(m, seen, name, seq![e, blank]),
{
    names();
    let one = scalar_call(m, seen, name, seq![e]);
    let two = scalar_call(m, seen, name, seq![e, blank]);
    assert(one =~= two);
}

proof fn blank_first(m: NumModel, seen: spec_fn(Coord) -> ValueV, name: Seq<char>, blank: ExprV)
    requires
        name == "ABS"@ || name == "INT"@ || name == "SQRT"@ || name == "LEN"@ || name == "TRIM"@,
        value_under(m, seen, blank) is Empty,
    ensures
        call(m, seen, name, seq![]) == call(m, seen, name, seq![blank]),
{
    names();
    let one = scalar_call(m, seen, name, seq![]);
    let two = scalar_call(m, seen, name, seq![blank]);
    assert(one =~= two);
}

} // verus!
