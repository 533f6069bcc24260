//! What the operators and functions of the formula language do with values.

use vstd::prelude::*;

use crate::ast::BinOp;
use crate::model::{display_text, Value, ValueV};
use crate::num::{
    is_nan, is_zero, nan, number_order, order, zero, Bits, NumModel, Numerics, Op, Order, HUNDRED,
    INFINITY, MINUS_INFINITY, MINUS_ZERO, ONE, ZERO,
};
use crate::text::{
    chars_are, chars_of, eq_ignore_case, lowercase_text, push_text, same_ignoring_case, slice_of,
    string_of, trim, trim_space, unicode_lower, unicode_upper, uppercase_text,
};

verus! {

// ---- single values --------------------------------------------------------

/// A truth value as it stands in a cell.
pub open spec fn bool_value(b: bool) -> ValueV {
    ValueV::Text(
        if b {
            "TRUE"@
        } else {
            "FALSE"@
        },
    )
}

/// The number that a value counts as in arithmetic: a blank is 0, the texts TRUE
/// and FALSE are 1 and 0, other text is what can be read from it. An error stays
/// an error, and other text is the error VALUE.
pub open spec fn number_of(m: NumModel, v: ValueV) -> Result<Bits, ValueV> {
    match v {
        ValueV::Number(n) => Ok(n),
        ValueV::Empty => Ok(ZERO),
        ValueV::Error(_) => Err(v),
        ValueV::Text(s) => {
            let t = trim_space(s);
            if same_ignoring_case(t, "true"@) {
                Ok(ONE)
            } else if same_ignoring_case(t, "false"@) {
                Ok(ZERO)
            } else {
                match (m.parse)(t) {
                    Some(n) => Ok(n),
                    None => Err(ValueV::Error("VALUE"@)),
                }
            }
        },
    }
}

/// The number that a value counts as, `other` where it counts as none.
pub open spec fn number_or(m: NumModel, v: ValueV, other: Bits) -> Bits {
    match number_of(m, v) {
        Ok(n) => n,
        Err(_) => other,
    }
}

/// Whether a value counts as true: any number but zero.
pub open spec fn truth_of(m: NumModel, v: ValueV) -> Result<bool, ValueV> {
    match number_of(m, v) {
        Ok(n) => Ok(!is_zero(n)),
        Err(e) => Err(e),
    }
}

/// Whether a lookup takes two values for the same: equal numbers where both are
/// numbers, else the same text but for the case of ASCII letters.
pub open spec fn same_value(m: NumModel, a: ValueV, b: ValueV) -> bool {
    match (number_of(m, a), number_of(m, b)) {
        (Ok(x), Ok(y)) => number_order(x, y) == Some(Order::Equal),
        _ => same_ignoring_case(display_text(m, a), display_text(m, b)),
    }
}

/// The order of two texts, character by character.
pub open spec fn text_order(a: Seq<char>, b: Seq<char>) -> Order
    decreases a.len(),
{
    if a.len() == 0 {
        if b.len() == 0 {
            Order::Equal
        } else {
            Order::Less
        }
    } else if b.len() == 0 || a[0] as int > b[0] as int {
        Order::Greater
    } else if (a[0] as int) < b[0] as int {
        Order::Less
    } else {
        text_order(a.skip(1), b.skip(1))
    }
}

/// The order of two values: that of numbers where both are numbers, else that of
/// their texts in lower case.
pub open spec fn value_order(m: NumModel, a: ValueV, b: ValueV) -> Option<Order> {
    match (number_of(m, a), number_of(m, b)) {
        (Ok(x), Ok(y)) => number_order(x, y),
        _ => Some(
            text_order(
                lowercase_text(display_text(m, a)),
                lowercase_text(display_text(m, b)),
            ),
        ),
    }
}

/// Whether a comparison holds of two things in the order `o`.
pub open spec fn holds(op: BinOp, o: Order) -> bool {
    match op {
        BinOp::Eq => o == Order::Equal,
        BinOp::Ne => o != Order::Equal,
        BinOp::Lt => o == Order::Less,
        BinOp::Le => o != Order::Greater,
        BinOp::Gt => o == Order::Greater,
        BinOp::Ge => o != Order::Less,
        _ => false,
    }
}

/// The value of a comparison: the first error among the operands, NUM where they
/// have no order, else a truth value.
pub open spec fn compared(m: NumModel, op: BinOp, a: ValueV, b: ValueV) -> ValueV {
    if a is Error {
        a
    } else if b is Error {
        b
    } else {
        match value_order(m, a, b) {
            None => ValueV::Error("NUM"@),
            Some(o) => bool_value(holds(op, o)),
        }
    }
}

/// The value of a literal: nothing, a number where it reads as one, else text.
pub open spec fn literal_value(m: NumModel, raw: Seq<char>) -> ValueV {
    if raw.len() == 0 {
        ValueV::Empty
    } else {
        match (m.parse)(raw) {
            Some(n) => ValueV::Number(n),
            None => ValueV::Text(raw),
        }
    }
}

/// The value of a sign or percent sign at its operand.
pub open spec fn unary_value(m: NumModel, op: char, v: ValueV) -> ValueV {
    if op == '-' || op == '%' {
        match number_of(m, v) {
            Ok(n) => ValueV::Number(
                if op == '-' {
                    (m.calc)(Op::Neg, n, ZERO)
                } else {
                    (m.calc)(Op::Div, n, HUNDRED)
                },
            ),
            Err(e) => e,
        }
    } else {
        v
    }
}

/// The value of an operator between two values.
pub open spec fn binary_value(m: NumModel, op: BinOp, a: ValueV, b: ValueV) -> ValueV {
    match op {
        BinOp::Concat => if a is Error {
            a
        } else if b is Error {
            b
        } else {
            ValueV::Text(display_text(m, a) + display_text(m, b))
        },
        BinOp::Eq | BinOp::Ne | BinOp::Lt | BinOp::Le | BinOp::Gt | BinOp::Ge => compared(
            m,
            op,
            a,
            b,
        ),
        _ => match (number_of(m, a), number_of(m, b)) {
            (Err(e), _) => e,
            (_, Err(e)) => e,
            (Ok(x), Ok(y)) => if op == BinOp::Div && is_zero(y) {
                ValueV::Error("DIV/0"@)
            } else {
                ValueV::Number((m.calc)(arithmetic(op), x, y))
            },
        },
    }
}

/// The arithmetic behind an operator.
pub open spec fn arithmetic(op: BinOp) -> Op {
    match op {
        BinOp::Sub => Op::Sub,
        BinOp::Mul => Op::Mul,
        BinOp::Div => Op::Div,
        BinOp::Pow => Op::Pow,
        _ => Op::Add,
    }
}

// ---- functions ------------------------------------------------------------

/// The functions of the formula language.
#[derive(Clone, Copy, PartialEq, Eq, Structural, Debug)]
pub enum Func {
    If,
    And,
    Or,
    Sum,
    Average,
    Min,
    Max,
    Count,
    CountA,
    Product,
    Not,
    Round,
    Abs,
    Int,
    Sqrt,
    Mod,
    Power,
    Concat,
    Len,
    Upper,
    Lower,
    Trim,
    Left,
    Right,
    Mid,
    Vlookup,
    Unknown,
}

/// The function of a name in capitals.
pub open spec fn function_named(name: Seq<char>) -> Func {
    if name == "IF"@ {
        Func::If
    } else if name == "AND"@ {
        Func::And
    } else if name == "OR"@ {
        Func::Or
    } else if name == "SUM"@ {
        Func::Sum
    } else if name == "AVERAGE"@ || name == "AVG"@ {
        Func::Average
    } else if name == "MIN"@ {
        Func::Min
    } else if name == "MAX"@ {
        Func::Max
    } else if name == "COUNT"@ {
        Func::Count
    } else if name == "COUNTA"@ {
        Func::CountA
    } else if name == "PRODUCT"@ {
        Func::Product
    } else if name == "NOT"@ {
        Func::Not
    } else if name == "ROUND"@ {
        Func::Round
    } else if name == "ABS"@ {
        Func::Abs
    } else if name == "INT"@ {
        Func::Int
    } else if name == "SQRT"@ {
        Func::Sqrt
    } else if name == "MOD"@ {
        Func::Mod
    } else if name == "POWER"@ {
        Func::Power
    } else if name == "CONCAT"@ || name == "CONCATENATE"@ {
        Func::Concat
    } else if name == "LEN"@ {
        Func::Len
    } else if name == "UPPER"@ {
        Func::Upper
    } else if name == "LOWER"@ {
        Func::Lower
    } else if name == "TRIM"@ {
        Func::Trim
    } else if name == "LEFT"@ {
        Func::Left
    } else if name == "RIGHT"@ {
        Func::Right
    } else if name == "MID"@ {
        Func::Mid
    } else if name == "VLOOKUP"@ {
        Func::Vlookup
    } else {
        Func::Unknown
    }
}

/// The number that is a count.
pub open spec fn count_number(m: NumModel, n: nat) -> Bits {
    (m.calc)(Op::OfCount, n as u64, ZERO)
}

/// All of the truth values, or any of them; the first value that is neither true
/// nor false.
pub open spec fn connected(m: NumModel, all: bool, vals: Seq<ValueV>) -> Result<bool, ValueV>
    decreases vals.len(),
{
    if vals.len() == 0 {
        Ok(all)
    } else {
        match connected(m, all, vals.drop_last()) {
            Err(e) => Err(e),
            Ok(acc) => match truth_of(m, vals.last()) {
                Err(e) => Err(e),
                Ok(b) => Ok(
                    if all {
                        acc && b
                    } else {
                        acc || b
                    },
                ),
            },
        }
    }
}

/// The numbers among the values, leaving out blanks and other text; the first
/// error where there is one.
pub open spec fn numbers(m: NumModel, vals: Seq<ValueV>) -> Result<Seq<Bits>, ValueV>
    decreases vals.len(),
{
    if vals.len() == 0 {
        Ok(Seq::empty())
    } else {
        match numbers(m, vals.drop_last()) {
            Err(e) => Err(e),
            Ok(ns) => match vals.last() {
                ValueV::Empty => Ok(ns),
                ValueV::Error(_) => Err(vals.last()),
                v => match number_of(m, v) {
                    Ok(n) => Ok(ns.push(n)),
                    Err(_) => Ok(ns),
                },
            },
        }
    }
}

/// The texts of the values, one after the other; the first error where there is
/// one.
pub open spec fn joined(m: NumModel, vals: Seq<ValueV>) -> Result<Seq<char>, ValueV>
    decreases vals.len(),
{
    if vals.len() == 0 {
        Ok(Seq::empty())
    } else {
        match joined(m, vals.drop_last()) {
            Err(e) => Err(e),
            Ok(s) => if vals.last() is Error {
                Err(vals.last())
            } else {
                Ok(s + display_text(m, vals.last()))
            },
        }
    }
}

/// How many of the values are not blank.
pub open spec fn present(vals: Seq<ValueV>) -> nat
    decreases vals.len(),
{
    if vals.len() == 0 {
        0
    } else if vals.last() is Empty {
        present(vals.drop_last())
    } else {
        present(vals.drop_last()) + 1
    }
}

/// The numbers combined from the left, beginning with `from`.
pub open spec fn folded(m: NumModel, op: Op, ns: Seq<Bits>, from: Bits) -> Bits
    decreases ns.len(),
{
    if ns.len() == 0 {
        from
    } else {
        (m.calc)(op, folded(m, op, ns.drop_last(), from), ns.last())
    }
}

/// The value of a numeric aggregate.
pub open spec fn aggregate(m: NumModel, f: Func, ns: Seq<Bits>) -> ValueV {
    match f {
        Func::Sum => ValueV::Number(folded(m, Op::Add, ns, MINUS_ZERO)),
        Func::Product => ValueV::Number(folded(m, Op::Mul, ns, ONE)),
        Func::Average => if ns.len() == 0 {
            ValueV::Error("DIV/0"@)
        } else {
            ValueV::Number(
                (m.calc)(Op::Div, folded(m, Op::Add, ns, MINUS_ZERO), count_number(m, ns.len())),
            )
        },
        Func::Min => ValueV::Number(folded(m, Op::Min, ns, INFINITY)),
        Func::Max => ValueV::Number(folded(m, Op::Max, ns, MINUS_INFINITY)),
        _ => ValueV::Number(count_number(m, ns.len())),
    }
}

/// Whether a function takes all its arguments, with every cell of a range, as one
/// list of values.
pub open spec fn takes_list(f: Func) -> bool {
    match f {
        Func::And
        | Func::Or
        | Func::Sum
        | Func::Average
        | Func::Min
        | Func::Max
        | Func::Count
        | Func::CountA
        | Func::Product
        | Func::Concat => true,
        _ => false,
    }
}

/// The value of a function of a list of values.
pub open spec fn list_value(m: NumModel, f: Func, vals: Seq<ValueV>) -> ValueV {
    match f {
        Func::And | Func::Or => match connected(m, f == Func::And, vals) {
            Ok(b) => bool_value(b),
            Err(e) => e,
        },
        Func::Concat => match joined(m, vals) {
            Ok(s) => ValueV::Text(s),
            Err(e) => e,
        },
        Func::CountA => ValueV::Number(count_number(m, present(vals))),
        _ => match numbers(m, vals) {
            Ok(ns) => aggregate(m, f, ns),
            Err(e) => e,
        },
    }
}

/// How many arguments a function of single values looks at.
pub open spec fn arity(f: Func) -> nat {
    match f {
        Func::Not
        | Func::Abs
        | Func::Int
        | Func::Sqrt
        | Func::Len
        | Func::Upper
        | Func::Lower
        | Func::Trim => 1,
        Func::Round | Func::Mod | Func::Power | Func::Left | Func::Right => 2,
        _ => 3,
    }
}

/// A number function of one operand.
pub open spec fn number_value(m: NumModel, op: Op, v: ValueV) -> ValueV {
    match number_of(m, v) {
        Ok(n) => ValueV::Number((m.calc)(op, n, ZERO)),
        Err(e) => e,
    }
}

/// The remainder of a division, with the sign of the divisor; none where the
/// divisor is zero.
pub open spec fn remainder(m: NumModel, a: Bits, b: Bits) -> Option<Bits> {
    if is_zero(b) {
        None
    } else {
        Some(
            (m.calc)(
                Op::Sub,
                a,
                (m.calc)(Op::Mul, b, (m.calc)(Op::Floor, (m.calc)(Op::Div, a, b), ZERO)),
            ),
        )
    }
}

/// A number function of two operands; NUM where the result is not a number.
pub open spec fn pair_value(m: NumModel, f: Func, a: ValueV, b: ValueV) -> ValueV {
    match (number_of(m, a), number_of(m, b)) {
        (Err(e), _) => e,
        (_, Err(e)) => e,
        (Ok(x), Ok(y)) => {
            let r = if f == Func::Mod {
                remainder(m, x, y)
            } else {
                Some((m.calc)(Op::Pow, x, y))
            };
            match r {
                Some(n) => if is_nan(n) {
                    ValueV::Error("NUM"@)
                } else {
                    ValueV::Number(n)
                },
                None => ValueV::Error("NUM"@),
            }
        },
    }
}

/// A number rounded to so many decimals.
pub open spec fn rounded(m: NumModel, v: ValueV, decimals: ValueV) -> ValueV {
    match number_of(m, v) {
        Ok(x) => {
            let t = (m.calc)(Op::PowTen, number_or(m, decimals, ZERO), ZERO);
            ValueV::Number(
                (m.calc)(Op::Div, (m.calc)(Op::Nearest, (m.calc)(Op::Mul, x, t), ZERO), t),
            )
        },
        Err(e) => e,
    }
}

/// A number cut to an integer that is not negative.
pub open spec fn cut(m: NumModel, n: Bits) -> nat {
    (m.calc)(Op::Truncate, n, ZERO) as nat
}

pub open spec fn lesser(a: nat, b: nat) -> nat {
    if a < b {
        a
    } else {
        b
    }
}

/// The first or the last characters of a text.
pub open spec fn end_text(m: NumModel, left: bool, v: ValueV, n: ValueV) -> Seq<char> {
    let s = display_text(m, v);
    let k = lesser(cut(m, number_or(m, n, ONE)), s.len());
    if left {
        s.take(k as int)
    } else {
        s.skip(s.len() - k)
    }
}

/// The characters of a text from the one at `start`, counted from one, on.
pub open spec fn mid_text(m: NumModel, v: ValueV, start: ValueV, n: ValueV) -> Seq<char> {
    let s = display_text(m, v);
    let first = cut(m, number_or(m, start, ZERO));
    let from = lesser(
        if first == 0 {
            0
        } else {
            (first - 1) as nat
        },
        s.len(),
    );
    let count = lesser(cut(m, number_or(m, n, ZERO)), (s.len() - from) as nat);
    s.subrange(from as int, (from + count) as int)
}

/// The value of a function of single values.
pub open spec fn scalar_value(m: NumModel, f: Func, vals: Seq<ValueV>) -> ValueV {
    match f {
        Func::Not => match truth_of(m, vals[0]) {
            Ok(b) => bool_value(!b),
            Err(e) => e,
        },
        Func::Round => rounded(m, vals[0], vals[1]),
        Func::Abs => number_value(m, Op::Abs, vals[0]),
        Func::Int => number_value(m, Op::Floor, vals[0]),
        Func::Sqrt => number_value(m, Op::Sqrt, vals[0]),
        Func::Mod | Func::Power => pair_value(m, f, vals[0], vals[1]),
        Func::Left | Func::Right => ValueV::Text(end_text(m, f == Func::Left, vals[0], vals[1])),
        Func::Mid => ValueV::Text(mid_text(m, vals[0], vals[1], vals[2])),
        Func::Len | Func::Upper | Func::Lower | Func::Trim => if vals[0] is Error {
            vals[0]
        } else {
            text_value(m, f, display_text(m, vals[0]))
        },
        _ => ValueV::Error("NAME"@),
    }
}

/// The value of a function of one text.
pub open spec fn text_value(m: NumModel, f: Func, s: Seq<char>) -> ValueV {
    match f {
        Func::Len => ValueV::Number(count_number(m, s.len())),
        Func::Upper => ValueV::Text(uppercase_text(s)),
        Func::Lower => ValueV::Text(lowercase_text(s)),
        _ => ValueV::Text(trim_space(s)),
    }
}

// ---- laws -----------------------------------------------------------------

/// The order of two texts, turned round.
pub proof fn text_order_reversed(a: Seq<char>, b: Seq<char>)
    ensures
        text_order(a, b) == Order::Less <==> text_order(b, a) == Order::Greater,
        text_order(a, b) == Order::Greater <==> text_order(b, a) == Order::Less,
        text_order(a, b) == Order::Equal <==> text_order(b, a) == Order::Equal,
    decreases a.len(),
{
    if a.len() > 0 && b.len() > 0 && a[0] == b[0] {
        text_order_reversed(a.skip(1), b.skip(1));
    }
}

/// Only a text and itself are equal in order.
pub proof fn text_order_equal(a: Seq<char>, b: Seq<char>)
    ensures
        text_order(a, b) == Order::Equal <==> a == b,
    decreases a.len(),
{
    if a.len() > 0 && b.len() > 0 && a[0] == b[0] {
        text_order_equal(a.skip(1), b.skip(1));
        if a.skip(1) == b.skip(1) {
            assert(a =~= seq![a[0]] + a.skip(1));
            assert(b =~= seq![b[0]] + b.skip(1));
        }
    } else if a.len() == 0 && b.len() == 0 {
        assert(a =~= b);
    }
}

/// The first characters that differ decide on the order of two texts, and a text comes
/// before its continuations.
pub proof fn text_order_less(a: Seq<char>, b: Seq<char>, k: int)
    requires
        0 <= k <= a.len(),
        k < b.len(),
        a.take(k) == b.take(k),
        k == a.len() || a[k] < b[k],
    ensures
        text_order(a, b) == Order::Less,
    decreases k,
{
    if k > 0 {
        assert(a.take(k)[0] == a[0] && b.take(k)[0] == b[0]);
        assert(a.skip(1).take(k - 1) =~= a.take(k).skip(1));
        assert(b.skip(1).take(k - 1) =~= b.take(k).skip(1));
        text_order_less(a.skip(1), b.skip(1), k - 1);
    }
}

/// Connecting truth values fails with an error only.
pub proof fn connected_error(m: NumModel, all: bool, vals: Seq<ValueV>)
    ensures
        connected(m, all, vals) matches Err(e) ==> e is Error,
    decreases vals.len(),
{
    if vals.len() > 0 {
        connected_error(m, all, vals.drop_last());
    }
}

// ---- code -----------------------------------------------------------------

/// A result whose error is a value, with its texts as character sequences.
pub open spec fn outcome<T>(r: Result<T, Value>) -> Result<T, ValueV> {
    match r {
        Ok(x) => Ok(x),
        Err(e) => Err(e@),
    }
}

/// The values with their texts as character sequences.
pub open spec fn values_view(vals: Seq<Value>) -> Seq<ValueV> {
    Seq::new(vals.len(), |i: int| vals[i]@)
}

pub fn error(code: &str) -> (v: Value)
    ensures
        v@ == ValueV::Error(code@),
{
    Value::Error(code.to_owned())
}

pub fn boolval(b: bool) -> (v: Value)
    ensures
        v@ == bool_value(b),
{
    if b {
        Value::Text("TRUE".to_owned())
    } else {
        Value::Text("FALSE".to_owned())
    }
}

fn is_error(v: &Value) -> (r: bool)
    ensures
        r == (v@ is Error),
{
    match v {
        Value::Error(_) => true,
        _ => false,
    }
}

/// Coerces a value to a number for arithmetic. Empty is 0, TRUE and FALSE are 1
/// and 0.
pub fn num<P: Fn(&str) -> Option<Bits>, S: Fn(Bits) -> String, C: Fn(Op, Bits, Bits) -> Bits>(
    numerics: &Numerics<P, S, C>,
    v: &Value,
) -> (r: Result<Bits, Value>)
    requires
        numerics.valid(),
    ensures
        outcome(r) == number_of(numerics.model(), v@),
{
    match v {
        Value::Number(n) => Ok(*n),
        Value::Empty => Ok(ZERO),
        Value::Error(_) => Err(v.clone()),
        Value::Text(s) => {
            let chars = chars_of(s.as_str());
            let t = trim(chars.as_slice());
            let yes = chars_of("true");
            let no = chars_of("false");
            if eq_ignore_case(t.as_slice(), yes.as_slice()) {
                Ok(ONE)
            } else if eq_ignore_case(t.as_slice(), no.as_slice()) {
                Ok(ZERO)
            } else {
                match numerics.read(string_of(t.as_slice()).as_str()) {
                    Some(n) => Ok(n),
                    None => Err(error("VALUE")),
                }
            }
        },
    }
}

fn num_or<P: Fn(&str) -> Option<Bits>, S: Fn(Bits) -> String, C: Fn(Op, Bits, Bits) -> Bits>(
    numerics: &Numerics<P, S, C>,
    v: &Value,
    other: Bits,
) -> (n: Bits)
    requires
        numerics.valid(),
    ensures
        n == number_or(numerics.model(), v@, other),
{
    match num(numerics, v) {
        Ok(n) => n,
        Err(_) => other,
    }
}

/// Whether a value counts as true.
pub fn truthy<P: Fn(&str) -> Option<Bits>, S: Fn(Bits) -> String, C: Fn(Op, Bits, Bits) -> Bits>(
    numerics: &Numerics<P, S, C>,
    v: &Value,
) -> (r: Result<bool, Value>)
    requires
        numerics.valid(),
    ensures
        outcome(r) == truth_of(numerics.model(), v@),
{
    match num(numerics, v) {
        Ok(n) => Ok(!zero(n)),
        Err(e) => Err(e),
    }
}

/// Whether a lookup takes two values for the same.
pub fn values_eq<P: Fn(&str) -> Option<Bits>, S: Fn(Bits) -> String, C: Fn(Op, Bits, Bits) -> Bits>(
    numerics: &Numerics<P, S, C>,
    a: &Value,
    b: &Value,
) -> (r: bool)
    requires
        numerics.valid(),
    ensures
        r == same_value(numerics.model(), a@, b@),
{
    match (num(numerics, a), num(numerics, b)) {
        (Ok(x), Ok(y)) => match order(x, y) {
            Some(Order::Equal) => true,
            _ => false,
        },
        _ => {
            let s = chars_of(a.display(numerics).as_str());
            let t = chars_of(b.display(numerics).as_str());
            eq_ignore_case(s.as_slice(), t.as_slice())
        },
    }
}

/// The order of two texts, character by character.
pub fn order_texts(a: &[char], b: &[char]) -> (r: Order)
    ensures
        r == text_order(a@, b@),
{
    let mut i: usize = 0;
    assert(a@.skip(0) =~= a@);
    assert(b@.skip(0) =~= b@);
    while i < a.len() && i < b.len()
        invariant
            i <= a@.len(),
            i <= b@.len(),
            text_order(a@, b@) == text_order(a@.skip(i as int), b@.skip(i as int)),
        decreases a@.len() - i,
    {
        if a[i] > b[i] {
            return Order::Greater;
        }
        if a[i] < b[i] {
            return Order::Less;
        }
        assert(a@.skip(i as int).skip(1) =~= a@.skip(i + 1));
        assert(b@.skip(i as int).skip(1) =~= b@.skip(i + 1));
        i = i + 1;
    }
    if i < a.len() {
        Order::Greater
    } else if i < b.len() {
        Order::Less
    } else {
        Order::Equal
    }
}

/// Compares two values.
pub fn compare<P: Fn(&str) -> Option<Bits>, S: Fn(Bits) -> String, C: Fn(Op, Bits, Bits) -> Bits>(
    numerics: &Numerics<P, S, C>,
    op: BinOp,
    a: &Value,
    b: &Value,
) -> (v: Value)
    requires
        numerics.valid(),
    ensures
        v@ == compared(numerics.model(), op, a@, b@),
{
    if is_error(a) {
        return a.clone();
    }
    if is_error(b) {
        return b.clone();
    }
    // Numeric compare when both look numeric, else case-insensitive text.
    let o = match (num(numerics, a), num(numerics, b)) {
        (Ok(x), Ok(y)) => match order(x, y) {
            Some(o) => o,
            None => {
                return error("NUM");
            },
        },
        _ => {
            let s = chars_of(unicode_lower(a.display(numerics).as_str()).as_str());
            let t = chars_of(unicode_lower(b.display(numerics).as_str()).as_str());
            order_texts(s.as_slice(), t.as_slice())
        },
    };
    let res: bool = match op {
        BinOp::Eq => o == Order::Equal,
        BinOp::Ne => o != Order::Equal,
        BinOp::Lt => o == Order::Less,
        BinOp::Le => o != Order::Greater,
        BinOp::Gt => o == Order::Greater,
        BinOp::Ge => o != Order::Less,
        _ => false,
    };
    boolval(res)
}

/// Classifies a non-formula literal as number or text.
pub fn classify<P: Fn(&str) -> Option<Bits>, S: Fn(Bits) -> String, C: Fn(Op, Bits, Bits) -> Bits>(
    numerics: &Numerics<P, S, C>,
    raw: &str,
) -> (v: Value)
    requires
        numerics.valid(),
    ensures
        v@ == literal_value(numerics.model(), raw@),
{
    if raw.is_empty() {
        Value::Empty
    } else {
        match numerics.read(raw) {
            Some(n) => Value::Number(n),
            None => Value::Text(raw.to_owned()),
        }
    }
}

/// A sign or a percent sign at its operand.
pub fn apply_unary<
    P: Fn(&str) -> Option<Bits>,
    S: Fn(Bits) -> String,
    C: Fn(Op, Bits, Bits) -> Bits,
>(
    numerics: &Numerics<P, S, C>,
    op: char,
    v: Value,
) -> (r: Value)
    requires
        numerics.valid(),
    ensures
        r@ == unary_value(numerics.model(), op, v@),
{
    if op == '-' {
        match num(numerics, &v) {
            Ok(n) => Value::Number(numerics.compute(Op::Neg, n, ZERO)),
            Err(e) => e,
        }
    } else if op == '%' {
        match num(numerics, &v) {
            Ok(n) => Value::Number(numerics.compute(Op::Div, n, HUNDRED)),
            Err(e) => e,
        }
    } else {
        v
    }
}

/// An operator between two values.
pub fn apply_binary<
    P: Fn(&str) -> Option<Bits>,
    S: Fn(Bits) -> String,
    C: Fn(Op, Bits, Bits) -> Bits,
>(
    numerics: &Numerics<P, S, C>,
    op: BinOp,
    a: Value,
    b: Value,
) -> (r: Value)
    requires
        numerics.valid(),
    ensures
        r@ == binary_value(numerics.model(), op, a@, b@),
{
    match op {
        BinOp::Concat => {
            if is_error(&a) {
                return a;
            }
            if is_error(&b) {
                return b;
            }
            let mut s = chars_of(a.display(numerics).as_str());
            push_text(&mut s, b.display(numerics).as_str());
            Value::Text(string_of(s.as_slice()))
        },
        BinOp::Eq | BinOp::Ne | BinOp::Lt | BinOp::Le | BinOp::Gt | BinOp::Ge => compare(
            numerics,
            op,
            &a,
            &b,
        ),
        _ => {
            let x: Bits = match num(numerics, &a) {
                Ok(n) => n,
                Err(e) => {
                    return e;
                },
            };
            let y: Bits = match num(numerics, &b) {
                Ok(n) => n,
                Err(e) => {
                    return e;
                },
            };
            if op == BinOp::Div && zero(y) {
                return error("DIV/0");
            }
            let calc = match op {
                BinOp::Sub => Op::Sub,
                BinOp::Mul => Op::Mul,
                BinOp::Div => Op::Div,
                BinOp::Pow => Op::Pow,
                _ => Op::Add,
            };
            Value::Number(numerics.compute(calc, x, y))
        },
    }
}

/// The function of a name in capitals.
pub fn find_function(name: &str) -> (f: Func)
    ensures
        f == function_named(name@),
{
    let chars = chars_of(name);
    let s = chars.as_slice();
    if chars_are(s, "IF") {
        Func::If
    } else if chars_are(s, "AND") {
        Func::And
    } else if chars_are(s, "OR") {
        Func::Or
    } else if chars_are(s, "SUM") {
        Func::Sum
    } else if chars_are(s, "AVERAGE") || chars_are(s, "AVG") {
        Func::Average
    } else if chars_are(s, "MIN") {
        Func::Min
    } else if chars_are(s, "MAX") {
        Func::Max
    } else if chars_are(s, "COUNT") {
        Func::Count
    } else if chars_are(s, "COUNTA") {
        Func::CountA
    } else if chars_are(s, "PRODUCT") {
        Func::Product
    } else if chars_are(s, "NOT") {
        Func::Not
    } else if chars_are(s, "ROUND") {
        Func::Round
    } else if chars_are(s, "ABS") {
        Func::Abs
    } else if chars_are(s, "INT") {
        Func::Int
    } else if chars_are(s, "SQRT") {
        Func::Sqrt
    } else if chars_are(s, "MOD") {
        Func::Mod
    } else if chars_are(s, "POWER") {
        Func::Power
    } else if chars_are(s, "CONCAT") || chars_are(s, "CONCATENATE") {
        Func::Concat
    } else if chars_are(s, "LEN") {
        Func::Len
    } else if chars_are(s, "UPPER") {
        Func::Upper
    } else if chars_are(s, "LOWER") {
        Func::Lower
    } else if chars_are(s, "TRIM") {
        Func::Trim
    } else if chars_are(s, "LEFT") {
        Func::Left
    } else if chars_are(s, "RIGHT") {
        Func::Right
    } else if chars_are(s, "MID") {
        Func::Mid
    } else if chars_are(s, "VLOOKUP") {
        Func::Vlookup
    } else {
        Func::Unknown
    }
}

/// The numbers among the values; the first error where there is one.
fn nums<P: Fn(&str) -> Option<Bits>, S: Fn(Bits) -> String, C: Fn(Op, Bits, Bits) -> Bits>(
    numerics: &Numerics<P, S, C>,
    vals: &[Value],
) -> (r: Result<Vec<Bits>, Value>)
    requires
        numerics.valid(),
    ensures
        match r {
            Ok(ns) => numbers(numerics.model(), values_view(vals@)) == Ok::<Seq<Bits>, ValueV>(ns@),
            Err(e) => numbers(numerics.model(), values_view(vals@)) == Err::<Seq<Bits>, ValueV>(e@),
        },
{
    let ghost all = values_view(vals@);
    let mut ns: Vec<Bits> = Vec::new();
    let mut i: usize = 0;
    while i < vals.len()
        invariant
            numerics.valid(),
            i <= vals@.len(),
            all == values_view(vals@),
            numbers(numerics.model(), all.take(i as int)) == Ok::<Seq<Bits>, ValueV>(ns@),
        decreases vals@.len() - i,
    {
        assert(all.take(i + 1).drop_last() =~= all.take(i as int));
        let v = &vals[i];
        match v {
            Value::Empty => {},
            Value::Error(_) => {
                proof {
                    numbers_stop(numerics.model(), all, i + 1);
                }
                return Err(v.clone());
            },
            _ => {
                if let Ok(n) = num(numerics, v) {
                    ns.push(n);
                }
            },
        }
        i = i + 1;
    }
    assert(all.take(i as int) =~= all);
    Ok(ns)
}

/// The first error is the outcome, whatever follows it.
proof fn numbers_stop(m: NumModel, vals: Seq<ValueV>, i: int)
    requires
        0 <= i <= vals.len(),
        numbers(m, vals.take(i)) is Err,
    ensures
        numbers(m, vals) == numbers(m, vals.take(i)),
    decreases vals.len(),
{
    if i == vals.len() {
        assert(vals.take(i) =~= vals);
    } else {
        assert(vals.drop_last().take(i) =~= vals.take(i));
        numbers_stop(m, vals.drop_last(), i);
    }
}

/// The first value that is neither true nor false is the outcome, whatever
/// follows it.
proof fn connected_stop(m: NumModel, all: bool, vals: Seq<ValueV>, i: int)
    requires
        0 <= i <= vals.len(),
        connected(m, all, vals.take(i)) is Err,
    ensures
        connected(m, all, vals) == connected(m, all, vals.take(i)),
    decreases vals.len(),
{
    if i == vals.len() {
        assert(vals.take(i) =~= vals);
    } else {
        assert(vals.drop_last().take(i) =~= vals.take(i));
        connected_stop(m, all, vals.drop_last(), i);
    }
}

/// The first error is the outcome, whatever follows it.
proof fn joined_stop(m: NumModel, vals: Seq<ValueV>, i: int)
    requires
        0 <= i <= vals.len(),
        joined(m, vals.take(i)) is Err,
    ensures
        joined(m, vals) == joined(m, vals.take(i)),
    decreases vals.len(),
{
    if i == vals.len() {
        assert(vals.take(i) =~= vals);
    } else {
        assert(vals.drop_last().take(i) =~= vals.take(i));
        joined_stop(m, vals.drop_last(), i);
    }
}

fn connect<P: Fn(&str) -> Option<Bits>, S: Fn(Bits) -> String, C: Fn(Op, Bits, Bits) -> Bits>(
    numerics: &Numerics<P, S, C>,
    want_all: bool,
    vals: &[Value],
) -> (r: Result<bool, Value>)
    requires
        numerics.valid(),
    ensures
        outcome(r) == connected(numerics.model(), want_all, values_view(vals@)),
{
    let ghost all = values_view(vals@);
    let mut acc: bool = want_all;
    let mut i: usize = 0;
    while i < vals.len()
        invariant
            numerics.valid(),
            i <= vals@.len(),
            all == values_view(vals@),
            connected(numerics.model(), want_all, all.take(i as int)) == Ok::<bool, ValueV>(acc),
        decreases vals@.len() - i,
    {
        assert(all.take(i + 1).drop_last() =~= all.take(i as int));
        match truthy(numerics, &vals[i]) {
            Ok(b) => {
                acc = if want_all {
                    acc && b
                } else {
                    acc || b
                };
            },
            Err(e) => {
                proof {
                    connected_stop(numerics.model(), want_all, all, i + 1);
                }
                return Err(e);
            },
        }
        i = i + 1;
    }
    assert(all.take(i as int) =~= all);
    Ok(acc)
}

fn join<P: Fn(&str) -> Option<Bits>, S: Fn(Bits) -> String, C: Fn(Op, Bits, Bits) -> Bits>(
    numerics: &Numerics<P, S, C>,
    vals: &[Value],
) -> (v: Value)
    requires
        numerics.valid(),
    ensures
        v@ == list_value(numerics.model(), Func::Concat, values_view(vals@)),
{
    let ghost all = values_view(vals@);
    let mut s: Vec<char> = Vec::new();
    let mut i: usize = 0;
    while i < vals.len()
        invariant
            numerics.valid(),
            i <= vals@.len(),
            all == values_view(vals@),
            joined(numerics.model(), all.take(i as int)) == Ok::<Seq<char>, ValueV>(s@),
        decreases vals@.len() - i,
    {
        assert(all.take(i + 1).drop_last() =~= all.take(i as int));
        if is_error(&vals[i]) {
            proof {
                joined_stop(numerics.model(), all, i + 1);
            }
            return vals[i].clone();
        }
        push_text(&mut s, vals[i].display(numerics).as_str());
        i = i + 1;
    }
    assert(all.take(i as int) =~= all);
    Value::Text(string_of(s.as_slice()))
}

fn count_present(vals: &[Value]) -> (n: usize)
    ensures
        n == present(values_view(vals@)),
{
    let ghost all = values_view(vals@);
    let mut n: usize = 0;
    let mut i: usize = 0;
    while i < vals.len()
        invariant
            n <= i <= vals@.len(),
            all == values_view(vals@),
            n == present(all.take(i as int)),
        decreases vals@.len() - i,
    {
        assert(all.take(i + 1).drop_last() =~= all.take(i as int));
        match &vals[i] {
            Value::Empty => {},
            _ => {
                n = n + 1;
            },
        }
        i = i + 1;
    }
    assert(all.take(i as int) =~= all);
    n
}

fn fold<P: Fn(&str) -> Option<Bits>, S: Fn(Bits) -> String, C: Fn(Op, Bits, Bits) -> Bits>(
    numerics: &Numerics<P, S, C>,
    op: Op,
    ns: &[Bits],
    from: Bits,
) -> (r: Bits)
    requires
        numerics.valid(),
    ensures
        r == folded(numerics.model(), op, ns@, from),
{
    let mut acc: Bits = from;
    let mut i: usize = 0;
    while i < ns.len()
        invariant
            numerics.valid(),
            i <= ns@.len(),
            acc == folded(numerics.model(), op, ns@.take(i as int), from),
        decreases ns@.len() - i,
    {
        assert(ns@.take(i + 1).drop_last() =~= ns@.take(i as int));
        acc = numerics.compute(op, acc, ns[i]);
        i = i + 1;
    }
    assert(ns@.take(i as int) =~= ns@);
    acc
}

/// A function of a list of values.
pub fn apply_list<
    P: Fn(&str) -> Option<Bits>,
    S: Fn(Bits) -> String,
    C: Fn(Op, Bits, Bits) -> Bits,
>(
    numerics: &Numerics<P, S, C>,
    f: Func,
    vals: &[Value],
) -> (v: Value)
    requires
        numerics.valid(),
    ensures
        v@ == list_value(numerics.model(), f, values_view(vals@)),
{
    match f {
        Func::And | Func::Or => {
            return match connect(numerics, f == Func::And, vals) {
                Ok(b) => boolval(b),
                Err(e) => e,
            };
        },
        Func::Concat => {
            return join(numerics, vals);
        },
        Func::CountA => {
            let n: usize = count_present(vals);
            return Value::Number(numerics.compute(Op::OfCount, n as u64, ZERO));
        },
        _ => {},
    }
    let ns = match nums(numerics, vals) {
        Ok(ns) => ns,
        Err(e) => {
            return e;
        },
    };
    let count: Bits = numerics.compute(Op::OfCount, ns.len() as u64, ZERO);
    match f {
        Func::Sum => Value::Number(fold(numerics, Op::Add, ns.as_slice(), MINUS_ZERO)),
        Func::Product => Value::Number(fold(numerics, Op::Mul, ns.as_slice(), ONE)),
        Func::Average => if ns.len() == 0 {
            error("DIV/0")
        } else {
            let sum: Bits = fold(numerics, Op::Add, ns.as_slice(), MINUS_ZERO);
            Value::Number(numerics.compute(Op::Div, sum, count))
        },
        Func::Min => Value::Number(fold(numerics, Op::Min, ns.as_slice(), INFINITY)),
        Func::Max => Value::Number(fold(numerics, Op::Max, ns.as_slice(), MINUS_INFINITY)),
        _ => Value::Number(count),
    }
}

fn unary_num<P: Fn(&str) -> Option<Bits>, S: Fn(Bits) -> String, C: Fn(Op, Bits, Bits) -> Bits>(
    numerics: &Numerics<P, S, C>,
    op: Op,
    v: &Value,
) -> (r: Value)
    requires
        numerics.valid(),
    ensures
        r@ == number_value(numerics.model(), op, v@),
{
    match num(numerics, v) {
        Ok(n) => Value::Number(numerics.compute(op, n, ZERO)),
        Err(e) => e,
    }
}

fn binary_num<P: Fn(&str) -> Option<Bits>, S: Fn(Bits) -> String, C: Fn(Op, Bits, Bits) -> Bits>(
    numerics: &Numerics<P, S, C>,
    f: Func,
    a: &Value,
    b: &Value,
) -> (v: Value)
    requires
        numerics.valid(),
    ensures
        v@ == pair_value(numerics.model(), f, a@, b@),
{
    let x: Bits = match num(numerics, a) {
        Ok(n) => n,
        Err(e) => {
            return e;
        },
    };
    let y: Bits = match num(numerics, b) {
        Ok(n) => n,
        Err(e) => {
            return e;
        },
    };
    let r: Bits = if f == Func::Mod {
        if zero(y) {
            return error("NUM");
        }
        let q: Bits = numerics.compute(Op::Floor, numerics.compute(Op::Div, x, y), ZERO);
        numerics.compute(Op::Sub, x, numerics.compute(Op::Mul, y, q))
    } else {
        numerics.compute(Op::Pow, x, y)
    };
    if nan(r) {
        error("NUM")
    } else {
        Value::Number(r)
    }
}

fn round<P: Fn(&str) -> Option<Bits>, S: Fn(Bits) -> String, C: Fn(Op, Bits, Bits) -> Bits>(
    numerics: &Numerics<P, S, C>,
    v: &Value,
    decimals: &Value,
) -> (r: Value)
    requires
        numerics.valid(),
    ensures
        r@ == rounded(numerics.model(), v@, decimals@),
{
    match num(numerics, v) {
        Ok(x) => {
            let t: Bits = numerics.compute(Op::PowTen, num_or(numerics, decimals, ZERO), ZERO);
            let scaled: Bits = numerics.compute(Op::Mul, x, t);
            let whole: Bits = numerics.compute(Op::Nearest, scaled, ZERO);
            Value::Number(numerics.compute(Op::Div, whole, t))
        },
        Err(e) => e,
    }
}

fn unary_text<P: Fn(&str) -> Option<Bits>, S: Fn(Bits) -> String, C: Fn(Op, Bits, Bits) -> Bits>(
    numerics: &Numerics<P, S, C>,
    f: Func,
    v: &Value,
) -> (r: Value)
    requires
        numerics.valid(),
    ensures
        r@ == if v@ is Error {
            v@
        } else {
            text_value(numerics.model(), f, display_text(numerics.model(), v@))
        },
{
    if is_error(v) {
        return v.clone();
    }
    let s = v.display(numerics);
    match f {
        Func::Len => {
            let n: usize = chars_of(s.as_str()).len();
            Value::Number(numerics.compute(Op::OfCount, n as u64, ZERO))
        },
        Func::Upper => Value::Text(unicode_upper(s.as_str())),
        Func::Lower => Value::Text(unicode_lower(s.as_str())),
        _ => {
            let t = trim(chars_of(s.as_str()).as_slice());
            Value::Text(string_of(t.as_slice()))
        },
    }
}

/// A count that is at most `max`.
fn at_most(n: u64, max: usize) -> (k: usize)
    ensures
        k == lesser(n as nat, max as nat),
{
    if n < max as u64 {
        n as usize
    } else {
        max
    }
}

fn text_slice<P: Fn(&str) -> Option<Bits>, S: Fn(Bits) -> String, C: Fn(Op, Bits, Bits) -> Bits>(
    numerics: &Numerics<P, S, C>,
    from_left: bool,
    v: &Value,
    n: &Value,
) -> (r: Value)
    requires
        numerics.valid(),
    ensures
        r@ == ValueV::Text(end_text(numerics.model(), from_left, v@, n@)),
{
    let chars = chars_of(v.display(numerics).as_str());
    let count: u64 = numerics.compute(Op::Truncate, num_or(numerics, n, ONE), ZERO);
    let k: usize = at_most(count, chars.len());
    let part = if from_left {
        slice_of(chars.as_slice(), 0, k)
    } else {
        slice_of(chars.as_slice(), chars.len() - k, chars.len())
    };
    assert(part@ =~= end_text(numerics.model(), from_left, v@, n@));
    Value::Text(string_of(part.as_slice()))
}

fn middle<P: Fn(&str) -> Option<Bits>, S: Fn(Bits) -> String, C: Fn(Op, Bits, Bits) -> Bits>(
    numerics: &Numerics<P, S, C>,
    v: &Value,
    start: &Value,
    n: &Value,
) -> (r: Value)
    requires
        numerics.valid(),
    ensures
        r@ == ValueV::Text(mid_text(numerics.model(), v@, start@, n@)),
{
    let chars = chars_of(v.display(numerics).as_str());
    let first: u64 = numerics.compute(Op::Truncate, num_or(numerics, start, ZERO), ZERO);
    let count: u64 = numerics.compute(Op::Truncate, num_or(numerics, n, ZERO), ZERO);
    let before: u64 = if first == 0 {
        0
    } else {
        first - 1
    };
    let from: usize = at_most(before, chars.len());
    let k: usize = at_most(count, chars.len() - from);
    let part = slice_of(chars.as_slice(), from, from + k);
    Value::Text(string_of(part.as_slice()))
}

/// A function of single values.
pub fn apply_scalar<
    P: Fn(&str) -> Option<Bits>,
    S: Fn(Bits) -> String,
    C: Fn(Op, Bits, Bits) -> Bits,
>(
    numerics: &Numerics<P, S, C>,
    f: Func,
    vals: &[Value],
) -> (v: Value)
    requires
        numerics.valid(),
        vals@.len() == arity(f),
    ensures
        v@ == scalar_value(numerics.model(), f, values_view(vals@)),
{
    match f {
        Func::Not => match truthy(numerics, &vals[0]) {
            Ok(b) => boolval(!b),
            Err(e) => e,
        },
        Func::Round => round(numerics, &vals[0], &vals[1]),
        Func::Abs => unary_num(numerics, Op::Abs, &vals[0]),
        Func::Int => unary_num(numerics, Op::Floor, &vals[0]),
        Func::Sqrt => unary_num(numerics, Op::Sqrt, &vals[0]),
        Func::Mod | Func::Power => binary_num(numerics, f, &vals[0], &vals[1]),
        Func::Left | Func::Right => text_slice(numerics, f == Func::Left, &vals[0], &vals[1]),
        Func::Mid => middle(numerics, &vals[0], &vals[1], &vals[2]),
        Func::Len | Func::Upper | Func::Lower | Func::Trim => unary_text(numerics, f, &vals[0]),
        _ => error("NAME"),
    }
}

} // verus!
