//! The parser of the formula language (precedence climbing).

use vstd::prelude::*;

use crate::ast::{exprs_view, BinOp, Expr, ExprV};
use crate::csv::doubled;
use crate::decimal::{decimal, decimal_denotes};
use crate::lex::{
    behind, first_token, lex, literal_text, name_is_one_token, number_is_one_token, signs_read,
    tokens, tokens_view, Tok, TokV,
};
use crate::num::{Bits, NumModel, Numerics, Op};
use crate::refs::{
    column_letters, column_letters_denote, parse_ref, reference_named, reference_reads_back,
    reference_text,
};
use crate::text::{
    ascii_upper, chars_are, chars_of, is_digit, is_letter, is_upper, string_of, to_ascii_upper,
};

verus! {

/// What parsing from a position gives: a formula and the position after it, or
/// an error code.
pub type ParseV = Result<(ExprV, int), Seq<char>>;

/// The operator that a token denotes between two operands.
pub open spec fn operator(t: TokV) -> Option<BinOp> {
    match t {
        TokV::Plus => Some(BinOp::Add),
        TokV::Minus => Some(BinOp::Sub),
        TokV::Star => Some(BinOp::Mul),
        TokV::Slash => Some(BinOp::Div),
        TokV::Caret => Some(BinOp::Pow),
        TokV::Amp => Some(BinOp::Concat),
        TokV::Eq => Some(BinOp::Eq),
        TokV::Ne => Some(BinOp::Ne),
        TokV::Lt => Some(BinOp::Lt),
        TokV::Le => Some(BinOp::Le),
        TokV::Gt => Some(BinOp::Gt),
        TokV::Ge => Some(BinOp::Ge),
        _ => None,
    }
}

/// How tightly an operator binds; higher binds tighter.
pub open spec fn binding(op: BinOp) -> u8 {
    match op {
        BinOp::Eq | BinOp::Ne | BinOp::Lt | BinOp::Le | BinOp::Gt | BinOp::Ge => 1,
        BinOp::Concat => 2,
        BinOp::Add | BinOp::Sub => 3,
        BinOp::Mul | BinOp::Div => 4,
        BinOp::Pow => 5,
    }
}

/// How tightly an operator to the right of `op` must bind to take `op`'s right
/// operand: as tightly as `op` where it groups to the right, more tightly
/// elsewhere.
pub open spec fn right_binding(op: BinOp) -> u8 {
    if op == BinOp::Pow {
        5
    } else {
        (binding(op) + 1) as u8
    }
}

/// Whether the token at `p` is `t`.
pub open spec fn token_is(toks: Seq<TokV>, p: int, t: TokV) -> bool {
    0 <= p < toks.len() && toks[p] == t
}

/// An expression of operators that bind at least as tightly as `min`.
pub open spec fn expr_at(toks: Seq<TokV>, p: int, min: u8) -> ParseV
    decreases toks.len() - p, 4nat,
{
    match prefix_at(toks, p) {
        Err(code) => Err(code),
        Ok((lhs, q)) => if p < q <= toks.len() {
            climb(toks, lhs, q, min)
        } else {
            Err("SYNTAX"@)
        },
    }
}

/// The expression that starts with the operand `lhs`, which ends at `p`.
pub open spec fn climb(toks: Seq<TokV>, lhs: ExprV, p: int, min: u8) -> ParseV
    decreases toks.len() - p, 0nat,
{
    if 0 <= p < toks.len() && operator(toks[p]) is Some && binding(operator(toks[p]).unwrap())
        >= min {
        let op = operator(toks[p]).unwrap();
        match expr_at(toks, p + 1, right_binding(op)) {
            Err(code) => Err(code),
            Ok((rhs, q)) => if p < q <= toks.len() {
                climb(toks, ExprV::Binary(op, Box::new(lhs), Box::new(rhs)), q, min)
            } else {
                Err("SYNTAX"@)
            },
        }
    } else {
        Ok((lhs, p))
    }
}

/// An operand with its signs. A sign binds tighter than every operator.
pub open spec fn prefix_at(toks: Seq<TokV>, p: int) -> ParseV
    decreases toks.len() - p, 3nat,
{
    if token_is(toks, p, TokV::Minus) {
        match expr_at(toks, p + 1, 8) {
            Err(code) => Err(code),
            Ok((e, q)) => Ok((ExprV::Unary('-', Box::new(e)), q)),
        }
    } else if token_is(toks, p, TokV::Plus) {
        expr_at(toks, p + 1, 8)
    } else {
        match atom_at(toks, p) {
            Err(code) => Err(code),
            Ok((e, q)) => Ok(percents(toks, e, q)),
        }
    }
}

/// The operand `e` with the percent signs that follow it from `p` on.
pub open spec fn percents(toks: Seq<TokV>, e: ExprV, p: int) -> (ExprV, int)
    decreases toks.len() - p,
{
    if token_is(toks, p, TokV::Percent) {
        percents(toks, ExprV::Unary('%', Box::new(e)), p + 1)
    } else {
        (e, p)
    }
}

/// A literal, a name or an expression in parentheses.
pub open spec fn atom_at(toks: Seq<TokV>, p: int) -> ParseV
    decreases toks.len() - p, 2nat,
{
    if !(0 <= p < toks.len()) {
        Err("SYNTAX"@)
    } else {
        match toks[p] {
            TokV::Num(n) => Ok((ExprV::Num(n), p + 1)),
            TokV::Str(s) => Ok((ExprV::Str(s), p + 1)),
            TokV::LParen => match expr_at(toks, p + 1, 0) {
                Err(code) => Err(code),
                Ok((e, q)) => if token_is(toks, q, TokV::RParen) {
                    Ok((e, q + 1))
                } else {
                    Err("SYNTAX"@)
                },
            },
            TokV::Name(name) => name_at(toks, name, p + 1),
            _ => Err("SYNTAX"@),
        }
    }
}

/// What a name that ends at `p` stands for: a function call, a range, a cell, a
/// truth value, or nothing.
pub open spec fn name_at(toks: Seq<TokV>, name: Seq<char>, p: int) -> ParseV
    decreases toks.len() - p, 1nat,
{
    if token_is(toks, p, TokV::LParen) {
        if token_is(toks, p + 1, TokV::RParen) {
            Ok((ExprV::Call(ascii_upper(name), Seq::empty()), p + 2))
        } else {
            match arguments_at(toks, p + 1) {
                Err(code) => Err(code),
                Ok((args, q)) => if token_is(toks, q, TokV::RParen) {
                    Ok((ExprV::Call(ascii_upper(name), args), q + 1))
                } else {
                    Err("SYNTAX"@)
                },
            }
        }
    } else {
        match reference_named(name) {
            Some((r, c)) => if token_is(toks, p, TokV::Colon) {
                match range_end(toks, p + 1) {
                    Some(b) => Ok((ExprV::Range((r, c), b), p + 2)),
                    None => Err("REF"@),
                }
            } else {
                Ok((ExprV::Ref(r, c), p))
            },
            None => if ascii_upper(name) == "TRUE"@ {
                Ok((ExprV::Bool(true), p))
            } else if ascii_upper(name) == "FALSE"@ {
                Ok((ExprV::Bool(false), p))
            } else {
                Ok((ExprV::ErrName, p))
            },
        }
    }
}

/// The cell that the token at `p` names.
pub open spec fn range_end(toks: Seq<TokV>, p: int) -> Option<(u32, u32)> {
    if 0 <= p < toks.len() {
        match toks[p] {
            TokV::Name(name) => reference_named(name),
            _ => None,
        }
    } else {
        None
    }
}

/// One or more expressions, separated by commas.
pub open spec fn arguments_at(toks: Seq<TokV>, p: int) -> Result<(Seq<ExprV>, int), Seq<char>>
    decreases toks.len() - p, 5nat,
{
    match expr_at(toks, p, 0) {
        Err(code) => Err(code),
        Ok((e, q)) => if token_is(toks, q, TokV::Comma) && p < q {
            match arguments_at(toks, q + 1) {
                Err(code) => Err(code),
                Ok((rest, end)) => Ok((seq![e] + rest, end)),
            }
        } else {
            Ok((seq![e], q))
        },
    }
}

/// The formula that the tokens make up.
pub open spec fn formula_of(toks: Seq<TokV>) -> Result<ExprV, Seq<char>> {
    match expr_at(toks, 0, 0) {
        Err(code) => Err(code),
        Ok((e, q)) => if q == toks.len() {
            Ok(e)
        } else {
            Err("SYNTAX"@)
        },
    }
}

/// The formula that a text, without its equals sign, denotes, or an error code.
pub open spec fn formula(m: NumModel, s: Seq<char>) -> Result<ExprV, Seq<char>> {
    match tokens(m, s) {
        Err(code) => Err(code),
        Ok(toks) => formula_of(toks),
    }
}

// ---- laws -----------------------------------------------------------------

/// The token that denotes an operator.
pub open spec fn operator_token(op: BinOp) -> TokV {
    match op {
        BinOp::Add => TokV::Plus,
        BinOp::Sub => TokV::Minus,
        BinOp::Mul => TokV::Star,
        BinOp::Div => TokV::Slash,
        BinOp::Pow => TokV::Caret,
        BinOp::Concat => TokV::Amp,
        BinOp::Eq => TokV::Eq,
        BinOp::Ne => TokV::Ne,
        BinOp::Lt => TokV::Lt,
        BinOp::Le => TokV::Le,
        BinOp::Gt => TokV::Gt,
        BinOp::Ge => TokV::Ge,
    }
}

/// Of two operators in a row, the second takes the middle operand where it
/// binds tighter, or where both are `^`; elsewhere the first does. So `^` groups
/// to the right and every other operator to the left.
pub proof fn operators_group_by_binding(a: Bits, b: Bits, c: Bits, first: BinOp, second: BinOp)
    ensures
        ({
            let (x, y, z) = (
                Box::new(ExprV::Num(a)),
                Box::new(ExprV::Num(b)),
                Box::new(ExprV::Num(c)),
            );
            let toks = seq![
                TokV::Num(a),
                operator_token(first),
                TokV::Num(b),
                operator_token(second),
                TokV::Num(c),
            ];
            formula_of(toks) == Ok::<ExprV, Seq<char>>(
                if binding(second) > binding(first) || (first == BinOp::Pow && second
                    == BinOp::Pow) {
                    ExprV::Binary(first, x, Box::new(ExprV::Binary(second, y, z)))
                } else {
                    ExprV::Binary(second, Box::new(ExprV::Binary(first, x, y)), z)
                },
            )
        }),
{
    let toks = seq![
        TokV::Num(a),
        operator_token(first),
        TokV::Num(b),
        operator_token(second),
        TokV::Num(c),
    ];
    assert(operator(toks[1]) == Some(first));
    assert(operator(toks[3]) == Some(second));
    reveal_with_fuel(climb, 3);
    reveal_with_fuel(expr_at, 4);
    assert(prefix_at(toks, 4) == Ok::<(ExprV, int), Seq<char>>((ExprV::Num(c), 5)));
    assert(prefix_at(toks, 2) == Ok::<(ExprV, int), Seq<char>>((ExprV::Num(b), 3)));
    assert(prefix_at(toks, 0) == Ok::<(ExprV, int), Seq<char>>((ExprV::Num(a), 1)));
    assert(expr_at(toks, 4, right_binding(second)) == Ok::<(ExprV, int), Seq<char>>(
        (ExprV::Num(c), 5),
    ));
}

/// A sign binds tighter than any operator: `-a op b` negates `a` alone.
pub proof fn sign_binds_tightest(a: Bits, b: Bits, op: BinOp)
    ensures
        formula_of(seq![TokV::Minus, TokV::Num(a), operator_token(op), TokV::Num(b)]) == Ok::<
            ExprV,
            Seq<char>,
        >(
            ExprV::Binary(
                op,
                Box::new(ExprV::Unary('-', Box::new(ExprV::Num(a)))),
                Box::new(ExprV::Num(b)),
            ),
        ),
{
    let toks = seq![TokV::Minus, TokV::Num(a), operator_token(op), TokV::Num(b)];
    assert(operator(toks[2]) == Some(op));
    reveal_with_fuel(climb, 2);
    reveal_with_fuel(expr_at, 3);
    assert(prefix_at(toks, 1) == Ok::<(ExprV, int), Seq<char>>((ExprV::Num(a), 2)));
    assert(expr_at(toks, 1, 8) == Ok::<(ExprV, int), Seq<char>>((ExprV::Num(a), 2)));
    assert(prefix_at(toks, 3) == Ok::<(ExprV, int), Seq<char>>((ExprV::Num(b), 4)));
    assert(expr_at(toks, 3, right_binding(op)) == Ok::<(ExprV, int), Seq<char>>(
        (ExprV::Num(b), 4),
    ));
}

/// How an operator is written.
pub open spec fn written(op: BinOp) -> Seq<char> {
    match op {
        BinOp::Add => seq!['+'],
        BinOp::Sub => seq!['-'],
        BinOp::Mul => seq!['*'],
        BinOp::Div => seq!['/'],
        BinOp::Pow => seq!['^'],
        BinOp::Concat => seq!['&'],
        BinOp::Eq => seq!['='],
        BinOp::Ne => seq!['<', '>'],
        BinOp::Lt => seq!['<'],
        BinOp::Le => seq!['<', '='],
        BinOp::Gt => seq!['>'],
        BinOp::Ge => seq!['>', '='],
    }
}

/// Whether a text is a number: digits and points that read as `n`.
pub open spec fn is_numeral(m: NumModel, x: Seq<char>, n: Bits) -> bool {
    &&& x.len() > 0
    &&& forall|i: int| 0 <= i < x.len() ==> ('0' <= #[trigger] x[i] <= '9' || x[i] == '.')
    &&& (m.parse)(x) == Some(n)
}

/// An operator before a number reads as its token.
proof fn operator_reads(m: NumModel, op: BinOp, rest: Seq<char>)
    requires
        rest.len() > 0,
        '0' <= rest[0] <= '9' || rest[0] == '.',
    ensures
        tokens(m, written(op) + rest) == behind(operator_token(op), tokens(m, rest)),
        !('0' <= (written(op) + rest)[0] <= '9' || (written(op) + rest)[0] == '.'),
{
    signs_read(m, rest);
}

/// The tokens of three numbers with operators between.
proof fn chain_reads(
    m: NumModel,
    x: Seq<char>,
    y: Seq<char>,
    z: Seq<char>,
    a: Bits,
    b: Bits,
    c: Bits,
    first: BinOp,
    second: BinOp,
)
    requires
        is_numeral(m, x, a),
        is_numeral(m, y, b),
        is_numeral(m, z, c),
    ensures
        tokens(m, x + written(first) + y + written(second) + z) == Ok::<Seq<TokV>, Seq<char>>(
            seq![
                TokV::Num(a),
                operator_token(first),
                TokV::Num(b),
                operator_token(second),
                TokV::Num(c),
            ],
        ),
{
    let none = Seq::<char>::empty();
    let empty = Seq::<TokV>::empty();
    assert(z + none =~= z);
    assert(tokens(m, none) == Ok::<Seq<TokV>, Seq<char>>(empty));
    number_is_one_token(m, z, none, c);
    assert(z[0] == z[0]);
    operator_reads(m, second, z);
    let t2 = written(second) + z;
    number_is_one_token(m, y, t2, b);
    let t3 = y + t2;
    assert(t3[0] == y[0]);
    operator_reads(m, first, t3);
    let t4 = written(first) + t3;
    number_is_one_token(m, x, t4, a);
    assert(x + t4 =~= x + written(first) + y + written(second) + z);
    let s1 = seq![TokV::Num(c)] + empty;
    let s2 = seq![operator_token(second)] + s1;
    let s3 = seq![TokV::Num(b)] + s2;
    let s4 = seq![operator_token(first)] + s3;
    let s5 = seq![TokV::Num(a)] + s4;
    assert(tokens(m, z) == Ok::<Seq<TokV>, Seq<char>>(s1));
    assert(tokens(m, t2) == Ok::<Seq<TokV>, Seq<char>>(s2));
    assert(tokens(m, t3) == Ok::<Seq<TokV>, Seq<char>>(s3));
    assert(tokens(m, t4) == Ok::<Seq<TokV>, Seq<char>>(s4));
    assert(s5 =~= seq![
        TokV::Num(a),
        operator_token(first),
        TokV::Num(b),
        operator_token(second),
        TokV::Num(c),
    ]);
}

/// The formula of two operators between three numbers, the second of which is applied
/// first.
pub open spec fn second_first(a: Bits, first: BinOp, b: Bits, second: BinOp, c: Bits) -> ExprV {
    ExprV::Binary(
        first,
        Box::new(ExprV::Num(a)),
        Box::new(
            ExprV::Binary(second, Box::new(ExprV::Num(b)), Box::new(ExprV::Num(c))),
        ),
    )
}

/// The formula of two operators between three numbers, the first of which is applied
/// first.
pub open spec fn first_first(a: Bits, first: BinOp, b: Bits, second: BinOp, c: Bits) -> ExprV {
    ExprV::Binary(
        second,
        Box::new(
            ExprV::Binary(first, Box::new(ExprV::Num(a)), Box::new(ExprV::Num(b))),
        ),
        Box::new(ExprV::Num(c)),
    )
}

/// `^` comes before `*` and `/`, these before `+` and `-`, these before `&`, and `&`
/// before the comparisons, on whichever side the tighter operator stands.
pub proof fn tighter_operators_first(
    m: NumModel,
    x: Seq<char>,
    y: Seq<char>,
    z: Seq<char>,
    a: Bits,
    b: Bits,
    c: Bits,
    loose: BinOp,
    tight: BinOp,
)
    requires
        is_numeral(m, x, a),
        is_numeral(m, y, b),
        is_numeral(m, z, c),
        match loose {
            BinOp::Mul | BinOp::Div => tight == BinOp::Pow,
            BinOp::Add | BinOp::Sub => tight == BinOp::Mul || tight == BinOp::Div || tight
                == BinOp::Pow,
            BinOp::Concat => tight == BinOp::Add || tight == BinOp::Sub || tight == BinOp::Mul
                || tight == BinOp::Div || tight == BinOp::Pow,
            BinOp::Pow => false,
            BinOp::Eq | BinOp::Ne | BinOp::Lt | BinOp::Le | BinOp::Gt | BinOp::Ge => tight
                == BinOp::Concat || tight == BinOp::Add || tight == BinOp::Sub || tight
                == BinOp::Mul || tight == BinOp::Div || tight == BinOp::Pow,
        },
    ensures
        formula(m, x + written(loose) + y + written(tight) + z) == Ok::<ExprV, Seq<char>>(
            second_first(a, loose, b, tight, c),
        ),
        formula(m, x + written(tight) + y + written(loose) + z) == Ok::<ExprV, Seq<char>>(
            first_first(a, tight, b, loose, c),
        ),
{
    chain_reads(m, x, y, z, a, b, c, loose, tight);
    chain_reads(m, x, y, z, a, b, c, tight, loose);
    operators_group_by_binding(a, b, c, loose, tight);
    operators_group_by_binding(a, b, c, tight, loose);
}

/// Operators of one rank are applied from the left: `*` and `/`, `+` and `-`, `&`, and
/// the comparisons; but `^` is applied from the right.
pub proof fn equal_operators_from_the_left(
    m: NumModel,
    x: Seq<char>,
    y: Seq<char>,
    z: Seq<char>,
    a: Bits,
    b: Bits,
    c: Bits,
    first: BinOp,
    second: BinOp,
)
    requires
        is_numeral(m, x, a),
        is_numeral(m, y, b),
        is_numeral(m, z, c),
        match first {
            BinOp::Mul | BinOp::Div => second == BinOp::Mul || second == BinOp::Div,
            BinOp::Add | BinOp::Sub => second == BinOp::Add || second == BinOp::Sub,
            BinOp::Concat => second == BinOp::Concat,
            BinOp::Pow => second == BinOp::Pow,
            BinOp::Eq | BinOp::Ne | BinOp::Lt | BinOp::Le | BinOp::Gt | BinOp::Ge => second
                == BinOp::Eq || second == BinOp::Ne || second == BinOp::Lt || second == BinOp::Le
                || second == BinOp::Gt || second == BinOp::Ge,
        },
    ensures
        formula(m, x + written(first) + y + written(second) + z) == Ok::<ExprV, Seq<char>>(
            if first == BinOp::Pow {
                second_first(a, first, b, second, c)
            } else {
                first_first(a, first, b, second, c)
            },
        ),
{
    chain_reads(m, x, y, z, a, b, c, first, second);
    operators_group_by_binding(a, b, c, first, second);
}

/// Parentheses come before every operator.
pub proof fn parentheses_first(a: Bits, b: Bits, c: Bits, first: BinOp, second: BinOp)
    ensures
        formula_of(
            seq![
                TokV::LParen,
                TokV::Num(a),
                operator_token(first),
                TokV::Num(b),
                TokV::RParen,
                operator_token(second),
                TokV::Num(c),
            ],
        ) == Ok::<ExprV, Seq<char>>(first_first(a, first, b, second, c)),
        formula_of(
            seq![
                TokV::Num(a),
                operator_token(first),
                TokV::LParen,
                TokV::Num(b),
                operator_token(second),
                TokV::Num(c),
                TokV::RParen,
            ],
        ) == Ok::<ExprV, Seq<char>>(second_first(a, first, b, second, c)),
{
    let s = seq![
        TokV::LParen,
        TokV::Num(a),
        operator_token(first),
        TokV::Num(b),
        TokV::RParen,
        operator_token(second),
        TokV::Num(c),
    ];
    one_operator(s, 1, a, first, b, 0);
    let inner = ExprV::Binary(first, Box::new(ExprV::Num(a)), Box::new(ExprV::Num(b)));
    assert(atom_at(s, 0) == Ok::<(ExprV, int), Seq<char>>((inner, 5)));
    assert(prefix_at(s, 0) == Ok::<(ExprV, int), Seq<char>>((inner, 5)));
    lone_number(s, 6, c, right_binding(second));
    assert(operator(s[5]) == Some(second));
    assert(climb(s, first_first(a, first, b, second, c), 7, 0) == Ok::<(ExprV, int), Seq<char>>(
        (first_first(a, first, b, second, c), 7),
    ));
    let t = seq![
        TokV::Num(a),
        operator_token(first),
        TokV::LParen,
        TokV::Num(b),
        operator_token(second),
        TokV::Num(c),
        TokV::RParen,
    ];
    one_operator(t, 3, b, second, c, 0);
    let inner = ExprV::Binary(second, Box::new(ExprV::Num(b)), Box::new(ExprV::Num(c)));
    assert(atom_at(t, 2) == Ok::<(ExprV, int), Seq<char>>((inner, 7)));
    assert(prefix_at(t, 2) == Ok::<(ExprV, int), Seq<char>>((inner, 7)));
    assert(climb(t, inner, 7, right_binding(first)) == Ok::<(ExprV, int), Seq<char>>((inner, 7)));
    assert(expr_at(t, 2, right_binding(first)) == Ok::<(ExprV, int), Seq<char>>((inner, 7)));
    assert(prefix_at(t, 0) == Ok::<(ExprV, int), Seq<char>>((ExprV::Num(a), 1)));
    assert(operator(t[1]) == Some(first));
    assert(climb(t, second_first(a, first, b, second, c), 7, 0) == Ok::<(ExprV, int), Seq<char>>(
        (second_first(a, first, b, second, c), 7),
    ));
}

/// A number that no operator follows.
proof fn lone_number(toks: Seq<TokV>, p: int, n: Bits, min: u8)
    requires
        0 <= p < toks.len(),
        toks[p] == TokV::Num(n),
        p + 1 < toks.len() ==> operator(toks[p + 1]) is None && toks[p + 1] != TokV::Percent,
    ensures
        expr_at(toks, p, min) == Ok::<(ExprV, int), Seq<char>>((ExprV::Num(n), p + 1)),
{
    assert(prefix_at(toks, p) == Ok::<(ExprV, int), Seq<char>>((ExprV::Num(n), p + 1)));
}

/// Two numbers with an operator between, which no operator follows.
proof fn one_operator(toks: Seq<TokV>, p: int, a: Bits, op: BinOp, b: Bits, min: u8)
    requires
        0 <= p,
        p + 2 < toks.len(),
        toks[p] == TokV::Num(a),
        toks[p + 1] == operator_token(op),
        toks[p + 2] == TokV::Num(b),
        p + 3 < toks.len() ==> operator(toks[p + 3]) is None && toks[p + 3] != TokV::Percent,
        min <= binding(op),
    ensures
        expr_at(toks, p, min) == Ok::<(ExprV, int), Seq<char>>(
            (ExprV::Binary(op, Box::new(ExprV::Num(a)), Box::new(ExprV::Num(b))), p + 3),
        ),
{
    lone_number(toks, p + 2, b, right_binding(op));
    assert(operator(toks[p + 1]) == Some(op));
    assert(prefix_at(toks, p) == Ok::<(ExprV, int), Seq<char>>((ExprV::Num(a), p + 1)));
    let e = ExprV::Binary(op, Box::new(ExprV::Num(a)), Box::new(ExprV::Num(b)));
    assert(climb(toks, e, p + 3, min) == Ok::<(ExprV, int), Seq<char>>((e, p + 3)));
}

/// A percent sign belongs to the operand before it, a plus sign before an operand means
/// nothing, and signs add up.
pub proof fn signs_belong_to_operands(a: Bits, b: Bits, op: BinOp)
    ensures
        ({
            let (x, y) = (Box::new(ExprV::Num(a)), Box::new(ExprV::Num(b)));
            &&& formula_of(
                seq![TokV::Num(a), operator_token(op), TokV::Num(b), TokV::Percent],
            ) == Ok::<ExprV, Seq<char>>(
                ExprV::Binary(op, x, Box::new(ExprV::Unary('%', y))),
            )
            &&& formula_of(seq![TokV::Plus, TokV::Num(a)]) == Ok::<ExprV, Seq<char>>(*x)
            &&& formula_of(seq![TokV::Minus, TokV::Num(a), TokV::Percent]) == Ok::<
                ExprV,
                Seq<char>,
            >(ExprV::Unary('-', Box::new(ExprV::Unary('%', x))))
        }),
{
    let s = seq![TokV::Num(a), operator_token(op), TokV::Num(b), TokV::Percent];
    let p = ExprV::Unary('%', Box::new(ExprV::Num(b)));
    assert(operator(s[1]) == Some(op));
    assert(atom_at(s, 2) == Ok::<(ExprV, int), Seq<char>>((ExprV::Num(b), 3)));
    reveal_with_fuel(percents, 2);
    assert(prefix_at(s, 2) == Ok::<(ExprV, int), Seq<char>>((p, 4)));
    assert(climb(s, p, 4, right_binding(op)) == Ok::<(ExprV, int), Seq<char>>((p, 4)));
    assert(expr_at(s, 2, right_binding(op)) == Ok::<(ExprV, int), Seq<char>>((p, 4)));
    assert(prefix_at(s, 0) == Ok::<(ExprV, int), Seq<char>>((ExprV::Num(a), 1)));
    let e = ExprV::Binary(op, Box::new(ExprV::Num(a)), Box::new(p));
    assert(climb(s, e, 4, 0) == Ok::<(ExprV, int), Seq<char>>((e, 4)));
    let t = seq![TokV::Plus, TokV::Num(a)];
    lone_number(t, 1, a, 8);
    assert(prefix_at(t, 0) == Ok::<(ExprV, int), Seq<char>>((ExprV::Num(a), 2)));
    assert(climb(t, ExprV::Num(a), 2, 0) == Ok::<(ExprV, int), Seq<char>>((ExprV::Num(a), 2)));
    let u = seq![TokV::Minus, TokV::Num(a), TokV::Percent];
    let q = ExprV::Unary('%', Box::new(ExprV::Num(a)));
    assert(atom_at(u, 1) == Ok::<(ExprV, int), Seq<char>>((ExprV::Num(a), 2)));
    assert(prefix_at(u, 1) == Ok::<(ExprV, int), Seq<char>>((q, 3)));
    assert(expr_at(u, 1, 8) == Ok::<(ExprV, int), Seq<char>>((q, 3)));
    let n = ExprV::Unary('-', Box::new(q));
    assert(prefix_at(u, 0) == Ok::<(ExprV, int), Seq<char>>((n, 3)));
    assert(climb(u, n, 3, 0) == Ok::<(ExprV, int), Seq<char>>((n, 3)));
}

/// What is no formula: nothing, an operator without an operand on its right or, but for
/// the signs, on its left, two operands with no operator between, a parenthesis that is
/// not closed, or not opened, and an argument that is missing. A range that does not end
/// in a cell is REF.
pub proof fn unfinished_formulas_are_refused(
    a: Bits,
    b: Bits,
    op: BinOp,
    name: Seq<char>,
    x: Seq<char>,
    y: Seq<char>,
    p: (u32, u32),
)
    requires
        reference_named(x) == Some(p),
        reference_named(y) is None,
    ensures
        formula_of(seq![]) == Err::<ExprV, Seq<char>>("SYNTAX"@),
        formula_of(seq![TokV::Num(a), operator_token(op)]) == Err::<ExprV, Seq<char>>("SYNTAX"@),
        op != BinOp::Add && op != BinOp::Sub ==> formula_of(seq![operator_token(op), TokV::Num(a)])
            == Err::<ExprV, Seq<char>>("SYNTAX"@),
        formula_of(seq![TokV::Num(a), TokV::Num(b)]) == Err::<ExprV, Seq<char>>("SYNTAX"@),
        formula_of(seq![TokV::LParen, TokV::Num(a)]) == Err::<ExprV, Seq<char>>("SYNTAX"@),
        formula_of(seq![TokV::LParen, TokV::Num(a), TokV::Comma]) == Err::<ExprV, Seq<char>>(
            "SYNTAX"@,
        ),
        formula_of(seq![TokV::Num(a), TokV::RParen]) == Err::<ExprV, Seq<char>>("SYNTAX"@),
        formula_of(seq![TokV::LParen, TokV::RParen]) == Err::<ExprV, Seq<char>>("SYNTAX"@),
        formula_of(seq![TokV::Name(name), TokV::LParen]) == Err::<ExprV, Seq<char>>("SYNTAX"@),
        formula_of(seq![TokV::Name(name), TokV::LParen, TokV::Num(a)]) == Err::<ExprV, Seq<char>>(
            "SYNTAX"@,
        ),
        formula_of(seq![TokV::Name(name), TokV::LParen, TokV::Num(a), TokV::Comma, TokV::RParen])
            == Err::<ExprV, Seq<char>>("SYNTAX"@),
        formula_of(seq![TokV::Name(x), TokV::Colon]) == Err::<ExprV, Seq<char>>("REF"@),
        formula_of(seq![TokV::Name(x), TokV::Colon, TokV::Num(a)]) == Err::<ExprV, Seq<char>>(
            "REF"@,
        ),
        formula_of(seq![TokV::Name(x), TokV::Colon, TokV::Name(y)]) == Err::<ExprV, Seq<char>>(
            "REF"@,
        ),
{
    let n = ExprV::Num(a);
    let none = Seq::<TokV>::empty();
    assert(atom_at(none, 0) == Err::<(ExprV, int), Seq<char>>("SYNTAX"@));
    assert(prefix_at(none, 0) == Err::<(ExprV, int), Seq<char>>("SYNTAX"@));
    hanging_operators(a, op);
    let two = seq![TokV::Num(a), TokV::Num(b)];
    lone_number(two, 0, a, 0);
    unclosed_parentheses(a, b);
    unclosed_calls(a, name);
    unended_ranges(a, x, y, p);
}

proof fn hanging_operators(a: Bits, op: BinOp)
    ensures
        formula_of(seq![TokV::Num(a), operator_token(op)]) == Err::<ExprV, Seq<char>>("SYNTAX"@),
        op != BinOp::Add && op != BinOp::Sub ==> formula_of(seq![operator_token(op), TokV::Num(a)])
            == Err::<ExprV, Seq<char>>("SYNTAX"@),
{
    let n = ExprV::Num(a);
    let s = seq![TokV::Num(a), operator_token(op)];
    assert(atom_at(s, 0) == Ok::<(ExprV, int), Seq<char>>((n, 1)));
    assert(percents(s, n, 1) == (n, 1int));
    assert(prefix_at(s, 0) == Ok::<(ExprV, int), Seq<char>>((n, 1)));
    assert(operator(s[1]) == Some(op));
    assert(atom_at(s, 2) == Err::<(ExprV, int), Seq<char>>("SYNTAX"@));
    assert(prefix_at(s, 2) == Err::<(ExprV, int), Seq<char>>("SYNTAX"@));
    assert(expr_at(s, 2, right_binding(op)) == Err::<(ExprV, int), Seq<char>>("SYNTAX"@));
    assert(climb(s, n, 1, 0) == Err::<(ExprV, int), Seq<char>>("SYNTAX"@));
    let t = seq![operator_token(op), TokV::Num(a)];
    if op != BinOp::Add && op != BinOp::Sub {
        assert(atom_at(t, 0) == Err::<(ExprV, int), Seq<char>>("SYNTAX"@));
        assert(prefix_at(t, 0) == Err::<(ExprV, int), Seq<char>>("SYNTAX"@));
    }
}

proof fn unclosed_parentheses(a: Bits, b: Bits)
    ensures
        formula_of(seq![TokV::Num(a), TokV::Num(b)]) == Err::<ExprV, Seq<char>>("SYNTAX"@),
        formula_of(seq![TokV::LParen, TokV::Num(a)]) == Err::<ExprV, Seq<char>>("SYNTAX"@),
        formula_of(seq![TokV::LParen, TokV::Num(a), TokV::Comma]) == Err::<ExprV, Seq<char>>(
            "SYNTAX"@,
        ),
        formula_of(seq![TokV::Num(a), TokV::RParen]) == Err::<ExprV, Seq<char>>("SYNTAX"@),
        formula_of(seq![TokV::LParen, TokV::RParen]) == Err::<ExprV, Seq<char>>("SYNTAX"@),
{
    let two = seq![TokV::Num(a), TokV::Num(b)];
    lone_number(two, 0, a, 0);
    let s = seq![TokV::LParen, TokV::Num(a)];
    lone_number(s, 1, a, 0);
    assert(atom_at(s, 0) == Err::<(ExprV, int), Seq<char>>("SYNTAX"@));
    assert(prefix_at(s, 0) == Err::<(ExprV, int), Seq<char>>("SYNTAX"@));
    let t = seq![TokV::LParen, TokV::Num(a), TokV::Comma];
    lone_number(t, 1, a, 0);
    assert(atom_at(t, 0) == Err::<(ExprV, int), Seq<char>>("SYNTAX"@));
    assert(prefix_at(t, 0) == Err::<(ExprV, int), Seq<char>>("SYNTAX"@));
    let u = seq![TokV::Num(a), TokV::RParen];
    lone_number(u, 0, a, 0);
    let v = seq![TokV::LParen, TokV::RParen];
    assert(atom_at(v, 1) == Err::<(ExprV, int), Seq<char>>("SYNTAX"@));
    assert(prefix_at(v, 1) == Err::<(ExprV, int), Seq<char>>("SYNTAX"@));
    assert(expr_at(v, 1, 0) == Err::<(ExprV, int), Seq<char>>("SYNTAX"@));
    assert(atom_at(v, 0) == Err::<(ExprV, int), Seq<char>>("SYNTAX"@));
    assert(prefix_at(v, 0) == Err::<(ExprV, int), Seq<char>>("SYNTAX"@));
}

proof fn unclosed_calls(a: Bits, name: Seq<char>)
    ensures
        formula_of(seq![TokV::Name(name), TokV::LParen]) == Err::<ExprV, Seq<char>>("SYNTAX"@),
        formula_of(seq![TokV::Name(name), TokV::LParen, TokV::Num(a)]) == Err::<ExprV, Seq<char>>(
            "SYNTAX"@,
        ),
        formula_of(seq![TokV::Name(name), TokV::LParen, TokV::Num(a), TokV::Comma, TokV::RParen])
            == Err::<ExprV, Seq<char>>("SYNTAX"@),
{
    let s = seq![TokV::Name(name), TokV::LParen];
    assert(atom_at(s, 2) == Err::<(ExprV, int), Seq<char>>("SYNTAX"@));
    assert(prefix_at(s, 2) == Err::<(ExprV, int), Seq<char>>("SYNTAX"@));
    assert(expr_at(s, 2, 0) == Err::<(ExprV, int), Seq<char>>("SYNTAX"@));
    assert(arguments_at(s, 2) == Err::<(Seq<ExprV>, int), Seq<char>>("SYNTAX"@));
    assert(name_at(s, name, 1) == Err::<(ExprV, int), Seq<char>>("SYNTAX"@));
    assert(atom_at(s, 0) == Err::<(ExprV, int), Seq<char>>("SYNTAX"@));
    assert(prefix_at(s, 0) == Err::<(ExprV, int), Seq<char>>("SYNTAX"@));
    let t = seq![TokV::Name(name), TokV::LParen, TokV::Num(a)];
    lone_number(t, 2, a, 0);
    assert(arguments_at(t, 2) == Ok::<(Seq<ExprV>, int), Seq<char>>((seq![ExprV::Num(a)], 3)));
    assert(name_at(t, name, 1) == Err::<(ExprV, int), Seq<char>>("SYNTAX"@));
    assert(atom_at(t, 0) == Err::<(ExprV, int), Seq<char>>("SYNTAX"@));
    assert(prefix_at(t, 0) == Err::<(ExprV, int), Seq<char>>("SYNTAX"@));
    let u = seq![TokV::Name(name), TokV::LParen, TokV::Num(a), TokV::Comma, TokV::RParen];
    lone_number(u, 2, a, 0);
    assert(atom_at(u, 4) == Err::<(ExprV, int), Seq<char>>("SYNTAX"@));
    assert(prefix_at(u, 4) == Err::<(ExprV, int), Seq<char>>("SYNTAX"@));
    assert(expr_at(u, 4, 0) == Err::<(ExprV, int), Seq<char>>("SYNTAX"@));
    assert(arguments_at(u, 4) == Err::<(Seq<ExprV>, int), Seq<char>>("SYNTAX"@));
    assert(arguments_at(u, 2) == Err::<(Seq<ExprV>, int), Seq<char>>("SYNTAX"@));
    assert(name_at(u, name, 1) == Err::<(ExprV, int), Seq<char>>("SYNTAX"@));
    assert(atom_at(u, 0) == Err::<(ExprV, int), Seq<char>>("SYNTAX"@));
    assert(prefix_at(u, 0) == Err::<(ExprV, int), Seq<char>>("SYNTAX"@));
}

proof fn unended_ranges(a: Bits, x: Seq<char>, y: Seq<char>, p: (u32, u32))
    requires
        reference_named(x) == Some(p),
        reference_named(y) is None,
    ensures
        formula_of(seq![TokV::Name(x), TokV::Colon]) == Err::<ExprV, Seq<char>>("REF"@),
        formula_of(seq![TokV::Name(x), TokV::Colon, TokV::Num(a)]) == Err::<ExprV, Seq<char>>(
            "REF"@,
        ),
        formula_of(seq![TokV::Name(x), TokV::Colon, TokV::Name(y)]) == Err::<ExprV, Seq<char>>(
            "REF"@,
        ),
{
    let s = seq![TokV::Name(x), TokV::Colon];
    assert(name_at(s, x, 1) == Err::<(ExprV, int), Seq<char>>("REF"@));
    assert(atom_at(s, 0) == Err::<(ExprV, int), Seq<char>>("REF"@));
    assert(prefix_at(s, 0) == Err::<(ExprV, int), Seq<char>>("REF"@));
    let t = seq![TokV::Name(x), TokV::Colon, TokV::Num(a)];
    assert(name_at(t, x, 1) == Err::<(ExprV, int), Seq<char>>("REF"@));
    assert(atom_at(t, 0) == Err::<(ExprV, int), Seq<char>>("REF"@));
    assert(prefix_at(t, 0) == Err::<(ExprV, int), Seq<char>>("REF"@));
    let u = seq![TokV::Name(x), TokV::Colon, TokV::Name(y)];
    assert(name_at(u, x, 1) == Err::<(ExprV, int), Seq<char>>("REF"@));
    assert(atom_at(u, 0) == Err::<(ExprV, int), Seq<char>>("REF"@));
    assert(prefix_at(u, 0) == Err::<(ExprV, int), Seq<char>>("REF"@));
}

/// A name before parentheses is a call of the function of that name, in capitals, with
/// the arguments that commas separate; two cells with a colon between are the range
/// between them; and other names are truth values or nothing.
pub proof fn names_mean(
    name: Seq<char>,
    a: Bits,
    b: Bits,
    x: Seq<char>,
    y: Seq<char>,
    p: (u32, u32),
    q: (u32, u32),
)
    requires
        reference_named(x) == Some(p),
        reference_named(y) == Some(q),
    ensures
        formula_of(seq![TokV::Name(name), TokV::LParen, TokV::RParen]) == Ok::<ExprV, Seq<char>>(
            ExprV::Call(ascii_upper(name), Seq::empty()),
        ),
        formula_of(
            seq![
                TokV::Name(name),
                TokV::LParen,
                TokV::Num(a),
                TokV::Comma,
                TokV::Num(b),
                TokV::RParen,
            ],
        ) == Ok::<ExprV, Seq<char>>(
            ExprV::Call(ascii_upper(name), seq![ExprV::Num(a), ExprV::Num(b)]),
        ),
        formula_of(seq![TokV::Name(x), TokV::Colon, TokV::Name(y)]) == Ok::<ExprV, Seq<char>>(
            ExprV::Range(p, q),
        ),
        formula_of(seq![TokV::Name(x)]) == Ok::<ExprV, Seq<char>>(ExprV::Ref(p.0, p.1)),
        reference_named(name) is None ==> formula_of(seq![TokV::Name(name)]) == Ok::<
            ExprV,
            Seq<char>,
        >(
            if ascii_upper(name) == "TRUE"@ {
                ExprV::Bool(true)
            } else if ascii_upper(name) == "FALSE"@ {
                ExprV::Bool(false)
            } else {
                ExprV::ErrName
            },
        ),
{
    let s = seq![TokV::Name(name), TokV::LParen, TokV::RParen];
    let e = ExprV::Call(ascii_upper(name), Seq::empty());
    assert(atom_at(s, 0) == Ok::<(ExprV, int), Seq<char>>((e, 3)));
    assert(prefix_at(s, 0) == Ok::<(ExprV, int), Seq<char>>((e, 3)));
    assert(climb(s, e, 3, 0) == Ok::<(ExprV, int), Seq<char>>((e, 3)));
    let t = seq![
        TokV::Name(name),
        TokV::LParen,
        TokV::Num(a),
        TokV::Comma,
        TokV::Num(b),
        TokV::RParen,
    ];
    let args = seq![ExprV::Num(a), ExprV::Num(b)];
    let f = ExprV::Call(ascii_upper(name), args);
    lone_number(t, 2, a, 0);
    lone_number(t, 4, b, 0);
    assert(arguments_at(t, 4) == Ok::<(Seq<ExprV>, int), Seq<char>>((seq![ExprV::Num(b)], 5)));
    assert(seq![ExprV::Num(a)] + seq![ExprV::Num(b)] =~= args);
    assert(arguments_at(t, 2) == Ok::<(Seq<ExprV>, int), Seq<char>>((args, 5)));
    assert(name_at(t, name, 1) == Ok::<(ExprV, int), Seq<char>>((f, 6)));
    assert(atom_at(t, 0) == Ok::<(ExprV, int), Seq<char>>((f, 6)));
    assert(prefix_at(t, 0) == Ok::<(ExprV, int), Seq<char>>((f, 6)));
    assert(climb(t, f, 6, 0) == Ok::<(ExprV, int), Seq<char>>((f, 6)));
    let u = seq![TokV::Name(x), TokV::Colon, TokV::Name(y)];
    let g = ExprV::Range(p, q);
    assert(name_at(u, x, 1) == Ok::<(ExprV, int), Seq<char>>((g, 3)));
    assert(atom_at(u, 0) == Ok::<(ExprV, int), Seq<char>>((g, 3)));
    assert(prefix_at(u, 0) == Ok::<(ExprV, int), Seq<char>>((g, 3)));
    assert(climb(u, g, 3, 0) == Ok::<(ExprV, int), Seq<char>>((g, 3)));
    let h = ExprV::Ref(p.0, p.1);
    assert(atom_at(seq![TokV::Name(x)], 0) == Ok::<(ExprV, int), Seq<char>>((h, 1)));
    one_token(TokV::Name(x), h);
    if reference_named(name) is None {
        let k = if ascii_upper(name) == "TRUE"@ {
            ExprV::Bool(true)
        } else if ascii_upper(name) == "FALSE"@ {
            ExprV::Bool(false)
        } else {
            ExprV::ErrName
        };
        assert(atom_at(seq![TokV::Name(name)], 0) == Ok::<(ExprV, int), Seq<char>>((k, 1)));
        one_token(TokV::Name(name), k);
    }
}

/// A single token that stands for an operand is a formula.
proof fn one_token(t: TokV, e: ExprV)
    requires
        atom_at(seq![t], 0) == Ok::<(ExprV, int), Seq<char>>((e, 1)),
        t != TokV::Minus,
        t != TokV::Plus,
    ensures
        formula_of(seq![t]) == Ok::<ExprV, Seq<char>>(e),
{
    let toks = seq![t];
    assert(prefix_at(toks, 0) == Ok::<(ExprV, int), Seq<char>>((e, 1)));
    assert(climb(toks, e, 1, 0) == Ok::<(ExprV, int), Seq<char>>((e, 1)));
}

/// A text in quotes, its own quotes doubled, is the formula of that text.
pub proof fn quoted_text_is_itself(m: NumModel, t: Seq<char>)
    ensures
        formula(m, seq!['"'] + doubled(t) + seq!['"']) == Ok::<ExprV, Seq<char>>(ExprV::Str(t)),
{
    let s = seq!['"'] + doubled(t) + seq!['"'];
    let tok = TokV::Str(t);
    literal_text(t, Seq::empty());
    assert(s.skip(1) =~= doubled(t) + seq!['"'] + Seq::<char>::empty());
    assert(first_token(m, s) == Ok::<(TokV, nat), Seq<char>>((tok, s.len())));
    assert(s.skip(s.len() as int) =~= Seq::<char>::empty());
    assert(tokens(m, s.skip(s.len() as int)) == Ok::<Seq<TokV>, Seq<char>>(Seq::empty()));
    assert(seq![tok] + Seq::<TokV>::empty() =~= seq![tok]);
    one_token(tok, ExprV::Str(t));
}

/// The name of a cell is the formula that refers to it.
pub proof fn cell_name_refers_to_cell(m: NumModel, r: u32, c: u32)
    requires
        r < u32::MAX,
        c < u32::MAX,
    ensures
        formula(m, reference_text(r as nat, c as nat)) == Ok::<ExprV, Seq<char>>(ExprV::Ref(r, c)),
{
    let letters = column_letters(c as nat);
    let digits = decimal((r + 1) as nat);
    let s = reference_text(r as nat, c as nat);
    column_letters_denote(c as nat);
    decimal_denotes((r + 1) as nat);
    assert forall|i: int| 0 <= i < s.len() implies is_letter(#[trigger] s[i]) || is_digit(
        s[i],
    ) by {
        if i < letters.len() {
            assert(is_upper(letters[i]));
        } else {
            assert(is_digit(digits[i - letters.len()]));
        }
    }
    assert(is_upper(letters[0]));
    name_is_one_token(m, s);
    reference_reads_back(r, c);
    let toks = seq![TokV::Name(s)];
    assert(name_at(toks, s, 1) == Ok::<(ExprV, int), Seq<char>>((ExprV::Ref(r, c), 1)));
    one_token(TokV::Name(s), ExprV::Ref(r, c));
}

// ---- functions ------------------------------------------------------------

/// The operator that a token denotes between two operands.
pub fn binop(t: &Tok) -> (r: Option<BinOp>)
    ensures
        r == operator(t@),
{
    match t {
        Tok::Plus => Some(BinOp::Add),
        Tok::Minus => Some(BinOp::Sub),
        Tok::Star => Some(BinOp::Mul),
        Tok::Slash => Some(BinOp::Div),
        Tok::Caret => Some(BinOp::Pow),
        Tok::Amp => Some(BinOp::Concat),
        Tok::Eq => Some(BinOp::Eq),
        Tok::Ne => Some(BinOp::Ne),
        Tok::Lt => Some(BinOp::Lt),
        Tok::Le => Some(BinOp::Le),
        Tok::Gt => Some(BinOp::Gt),
        Tok::Ge => Some(BinOp::Ge),
        _ => None,
    }
}

/// Left binding power. Higher binds tighter. `^` is right-associative, which
/// the caller sees to.
pub fn lbp(op: BinOp) -> (r: u8)
    ensures
        r == binding(op),
{
    match op {
        BinOp::Eq | BinOp::Ne | BinOp::Lt | BinOp::Le | BinOp::Gt | BinOp::Ge => 1,
        BinOp::Concat => 2,
        BinOp::Add | BinOp::Sub => 3,
        BinOp::Mul | BinOp::Div => 4,
        BinOp::Pow => 5,
    }
}

/// A parser: the tokens, and the position of the next one.
struct Parser {
    toks: Vec<Tok>,
    pos: usize,
}

/// What `r`, returned by a parser now at `pos`, says about parsing.
spec fn outcome(r: Result<Expr, String>, pos: usize) -> ParseV {
    match r {
        Ok(e) => Ok((e@, pos as int)),
        Err(code) => Err(code@),
    }
}

impl Parser {
    spec fn view(&self) -> Seq<TokV> {
        tokens_view(self.toks@)
    }

    spec fn inv(&self) -> bool {
        self.pos <= self.toks@.len()
    }

    /// The parser has moved forward over the same tokens.
    spec fn moved(&self, before: Parser) -> bool {
        &&& self.toks == before.toks
        &&& before.pos < self.pos <= self.toks@.len()
    }

    fn peek(&self) -> (r: Option<&Tok>)
        requires
            self.inv(),
        ensures
            match r {
                Some(t) => self.pos < self.toks@.len() <= usize::MAX && *t
                    == self.toks@[self.pos as int] && t@ == self@[self.pos as int],
                None => self.pos == self.toks@.len(),
            },
    {
        if self.pos < self.toks.len() {
            Some(&self.toks[self.pos])
        } else {
            None
        }
    }

    /// Whether a closing parenthesis comes next; moves over it if so.
    fn expect_rparen(&mut self) -> (r: Result<(), String>)
        requires
            old(self).inv(),
        ensures
            final(self).toks == old(self).toks,
            final(self).inv(),
            match r {
                Ok(_) => token_is(old(self)@, old(self).pos as int, TokV::RParen)
                    && final(self).pos == old(self).pos + 1,
                Err(code) => !token_is(old(self)@, old(self).pos as int, TokV::RParen) && code@
                    == "SYNTAX"@,
            },
    {
        match self.peek() {
            Some(Tok::RParen) => {
                self.pos = self.pos + 1;
                Ok(())
            },
            _ => Err("SYNTAX".to_owned()),
        }
    }

    fn expr(&mut self, min_bp: u8) -> (r: Result<Expr, String>)
        requires
            old(self).inv(),
        ensures
            outcome(r, final(self).pos) == expr_at(old(self)@, old(self).pos as int, min_bp),
            r is Ok ==> final(self).moved(*old(self)),
        decreases old(self).toks@.len() - old(self).pos, 5nat,
    {
        let ghost before = *self;
        let mut lhs = match self.prefix() {
            Ok(e) => e,
            Err(code) => {
                return Err(code);
            },
        };
        loop
            invariant
                before == *old(self),
                before.inv(),
                self.moved(before),
                expr_at(before@, before.pos as int, min_bp) == climb(
                    before@,
                    lhs@,
                    self.pos as int,
                    min_bp,
                ),
            decreases self.toks@.len() - self.pos,
        {
            let op = match self.peek() {
                Some(t) => match binop(t) {
                    Some(op) => op,
                    None => {
                        return Ok(lhs);
                    },
                },
                None => {
                    return Ok(lhs);
                },
            };
            let bp: u8 = lbp(op);
            if bp < min_bp {
                return Ok(lhs);
            }
            self.pos = self.pos + 1;
            let next_min: u8 = if op == BinOp::Pow {
                bp
            } else {
                bp + 1
            };
            match self.expr(next_min) {
                Ok(rhs) => {
                    lhs = Expr::Binary(op, Box::new(lhs), Box::new(rhs));
                },
                Err(code) => {
                    return Err(code);
                },
            }
        }
    }

    fn prefix(&mut self) -> (r: Result<Expr, String>)
        requires
            old(self).inv(),
        ensures
            outcome(r, final(self).pos) == prefix_at(old(self)@, old(self).pos as int),
            r is Ok ==> final(self).moved(*old(self)),
        decreases old(self).toks@.len() - old(self).pos, 4nat,
    {
        match self.peek() {
            Some(Tok::Minus) => {
                self.pos = self.pos + 1;
                match self.expr(8) {
                    Ok(e) => Ok(Expr::Unary('-', Box::new(e))),
                    Err(code) => Err(code),
                }
            },
            Some(Tok::Plus) => {
                self.pos = self.pos + 1;
                self.expr(8)
            },
            _ => self.primary(),
        }
    }

    fn primary(&mut self) -> (r: Result<Expr, String>)
        requires
            old(self).inv(),
        ensures
            outcome(r, final(self).pos) == match atom_at(old(self)@, old(self).pos as int) {
                Err(code) => Err::<(ExprV, int), Seq<char>>(code),
                Ok((e, q)) => Ok(percents(old(self)@, e, q)),
            },
            r is Ok ==> final(self).moved(*old(self)),
        decreases old(self).toks@.len() - old(self).pos, 3nat,
    {
        let ghost before = *self;
        let mut e = match self.atom() {
            Ok(e) => e,
            Err(code) => {
                return Err(code);
            },
        };
        let ghost whole = percents(before@, e@, self.pos as int);
        loop
            invariant
                self.moved(before),
                whole == percents(before@, e@, self.pos as int),
            ensures
                self.moved(before),
                whole == (e@, self.pos as int),
            decreases self.toks@.len() - self.pos,
        {
            match self.peek() {
                Some(Tok::Percent) => {
                    self.pos = self.pos + 1;
                    e = Expr::Unary('%', Box::new(e));
                },
                _ => {
                    break;
                },
            }
        }
        Ok(e)
    }

    fn atom(&mut self) -> (r: Result<Expr, String>)
        requires
            old(self).inv(),
        ensures
            outcome(r, final(self).pos) == atom_at(old(self)@, old(self).pos as int),
            r is Ok ==> final(self).moved(*old(self)),
        decreases old(self).toks@.len() - old(self).pos, 2nat,
    {
        let name = match self.peek() {
            None => {
                return Err("SYNTAX".to_owned());
            },
            Some(Tok::Num(n)) => {
                let e = Expr::Num(*n);
                self.pos = self.pos + 1;
                return Ok(e);
            },
            Some(Tok::Str(s)) => {
                let e = Expr::Str(s.clone());
                self.pos = self.pos + 1;
                return Ok(e);
            },
            Some(Tok::LParen) => {
                self.pos = self.pos + 1;
                let e = match self.expr(0) {
                    Ok(e) => e,
                    Err(code) => {
                        return Err(code);
                    },
                };
                return match self.expect_rparen() {
                    Ok(_) => Ok(e),
                    Err(code) => Err(code),
                };
            },
            Some(Tok::Name(name)) => name.clone(),
            Some(_) => {
                return Err("SYNTAX".to_owned());
            },
        };
        self.pos = self.pos + 1;
        self.name(name)
    }

    fn name(&mut self, name: String) -> (r: Result<Expr, String>)
        requires
            old(self).inv(),
            old(self).pos > 0,
        ensures
            outcome(r, final(self).pos) == name_at(old(self)@, name@, old(self).pos as int),
            r is Ok ==> final(self).toks == old(self).toks && old(self).pos <= final(self).pos
                && final(self).inv(),
        decreases old(self).toks@.len() - old(self).pos, 1nat,
    {
        let chars = chars_of(name.as_str());
        let capitals = to_ascii_upper(chars.as_slice());
        let call: bool = match self.peek() {
            Some(Tok::LParen) => true,
            _ => false,
        };
        if call {
            self.pos = self.pos + 1;
            let none: bool = match self.peek() {
                Some(Tok::RParen) => true,
                _ => false,
            };
            let args = if none {
                Vec::new()
            } else {
                match self.arguments() {
                    Ok(args) => args,
                    Err(code) => {
                        return Err(code);
                    },
                }
            };
            assert(none ==> exprs_view(args@) =~= Seq::<ExprV>::empty());
            return match self.expect_rparen() {
                Ok(_) => Ok(Expr::Call(string_of(capitals.as_slice()), args)),
                Err(code) => Err(code),
            };
        }
        if let Some((r, c)) = parse_ref(name.as_str()) {
            let range: bool = match self.peek() {
                Some(Tok::Colon) => true,
                _ => false,
            };
            if range {
                self.pos = self.pos + 1;
                return match self.reference() {
                    Some(b) => {
                        self.pos = self.pos + 1;
                        Ok(Expr::Range((r, c), b))
                    },
                    None => Err("REF".to_owned()),
                };
            }
            return Ok(Expr::Ref(r, c));
        }
        if chars_are(capitals.as_slice(), "TRUE") {
            Ok(Expr::Bool(true))
        } else if chars_are(capitals.as_slice(), "FALSE") {
            Ok(Expr::Bool(false))
        } else {
            Ok(Expr::ErrName)
        }
    }

    /// The cell that the next token names.
    fn reference(&self) -> (r: Option<(u32, u32)>)
        requires
            self.inv(),
        ensures
            r == range_end(self@, self.pos as int),
            r is Some ==> self.pos < self.toks@.len(),
    {
        match self.peek() {
            Some(Tok::Name(name)) => parse_ref(name.as_str()),
            _ => None,
        }
    }

    fn arguments(&mut self) -> (r: Result<Vec<Expr>, String>)
        requires
            old(self).inv(),
        ensures
            match r {
                Ok(args) => arguments_at(old(self)@, old(self).pos as int) == Ok::<
                    (Seq<ExprV>, int),
                    Seq<char>,
                >((exprs_view(args@), final(self).pos as int)) && final(self).moved(*old(self)),
                Err(code) => arguments_at(old(self)@, old(self).pos as int) == Err::<
                    (Seq<ExprV>, int),
                    Seq<char>,
                >(code@),
            },
        decreases old(self).toks@.len() - old(self).pos, 6nat,
    {
        let ghost before = *self;
        let ghost whole = arguments_at(before@, before.pos as int);
        let mut args: Vec<Expr> = Vec::new();
        assert(exprs_view(args@) =~= Seq::<ExprV>::empty());
        assert(whole matches Ok((rest, end)) ==> exprs_view(args@) + rest =~= rest);
        loop
            invariant
                before == *old(self),
                before.inv(),
                self.toks == before.toks,
                before.pos <= self.pos <= self.toks@.len(),
                whole == arguments_at(before@, before.pos as int),
                match arguments_at(before@, self.pos as int) {
                    Ok((rest, end)) => whole == Ok::<(Seq<ExprV>, int), Seq<char>>(
                        (exprs_view(args@) + rest, end),
                    ),
                    Err(code) => whole == Err::<(Seq<ExprV>, int), Seq<char>>(code),
                },
            decreases self.toks@.len() - self.pos,
        {
            let ghost seen = args@;
            match self.expr(0) {
                Ok(e) => {
                    args.push(e);
                    assert(args@.drop_last() =~= seen);
                    assert(exprs_view(args@) == exprs_view(seen).push(e@));
                    let more: bool = match self.peek() {
                        Some(Tok::Comma) => true,
                        _ => false,
                    };
                    if !more {
                        assert(exprs_view(seen) + seq![e@] =~= exprs_view(args@));
                        return Ok(args);
                    }
                    self.pos = self.pos + 1;
                    proof {
                        if let Ok((rest, end)) = arguments_at(before@, self.pos as int) {
                            assert(exprs_view(seen) + (seq![e@] + rest) =~= exprs_view(args@)
                                + rest);
                        }
                    }
                },
                Err(code) => {
                    return Err(code);
                },
            }
        }
    }
}

/// Parses a formula, without its equals sign.
pub fn parse<P: Fn(&str) -> Option<Bits>, S: Fn(Bits) -> String, C: Fn(Op, Bits, Bits) -> Bits>(
    num: &Numerics<P, S, C>,
    s: &str,
) -> (r: Result<Expr, String>)
    requires
        num.valid(),
    ensures
        match r {
            Ok(e) => formula(num.model(), s@) == Ok::<ExprV, Seq<char>>(e@),
            Err(code) => formula(num.model(), s@) == Err::<ExprV, Seq<char>>(code@),
        },
{
    let toks = match lex(num, s) {
        Ok(toks) => toks,
        Err(code) => {
            return Err(code);
        },
    };
    let mut p = Parser { toks, pos: 0 };
    let e = match p.expr(0) {
        Ok(e) => e,
        Err(code) => {
            return Err(code);
        },
    };
    if p.pos != p.toks.len() {
        return Err("SYNTAX".to_owned());
    }
    Ok(e)
}

} // verus!
