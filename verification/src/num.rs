//! Numbers as IEEE 754 binary64 bit patterns. Which number is zero, which is
//! not a number, and how two numbers compare can be told from the bits; the
//! arithmetic itself, and the reading and writing of numbers, come from the
//! functions in `Numerics`.

use vstd::arithmetic::power2::{
    lemma2_to64, lemma2_to64_rest, lemma_pow2_pos, lemma_pow2_strictly_increases,
    lemma_pow2_unfold, pow2,
};
use vstd::prelude::*;

verus! {

/// The bit pattern of a binary64 floating-point number.
pub type Bits = u64;

/// The sign bit.
pub const SIGN: Bits = 0x8000_0000_0000_0000;

/// Zero.
pub const ZERO: Bits = 0;

/// Minus zero, the neutral element of addition.
pub const MINUS_ZERO: Bits = 0x8000_0000_0000_0000;

/// One.
pub const ONE: Bits = 0x3ff0_0000_0000_0000;

/// One hundred.
pub const HUNDRED: Bits = 0x4059_0000_0000_0000;

/// Positive infinity.
pub const INFINITY: Bits = 0x7ff0_0000_0000_0000;

/// Negative infinity.
pub const MINUS_INFINITY: Bits = 0xfff0_0000_0000_0000;

/// The arithmetic that a sheet needs. An operation of one operand ignores the
/// second.
#[derive(Clone, Copy, PartialEq, Eq, Structural)]
pub enum Op {
    /// `-a`
    Neg,
    /// `a + b`
    Add,
    /// `a - b`
    Sub,
    /// `a * b`
    Mul,
    /// `a / b`
    Div,
    /// `a` to the power `b`
    Pow,
    /// Ten to the power `a`, with `a` cut to a 32-bit integer
    PowTen,
    /// The integer nearest to `a`, halves away from zero
    Nearest,
    /// The largest integer not above `a`
    Floor,
    /// The absolute value of `a`
    Abs,
    /// The square root of `a`
    Sqrt,
    /// The smaller of `a` and `b`; the other one where one is not a number
    Min,
    /// The larger of `a` and `b`; the other one where one is not a number
    Max,
    /// The number whose value is the integer `a`
    OfCount,
    /// `a` cut to an integer in the range of `u64`, as an integer; not-a-number
    /// gives zero
    Truncate,
}

/// The number functions as mathematical functions.
pub struct NumModel {
    pub parse: spec_fn(Seq<char>) -> Option<Bits>,
    pub fixed: spec_fn(Bits) -> Seq<char>,
    pub calc: spec_fn(Op, Bits, Bits) -> Bits,
}

/// The number functions: `parse` reads a number from text, `fixed` gives the text
/// of a number with ten decimals, `calc` does the arithmetic.
pub struct Numerics<P, S, C> {
    pub parse: P,
    pub fixed: S,
    pub calc: C,
}

impl<P: Fn(&str) -> Option<Bits>, S: Fn(Bits) -> String, C: Fn(Op, Bits, Bits) -> Bits> Numerics<
    P,
    S,
    C,
> {
    /// The functions can be called on every argument, and what they return is
    /// what the mathematical functions of `m` give.
    pub open spec fn behaves_as(&self, m: NumModel) -> bool {
        &&& forall|t: &str| call_requires(self.parse, (t,))
        &&& forall|t: &str, r: Option<Bits>|
            call_ensures(self.parse, (t,), r) ==> r == (m.parse)(t@)
        &&& forall|n: Bits| call_requires(self.fixed, (n,))
        &&& forall|n: Bits, r: String| call_ensures(self.fixed, (n,), r) ==> r@ == (m.fixed)(n)
        &&& forall|op: Op, a: Bits, b: Bits| call_requires(self.calc, (op, a, b))
        &&& forall|op: Op, a: Bits, b: Bits, r: Bits|
            call_ensures(self.calc, (op, a, b), r) ==> r == (m.calc)(op, a, b)
    }

    /// The functions are total, and their results depend on their arguments
    /// alone.
    pub open spec fn valid(&self) -> bool {
        exists|m: NumModel| self.behaves_as(m)
    }

    /// The functions as mathematical functions.
    pub open spec fn model(&self) -> NumModel {
        choose|m: NumModel| self.behaves_as(m)
    }

    pub fn read(&self, t: &str) -> (r: Option<Bits>)
        requires
            self.valid(),
        ensures
            r == (self.model().parse)(t@),
    {
        (self.parse)(t)
    }

    pub fn fixed_text(&self, n: Bits) -> (r: String)
        requires
            self.valid(),
        ensures
            r@ == (self.model().fixed)(n),
    {
        (self.fixed)(n)
    }

    pub fn compute(&self, op: Op, a: Bits, b: Bits) -> (r: Bits)
        requires
            self.valid(),
        ensures
            r == (self.model().calc)(op, a, b),
    {
        (self.calc)(op, a, b)
    }
}

/// How two things stand to each other in an order.
#[derive(Clone, Copy, PartialEq, Eq, Structural, Debug)]
pub enum Order {
    Less,
    Equal,
    Greater,
}

/// The bits without the sign.
pub open spec fn magnitude(b: Bits) -> int {
    if b >= SIGN {
        b - SIGN
    } else {
        b as int
    }
}

/// Whether the bits are not a number.
pub open spec fn is_nan(b: Bits) -> bool {
    magnitude(b) > INFINITY
}

/// Whether the bits are zero, of either sign.
pub open spec fn is_zero(b: Bits) -> bool {
    magnitude(b) == 0
}

/// An integer that grows with the number, equal for the two zeros.
pub open spec fn rank(b: Bits) -> int {
    if b >= SIGN {
        -magnitude(b)
    } else {
        magnitude(b)
    }
}

/// The order of two numbers; none where one of them is not a number.
pub open spec fn number_order(a: Bits, b: Bits) -> Option<Order> {
    if is_nan(a) || is_nan(b) {
        None
    } else if rank(a) < rank(b) {
        Some(Order::Less)
    } else if rank(a) == rank(b) {
        Some(Order::Equal)
    } else {
        Some(Order::Greater)
    }
}

pub fn nan(b: Bits) -> (r: bool)
    ensures
        r == is_nan(b),
{
    let m: u64 = if b >= SIGN {
        b - SIGN
    } else {
        b
    };
    m > INFINITY
}

pub fn zero(b: Bits) -> (r: bool)
    ensures
        r == is_zero(b),
{
    b == ZERO || b == MINUS_ZERO
}

pub fn order(a: Bits, b: Bits) -> (r: Option<Order>)
    ensures
        r == number_order(a, b),
{
    if nan(a) || nan(b) {
        return None;
    }
    let x: i128 = if a >= SIGN {
        -((a - SIGN) as i128)
    } else {
        a as i128
    };
    let y: i128 = if b >= SIGN {
        -((b - SIGN) as i128)
    } else {
        b as i128
    };
    if x < y {
        Some(Order::Less)
    } else if x == y {
        Some(Order::Equal)
    } else {
        Some(Order::Greater)
    }
}

/// Whether two numbers are equal.
pub fn same_number(a: Bits, b: Bits) -> (r: bool)
    ensures
        r == (number_order(a, b) == Some(Order::Equal)),
{
    match order(a, b) {
        Some(Order::Equal) => true,
        _ => false,
    }
}

// ---- whole numbers --------------------------------------------------------

/// The exponent field of a number.
pub open spec fn exponent(b: Bits) -> int {
    magnitude(b) / 0x10_0000_0000_0000
}

/// The digits of a number, as an integer.
pub open spec fn significand(b: Bits) -> int {
    if exponent(b) == 0 {
        magnitude(b)
    } else {
        magnitude(b) % 0x10_0000_0000_0000 + 0x10_0000_0000_0000
    }
}

/// The power of two that the digits are multiplied with, plus 1075.
pub open spec fn scale(b: Bits) -> int {
    if exponent(b) == 0 {
        1
    } else {
        exponent(b)
    }
}

/// The absolute value of `n`.
pub open spec fn size_of(n: int) -> int {
    if n < 0 {
        -n
    } else {
        n
    }
}

/// Whether a number is the integer `n`.
pub open spec fn is_whole(b: Bits, n: int) -> bool {
    let size = size_of(n);
    &&& magnitude(b) < INFINITY
    &&& n < 0 ==> b >= SIGN
    &&& n > 0 ==> b < SIGN
    &&& if scale(b) >= 1075 {
        size == significand(b) * pow2((scale(b) - 1075) as nat)
    } else {
        size * pow2((1075 - scale(b)) as nat) == significand(b)
    }
}

/// Whether a number is an integer.
pub open spec fn is_integer(b: Bits) -> bool {
    exists|n: int| is_whole(b, n)
}

/// Whether a number is the integer `n`, of fewer than sixteen digits.
pub open spec fn is_moderate(b: Bits, n: int) -> bool {
    is_whole(b, n) && -1_000_000_000_000_000 < n < 1_000_000_000_000_000
}

/// The power of two of a small exponent.
fn power_of_two(k: u64) -> (p: u64)
    requires
        k <= 52,
    ensures
        p == pow2(k as nat),
        0 < p <= 0x10_0000_0000_0000,
{
    let mut p: u64 = 1;
    let mut i: u64 = 0;
    proof {
        lemma2_to64();
    }
    while i < k
        invariant
            i <= k <= 52,
            p == pow2(i as nat),
            p >= 1,
        decreases k - i,
    {
        proof {
            lemma_pow2_unfold((i + 1) as nat);
            lemma2_to64_rest();
            lemma_pow2_strictly_increases(i as nat, 53);
        }
        p = p * 2;
        i = i + 1;
    }
    proof {
        lemma2_to64_rest();
        if k < 52 {
            lemma_pow2_strictly_increases(k as nat, 52);
        }
    }
    p
}

/// The size of the integer that a number below the largest ones is, where it is
/// one.
fn whole_size(b: Bits) -> (r: Option<u64>)
    requires
        magnitude(b) < INFINITY,
        scale(b) < 1075,
    ensures
        match r {
            Some(k) => k < 0x20_0000_0000_0000 && is_whole(
                b,
                if b >= SIGN {
                    -(k as int)
                } else {
                    k as int
                },
            ),
            None => forall|n: int| !is_whole(b, n),
        },
{
    let m: u64 = if b >= SIGN {
        b - SIGN
    } else {
        b
    };
    let e: u64 = m / 0x10_0000_0000_0000;
    let digits: u64 = if e == 0 {
        m
    } else {
        m % 0x10_0000_0000_0000 + 0x10_0000_0000_0000
    };
    let s: u64 = if e == 0 {
        1
    } else {
        e
    };
    assert(digits == significand(b) && s == scale(b));
    let shift: u64 = 1075 - s;
    if digits == 0 {
        assert(0 * pow2(shift as nat) == 0);
        return Some(0);
    }
    if shift > 52 {
        assert forall|n: int| !is_whole(b, n) by {
            let p = pow2(shift as nat) as int;
            lemma2_to64_rest();
            if shift > 53 {
                lemma_pow2_strictly_increases(53, shift as nat);
            }
            let size = size_of(n);
            if size > 0 {
                assert(size * p >= p) by (nonlinear_arith)
                    requires
                        size >= 1,
                        p >= 0,
                ;
            }
        }
        return None;
    }
    let p: u64 = power_of_two(shift);
    let size: u64 = digits / p;
    let rest: u64 = digits % p;
    assert(digits == p * size + rest && rest < p) by {
        vstd::arithmetic::div_mod::lemma_fundamental_div_mod(digits as int, p as int);
    }
    if rest != 0 {
        assert forall|n: int| !is_whole(b, n) by {
            let k = size_of(n);
            if k * p == digits {
                vstd::arithmetic::div_mod::lemma_fundamental_div_mod_converse(
                    digits as int,
                    p as int,
                    k,
                    0,
                );
            }
        }
        return None;
    }
    assert(size * p == digits && size <= digits) by (nonlinear_arith)
        requires
            digits == p * size + rest,
            rest == 0,
            p >= 1,
            size >= 0,
    ;
    Some(size)
}

/// The numbers that have no fraction because they are so large.
proof fn large_are_whole(b: Bits)
    requires
        magnitude(b) < INFINITY,
        scale(b) >= 1075,
    ensures
        is_integer(b),
        forall|n: int| !is_moderate(b, n),
{
    let p = pow2((scale(b) - 1075) as nat) as int;
    let digits = significand(b);
    lemma_pow2_pos((scale(b) - 1075) as nat);
    assert(digits * p >= digits) by (nonlinear_arith)
        requires
            p >= 1,
            digits >= 0,
    ;
    let n = if b >= SIGN {
        -(digits * p)
    } else {
        digits * p
    };
    assert(is_whole(b, n));
}

/// The integer that a number is, where it is one of fewer than sixteen digits.
pub fn whole_number(b: Bits) -> (r: Option<i64>)
    ensures
        match r {
            Some(n) => is_moderate(b, n as int),
            None => forall|n: int| !is_moderate(b, n),
        },
{
    let m: u64 = if b >= SIGN {
        b - SIGN
    } else {
        b
    };
    if m >= INFINITY {
        return None;
    }
    if m / 0x10_0000_0000_0000 >= 1075 {
        proof {
            large_are_whole(b);
        }
        return None;
    }
    let size: u64 = match whole_size(b) {
        Some(k) => k,
        None => {
            return None;
        },
    };
    let ghost n = if b >= SIGN {
        -(size as int)
    } else {
        size as int
    };
    if size >= 1_000_000_000_000_000 {
        assert forall|k: int| !is_moderate(b, k) by {
            if is_whole(b, k) {
                whole_once(b, n, k);
            }
        }
        return None;
    }
    if b >= SIGN {
        Some(-(size as i64))
    } else {
        Some(size as i64)
    }
}

/// Whether a number is an integer.
pub fn integer(b: Bits) -> (r: bool)
    ensures
        r == is_integer(b),
{
    let m: u64 = if b >= SIGN {
        b - SIGN
    } else {
        b
    };
    if m >= INFINITY {
        return false;
    }
    if m / 0x10_0000_0000_0000 >= 1075 {
        proof {
            large_are_whole(b);
        }
        return true;
    }
    whole_size(b).is_some()
}

/// A number is one integer at most.
pub proof fn whole_once(b: Bits, n: int, k: int)
    requires
        is_whole(b, n),
        is_whole(b, k),
    ensures
        n == k,
{
    let x = size_of(n);
    let y = size_of(k);
    if scale(b) < 1075 {
        let p = pow2((1075 - scale(b)) as nat) as int;
        lemma_pow2_pos((1075 - scale(b)) as nat);
        assert(x == y) by (nonlinear_arith)
            requires
                x * p == y * p,
                p > 0,
        ;
    }
}

// ---- what the bits denote -------------------------------------------------

/// The size of a finite number, in units of the smallest one, which is two to the power
/// of -1074.
pub open spec fn units(b: Bits) -> int {
    significand(b) * pow2((scale(b) - 1) as nat)
}

/// A finite number in units of the smallest one.
pub open spec fn exact(b: Bits) -> int {
    if b >= SIGN {
        -units(b)
    } else {
        units(b)
    }
}

/// What a bit pattern of sign, exponent and fraction denotes: without an exponent the
/// fraction alone, and else the fraction behind a leading one, doubled with every step
/// of the exponent. With the largest exponent it is infinite, or no number where there
/// is a fraction.
pub proof fn bits_denote(b: Bits, negative: bool, e: int, f: int)
    requires
        0 <= e < 2048,
        0 <= f < 0x10_0000_0000_0000,
        b == (if negative {
            0x8000_0000_0000_0000int
        } else {
            0
        }) + e * 0x10_0000_0000_0000 + f,
    ensures
        e == 0 ==> exact(b) == if negative {
            -f
        } else {
            f
        },
        0 < e < 2047 ==> exact(b) == (if negative {
            -1int
        } else {
            1
        }) * ((0x10_0000_0000_0000 + f) * pow2((e - 1) as nat)),
        e < 2047 ==> !is_nan(b) && b != INFINITY && b != MINUS_INFINITY,
        e == 2047 && f == 0 ==> !is_nan(b) && b == if negative {
            MINUS_INFINITY
        } else {
            INFINITY
        },
        e == 2047 && f > 0 ==> is_nan(b),
{
    assert(e * 0x10_0000_0000_0000 + f < 0x8000_0000_0000_0000) by (nonlinear_arith)
        requires
            0 <= e < 2048,
            0 <= f < 0x10_0000_0000_0000,
    ;
    assert(magnitude(b) == e * 0x10_0000_0000_0000 + f);
    vstd::arithmetic::div_mod::lemma_fundamental_div_mod_converse(
        magnitude(b),
        0x10_0000_0000_0000,
        e,
        f,
    );
    lemma2_to64();
    if e == 0 {
        assert(f * 1 == f);
    } else {
        let p = (0x10_0000_0000_0000 + f) * pow2((e - 1) as nat);
        assert(-1 * p == -p && 1 * p == p);
    }
}

proof fn units_grow(a: Bits, b: Bits)
    requires
        magnitude(a) < magnitude(b) < INFINITY,
    ensures
        0 <= units(a) < units(b),
{
    let (ea, eb) = (exponent(a), exponent(b));
    let (x, y) = (significand(a), significand(b));
    let (p, q) = (
        pow2((scale(a) - 1) as nat) as int,
        pow2((scale(b) - 1) as nat) as int,
    );
    lemma_pow2_pos((scale(a) - 1) as nat);
    lemma_pow2_pos((scale(b) - 1) as nat);
    lemma2_to64();
    if ea == eb {
        assert(x < y);
        assert(0 <= x * p < y * p) by (nonlinear_arith)
            requires
                0 <= x < y,
                p > 0,
        ;
    } else {
        assert(ea < eb);
        let k: int = 0x10_0000_0000_0000;
        if ea == 0 {
            assert(p == 1);
            assert(0 <= x * p < y * q) by (nonlinear_arith)
                requires
                    0 <= x < k,
                    k <= y,
                    p == 1,
                    q >= 1,
                    k > 0,
            ;
        } else {
            let d = pow2(ea as nat) as int;
            lemma_pow2_unfold(ea as nat);
            if ea < eb - 1 {
                lemma_pow2_strictly_increases(ea as nat, (eb - 1) as nat);
            }
            assert(0 <= x * p < y * q) by (nonlinear_arith)
                requires
                    0 <= x < 2 * k,
                    k <= y,
                    d == 2 * p,
                    d <= q,
                    p > 0,
                    k > 0,
            ;
        }
    }
}

/// Numbers are ordered by what they denote, with the infinities at the ends; what is no
/// number has no order.
pub proof fn order_is_by_value(a: Bits, b: Bits)
    ensures
        magnitude(a) < INFINITY && magnitude(b) < INFINITY ==> number_order(a, b) == Some(
            if exact(a) < exact(b) {
                Order::Less
            } else if exact(a) == exact(b) {
                Order::Equal
            } else {
                Order::Greater
            },
        ),
        magnitude(a) < INFINITY ==> number_order(a, INFINITY) == Some(Order::Less) && number_order(
            MINUS_INFINITY,
            a,
        ) == Some(Order::Less),
        number_order(MINUS_INFINITY, INFINITY) == Some(Order::Less),
        magnitude(a) > INFINITY ==> number_order(a, b) is None && number_order(b, a) is None,
{
    if magnitude(a) < INFINITY && magnitude(b) < INFINITY {
        if magnitude(a) < magnitude(b) {
            units_grow(a, b);
        } else if magnitude(b) < magnitude(a) {
            units_grow(b, a);
        } else {
            assert(units(a) == units(b));
        }
        lemma_pow2_pos((scale(a) - 1) as nat);
        let (x, p) = (significand(a), pow2((scale(a) - 1) as nat) as int);
        assert(x == 0 ==> x * p == 0) by (nonlinear_arith);
        assert(x > 0 ==> x * p > 0) by (nonlinear_arith)
            requires
                p > 0,
        ;
    }
}

/// A number is an integer where it denotes it.
pub proof fn whole_is_by_value(b: Bits, n: int)
    requires
        magnitude(b) < INFINITY,
    ensures
        is_whole(b, n) <==> exact(b) == n * pow2(1074),
{
    let s = scale(b);
    let sig = significand(b);
    let size = size_of(n);
    let one = pow2(1074) as int;
    let p = pow2((s - 1) as nat) as int;
    lemma_pow2_pos(1074);
    lemma_pow2_pos((s - 1) as nat);
    if s >= 1075 {
        let q = pow2((s - 1075) as nat) as int;
        vstd::arithmetic::power2::lemma_pow2_adds((s - 1075) as nat, 1074);
        assert(size == sig * q <==> size * one == sig * p) by (nonlinear_arith)
            requires
                p == q * one,
                one > 0,
        ;
    } else {
        let q = pow2((1075 - s) as nat) as int;
        vstd::arithmetic::power2::lemma_pow2_adds((1075 - s) as nat, (s - 1) as nat);
        assert(size * q == sig <==> size * one == sig * p) by (nonlinear_arith)
            requires
                one == q * p,
                p > 0,
        ;
    }
    assert(n >= 0 ==> n * one == size * one);
    assert(n < 0 ==> n * one == -(size * one)) by (nonlinear_arith)
        requires
            n < 0 ==> size == -n,
    ;
    assert(size > 0 ==> size * one > 0) by (nonlinear_arith)
        requires
            one > 0,
    ;
    assert(size == 0 ==> size * one == 0) by (nonlinear_arith);
    assert(sig * p >= 0) by (nonlinear_arith)
        requires
            sig >= 0,
            p > 0,
    ;
}

/// The constants denote what they are named for.
pub proof fn constants_denote()
    ensures
        exact(ZERO) == 0,
        exact(MINUS_ZERO) == 0,
        is_whole(ONE, 1),
        is_whole(HUNDRED, 100),
{
    lemma2_to64();
    lemma2_to64_rest();
    assert(0 * pow2(0) == 0);
    assert(exponent(ONE) == 1023 && significand(ONE) == 0x10_0000_0000_0000);
    assert(pow2(52) == 0x10_0000_0000_0000);
    assert(1 * pow2((1075 - 1023) as nat) == 0x10_0000_0000_0000);
    assert(exponent(HUNDRED) == 1029 && significand(HUNDRED) == 0x19_0000_0000_0000);
    assert(pow2(46) == 0x4000_0000_0000);
    assert(100 * pow2((1075 - 1029) as nat) == 0x19_0000_0000_0000);
}

} // verus!
