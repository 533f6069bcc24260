//! Decimal notation: writing whole numbers and reading them back.

use vstd::prelude::*;

use crate::text::{digit, is_digit, slice_of};

verus! {

/// The character of one decimal digit.
pub open spec fn digit_char(d: int) -> char {
    (('0' as u8) + d) as u8 as char
}

/// The decimal digits of `n`, without leading zeros.
pub open spec fn decimal(n: nat) -> Seq<char>
    decreases n,
{
    if n < 10 {
        seq![digit_char(n as int)]
    } else {
        decimal(n / 10).push(digit_char((n % 10) as int))
    }
}

/// Whether every character of `s` is a decimal digit.
pub open spec fn all_digits(s: Seq<char>) -> bool {
    forall|i: int| 0 <= i < s.len() ==> is_digit(#[trigger] s[i])
}

/// The number that a run of decimal digits denotes.
pub open spec fn digits_value(s: Seq<char>) -> nat
    decreases s.len(),
{
    if s.len() == 0 {
        0
    } else {
        (digits_value(s.drop_last()) * 10 + (s.last() as u8 - '0' as u8)) as nat
    }
}

/// What reading `s` as a whole number no larger than `max` gives: a run of
/// digits, with or without a leading plus sign.
pub open spec fn unsigned_value(s: Seq<char>, max: nat) -> Option<nat> {
    let d = if s.len() > 0 && s[0] == '+' { s.skip(1) } else { s };
    if d.len() == 0 || !all_digits(d) || digits_value(d) > max {
        None
    } else {
        Some(digits_value(d))
    }
}

/// Decimal notation has at least one character and only digits, and it denotes
/// the number it was made from.
pub proof fn decimal_denotes(n: nat)
    ensures
        decimal(n).len() > 0,
        all_digits(decimal(n)),
        digits_value(decimal(n)) == n,
    decreases n,
{
    if n < 10 {
        reveal_with_fuel(digits_value, 2);
        assert(decimal(n).drop_last().len() == 0);
    } else {
        decimal_denotes(n / 10);
        assert(decimal(n).drop_last() == decimal(n / 10));
    }
}

/// A longer run of digits denotes a number at least as large.
pub proof fn digits_value_grows(s: Seq<char>, i: int)
    requires
        0 <= i <= s.len(),
        all_digits(s),
    ensures
        digits_value(s.take(i)) <= digits_value(s),
    decreases s.len() - i,
{
    if i == s.len() {
        assert(s.take(i) == s);
    } else {
        digits_value_grows(s, i + 1);
        assert(s.take(i + 1).drop_last() == s.take(i));
        assert(is_digit(s[i]));
    }
}

/// Decimal notation is shorter than the number is large.
pub proof fn decimal_short(n: nat)
    ensures
        decimal(n).len() <= n / 2 + 1,
    decreases n,
{
    if n >= 10 {
        decimal_short(n / 10);
    }
}

/// Writes `n` in decimal.
pub fn decimal_of(n: u64) -> (v: Vec<char>)
    ensures
        v@ == decimal(n as nat),
    decreases n,
{
    let mut v: Vec<char> = if n < 10 {
        Vec::new()
    } else {
        decimal_of(n / 10)
    };
    v.push((48u8 + (n % 10) as u8) as char);
    assert(n < 10 ==> v@ =~= decimal(n as nat));
    v
}

/// Reads a run of decimal digits, with or without a leading plus sign, as a
/// number no larger than `max`.
pub fn parse_unsigned(s: &[char], max: u64) -> (r: Option<u64>)
    ensures
        match r {
            Some(n) => unsigned_value(s@, max as nat) == Some(n as nat),
            None => unsigned_value(s@, max as nat) is None,
        },
{
    let from: usize = if s.len() > 0 && s[0] == '+' {
        1
    } else {
        0
    };
    if s.len() == from {
        return None;
    }
    let d = slice_of(s, from, s.len());
    assert(from == 0 ==> d@ == s@);
    assert(from == 1 ==> d@ == s@.skip(1));
    for i in 0..d.len()
        invariant
            !all_digits(d@) ==> unsigned_value(s@, max as nat) is None,
            forall|j: int| 0 <= j < i ==> is_digit(#[trigger] d@[j]),
    {
        if !digit(d[i]) {
            assert(!is_digit(d@[i as int]));
            return None;
        }
    }
    let mut n: u64 = 0;
    for i in 0..d.len()
        invariant
            all_digits(d@),
            n <= max,
            n == digits_value(d@.take(i as int)),
            digits_value(d@) > max ==> unsigned_value(s@, max as nat) is None,
    {
        assert(is_digit(d@[i as int]));
        assert(d@.take(i + 1).drop_last() == d@.take(i as int));
        let k: u64 = (d[i] as u8 - 48) as u64;
        proof {
            digits_value_grows(d@, i + 1);
        }
        if k > max || n > max / 10 || n * 10 > max - k {
            return None;
        }
        n = n * 10 + k;
    }
    assert(d@.take(d@.len() as int) == d@);
    Some(n)
}

/// Reads back what was written: a number in decimal notation reads as itself.
pub proof fn decimal_reads_back(n: nat, max: nat)
    requires
        n <= max,
    ensures
        unsigned_value(decimal(n), max) == Some(n),
{
    decimal_denotes(n);
    assert(is_digit(decimal(n)[0]));
}

/// Digits count in tens: a digit more is ten times what was there, and the digit.
pub proof fn digits_count_in_tens(s: Seq<char>, d: int, n: nat)
    requires
        0 <= d < 10,
    ensures
        digits_value(s.push((48 + d) as u8 as char)) == 10 * digits_value(s) + d,
        digits_value(Seq::empty()) == 0,
        n > 0 ==> decimal((10 * n + d) as nat) == decimal(n).push((48 + d) as u8 as char),
        decimal(d as nat) == seq![(48 + d) as u8 as char],
{
    let c = (48 + d) as u8 as char;
    assert(s.push(c).drop_last() =~= s);
    assert((10 * n + d) / 10 == n && (10 * n + d) % 10 == d);
}

/// A number is read with or without a plus sign and leading zeros, in digits only, and
/// only up to the largest that is asked for.
pub proof fn numbers_are_read(s: Seq<char>, max: nat)
    requires
        s.len() > 0,
        all_digits(s),
    ensures
        digits_value(s) <= max ==> unsigned_value(s, max) == Some(digits_value(s)),
        digits_value(s) > max ==> unsigned_value(s, max) is None,
        unsigned_value(seq!['+'] + s, max) == unsigned_value(s, max),
        unsigned_value(seq!['-'] + s, max) is None,
        unsigned_value(Seq::empty(), max) is None,
{
    let p = seq!['+'] + s;
    let q = seq!['-'] + s;
    assert(is_digit(s[0]));
    assert(p.skip(1) =~= s);
    assert(!is_digit(q[0]));
}

} // verus!
