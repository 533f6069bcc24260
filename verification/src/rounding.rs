//! Decimal text rounded to ten significant digits.

use vstd::arithmetic::div_mod::lemma_fundamental_div_mod_converse;
use vstd::prelude::*;

use crate::decimal::{all_digits, decimal, decimal_denotes, digit_char, digits_value};
use crate::text::{
    digit, find_char, is_digit, only, push_chars, slice_of, trim_end, trim_end_matches, trim_start,
    trimming_shortens, trimming_splits, upto, upto_bounds, upto_is,
};

verus! {

/// How many significant digits a number with a fraction is shown with.
pub const SIGNIFICANT: usize = 10;

/// The powers of ten.
pub open spec fn ten_to(k: nat) -> nat
    decreases k,
{
    if k == 0 {
        1
    } else {
        10 * ten_to((k - 1) as nat)
    }
}

/// A run of zeros.
pub open spec fn zeros(n: nat) -> Seq<char> {
    Seq::new(n, |i: int| '0')
}

/// A number to so many significant digits, halves upwards.
pub open spec fn to_significant(n: nat, digits: nat) -> nat {
    let len = decimal(n).len();
    if len <= digits {
        n
    } else {
        let unit = ten_to((len - digits) as nat);
        (n + unit / 2) / unit * unit
    }
}

/// The digits of a number, with zeros before them where it has fewer than `w`.
pub open spec fn padded(n: nat, w: nat) -> Seq<char> {
    let d = decimal(n);
    if d.len() < w {
        zeros((w - d.len()) as nat) + d
    } else {
        d
    }
}

/// The digits of a number with a point before the last `places` of them, and at
/// least one digit before the point.
pub open spec fn point_text(n: nat, places: nat) -> Seq<char> {
    let d = padded(n, places + 1);
    d.take(d.len() - places) + seq!['.'] + d.skip(d.len() - places)
}

/// The minus sign at the beginning of a text, or nothing.
pub open spec fn sign_of(s: Seq<char>) -> Seq<char> {
    if s.len() > 0 && s[0] == '-' {
        seq!['-']
    } else {
        Seq::empty()
    }
}

/// A text without the minus sign at its beginning.
pub open spec fn unsigned_of(s: Seq<char>) -> Seq<char> {
    s.skip(sign_of(s).len() as int)
}

/// Whether a text is a number in decimal notation with a point: digits, a point and
/// digits, with or without a minus sign.
pub open spec fn is_decimal_text(s: Seq<char>) -> bool {
    let t = unsigned_of(s);
    let i = upto(t, '.');
    &&& 0 < i < t.len()
    &&& all_digits(t.take(i))
    &&& all_digits(t.skip(i + 1))
}

/// The digits of a decimal text.
pub open spec fn digits_of(s: Seq<char>) -> Seq<char> {
    let t = unsigned_of(s);
    let i = upto(t, '.');
    t.take(i) + t.skip(i + 1)
}

/// How many digits of a decimal text stand behind its point.
pub open spec fn places_of(s: Seq<char>) -> nat {
    let t = unsigned_of(s);
    (t.len() - upto(t, '.') - 1) as nat
}

/// A decimal text rounded to ten significant digits, with as many digits behind its
/// point as before.
pub open spec fn rounded_text(s: Seq<char>) -> Seq<char> {
    sign_of(s) + point_text(
        to_significant(digits_value(digits_of(s)), SIGNIFICANT as nat),
        places_of(s),
    )
}

/// A text without trailing zeros, nor a trailing point.
pub open spec fn tidied(s: Seq<char>) -> Seq<char> {
    trim_end(trim_end(s, only('0')), only('.'))
}

/// The digits among the characters of a text.
pub open spec fn digits_in(s: Seq<char>) -> Seq<char> {
    s.filter(|c: char| is_digit(c))
}

/// How many significant digits a text shows: those from the first that is not zero
/// to the last that is not.
pub open spec fn significant_digits(s: Seq<char>) -> nat {
    trim_start(trim_end(digits_in(s), only('0')), only('0')).len()
}

// ---- digits and values ----------------------------------------------------

proof fn ten_to_grows(a: nat, b: nat)
    requires
        a <= b,
    ensures
        0 < ten_to(a) <= ten_to(b),
    decreases b,
{
    if a < b {
        ten_to_grows(a, (b - 1) as nat);
    } else if a > 0 {
        ten_to_grows((a - 1) as nat, (a - 1) as nat);
    }
}

proof fn ten_to_adds(a: nat, b: nat)
    ensures
        ten_to(a + b) == ten_to(a) * ten_to(b),
    decreases b,
{
    if b > 0 {
        ten_to_adds(a, (b - 1) as nat);
        let (x, y) = (ten_to(a), ten_to((b - 1) as nat));
        assert(10 * (x * y) == x * (10 * y)) by (nonlinear_arith);
    } else {
        assert(ten_to(a) * 1 == ten_to(a));
    }
}

/// The value of a run of digits has fewer digits than the run, or as many.
proof fn value_bound(s: Seq<char>)
    requires
        all_digits(s),
    ensures
        digits_value(s) < ten_to(s.len()),
        s.len() > 0 && s[0] != '0' ==> ten_to((s.len() - 1) as nat) <= digits_value(s),
    decreases s.len(),
{
    if s.len() > 0 {
        let t = s.drop_last();
        assert(is_digit(s.last()));
        assert forall|i: int| 0 <= i < t.len() implies is_digit(#[trigger] t[i]) by {
            assert(is_digit(s[i]));
        }
        value_bound(t);
        if t.len() == 0 {
            assert(digits_value(t) == 0);
            assert(ten_to(0) == 1);
        }
    }
}

/// The value of two runs of digits, one after the other.
proof fn value_adds(a: Seq<char>, b: Seq<char>)
    requires
        all_digits(b),
    ensures
        digits_value(a + b) == digits_value(a) * ten_to(b.len()) + digits_value(b),
    decreases b.len(),
{
    if b.len() == 0 {
        assert(a + b =~= a);
        assert(digits_value(a) * 1 == digits_value(a));
    } else {
        let t = b.drop_last();
        assert forall|i: int| 0 <= i < t.len() implies is_digit(#[trigger] t[i]) by {
            assert(is_digit(b[i]));
        }
        value_adds(a, t);
        assert((a + b).drop_last() =~= a + t);
        assert(is_digit(b.last()));
        let (x, y) = (digits_value(a), ten_to(t.len()));
        assert(10 * (x * y) == x * (10 * y)) by (nonlinear_arith);
    }
}

proof fn zeros_value(r: nat)
    ensures
        all_digits(zeros(r)),
        digits_value(zeros(r)) == 0,
    decreases r,
{
    if r > 0 {
        zeros_value((r - 1) as nat);
        assert(zeros(r).drop_last() =~= zeros((r - 1) as nat));
    }
}

/// A run of digits that does not begin with a zero is the decimal notation of its
/// value.
proof fn canonical(s: Seq<char>)
    requires
        all_digits(s),
        s.len() > 0,
        s.len() == 1 || s[0] != '0',
    ensures
        decimal(digits_value(s)) == s,
    decreases s.len(),
{
    let t = s.drop_last();
    let v = digits_value(s);
    assert(is_digit(s.last()));
    assert(s =~= t.push(s.last()));
    if t.len() == 0 {
        assert(digits_value(t) == 0);
        assert(decimal(v) =~= s);
    } else {
        assert forall|i: int| 0 <= i < t.len() implies is_digit(#[trigger] t[i]) by {
            assert(is_digit(s[i]));
        }
        value_bound(t);
        ten_to_grows(0, (t.len() - 1) as nat);
        if t.len() == 1 && t[0] == '0' {
            assert(s[0] == '0');
        }
        canonical(t);
        let d = (s.last() as u8 - '0' as u8) as int;
        assert(v == digits_value(t) * 10 + d && 0 <= d < 10);
        assert(v / 10 == digits_value(t) && v % 10 == d);
        assert(digit_char(d) == s.last());
    }
}

/// Decimal notation does not begin with a zero, but for that of zero.
proof fn decimal_begins(n: nat)
    ensures
        decimal(n).len() > 0,
        n > 0 ==> decimal(n)[0] != '0',
        n < 10 ==> decimal(n).len() == 1,
    decreases n,
{
    if n >= 10 {
        decimal_begins(n / 10);
    }
}

/// A number has so many digits that it lies between two powers of ten.
proof fn decimal_length(n: nat)
    ensures
        decimal(n).len() > 0,
        n < ten_to(decimal(n).len()),
        n > 0 ==> ten_to((decimal(n).len() - 1) as nat) <= n,
{
    decimal_denotes(n);
    decimal_begins(n);
    value_bound(decimal(n));
}

/// Decimal notation of a multiple of a power of ten.
proof fn decimal_multiple(q: nat, r: nat)
    requires
        q > 0,
    ensures
        decimal(q * ten_to(r)) == decimal(q) + zeros(r),
{
    let s = decimal(q) + zeros(r);
    decimal_denotes(q);
    decimal_begins(q);
    zeros_value(r);
    value_adds(decimal(q), zeros(r));
    assert forall|i: int| 0 <= i < s.len() implies is_digit(#[trigger] s[i]) by {
        if i < decimal(q).len() {
            assert(is_digit(decimal(q)[i]));
        }
    }
    canonical(s);
}

// ---- significant digits ---------------------------------------------------

/// The digits of two texts, one after the other.
proof fn digits_add(a: Seq<char>, b: Seq<char>)
    ensures
        digits_in(a + b) == digits_in(a) + digits_in(b),
{
    Seq::filter_distributes_over_add(a, b, |c: char| is_digit(c));
}

/// A run of digits consists of its digits.
proof fn digits_of_run(s: Seq<char>)
    requires
        all_digits(s),
    ensures
        digits_in(s) == s,
    decreases s.len(),
{
    reveal(Seq::filter);
    if s.len() > 0 {
        let t = s.drop_last();
        assert forall|i: int| 0 <= i < t.len() implies is_digit(#[trigger] t[i]) by {
            assert(is_digit(s[i]));
        }
        digits_of_run(t);
        assert(is_digit(s.last()));
        assert(digits_in(s) =~= s);
    }
}

/// A character that is no digit does not count.
proof fn no_digit(c: char)
    requires
        !is_digit(c),
    ensures
        digits_in(seq![c]) == Seq::<char>::empty(),
{
    reveal(Seq::filter);
    assert(seq![c].drop_last() =~= Seq::<char>::empty());
    assert(digits_in(seq![c].drop_last()) =~= Seq::<char>::empty());
}

/// Zeros at the end of a text are not significant.
proof fn zeros_trimmed(s: Seq<char>)
    ensures
        trim_end(digits_in(trim_end(s, only('0'))), only('0')) == trim_end(
            digits_in(s),
            only('0'),
        ),
    decreases s.len(),
{
    reveal(Seq::filter);
    if s.len() > 0 && s.last() == '0' {
        zeros_trimmed(s.drop_last());
        assert(digits_in(s) == digits_in(s.drop_last()).push('0'));
        assert(digits_in(s).drop_last() =~= digits_in(s.drop_last()));
    }
}

/// Points at the end of a text are no digits.
proof fn points_trimmed(s: Seq<char>)
    ensures
        digits_in(trim_end(s, only('.'))) == digits_in(s),
    decreases s.len(),
{
    reveal(Seq::filter);
    if s.len() > 0 && s.last() == '.' {
        points_trimmed(s.drop_last());
    }
}

/// Tidying leaves the significant digits.
proof fn tidied_digits(s: Seq<char>)
    ensures
        significant_digits(tidied(s)) == significant_digits(s),
{
    zeros_trimmed(s);
    points_trimmed(trim_end(s, only('0')));
}

/// Zeros at the end are trimmed away.
proof fn trim_zeros(s: Seq<char>, r: nat)
    ensures
        trim_end(s + zeros(r), only('0')) == trim_end(s, only('0')),
    decreases r,
{
    if r > 0 {
        trim_zeros(s, (r - 1) as nat);
        assert((s + zeros(r)).drop_last() =~= s + zeros((r - 1) as nat));
    } else {
        assert(s + zeros(r) =~= s);
    }
}

/// Zeros at the beginning are trimmed away, and what is left of a text that was
/// trimmed at its end is no longer than the text.
proof fn trim_around(k: nat, s: Seq<char>)
    ensures
        trim_start(trim_end(zeros(k) + s, only('0')), only('0')).len() <= s.len(),
    decreases k + s.len(),
{
    let w = zeros(k) + s;
    if s.len() > 0 {
        if s.last() == '0' {
            trim_around(k, s.drop_last());
            assert(w.drop_last() =~= zeros(k) + s.drop_last());
        } else {
            assert(trim_end(w, only('0')) == w);
            trim_leading(k, s);
            trimming_shortens(s, only('0'));
        }
    } else if k > 0 {
        trim_around((k - 1) as nat, s);
        assert(w.drop_last() =~= zeros((k - 1) as nat) + s);
    } else {
        assert(w =~= s);
    }
}

proof fn trim_leading(k: nat, s: Seq<char>)
    ensures
        trim_start(zeros(k) + s, only('0')) == trim_start(s, only('0')),
    decreases k,
{
    if k > 0 {
        trim_leading((k - 1) as nat, s);
        assert((zeros(k) + s).skip(1) =~= zeros((k - 1) as nat) + s);
    } else {
        assert(zeros(k) + s =~= s);
    }
}

/// A rounded number is a number of at most ten digits, followed by zeros.
proof fn rounded_shape(n: nat) -> (p: (nat, nat))
    ensures
        to_significant(n, SIGNIFICANT as nat) == p.0 * ten_to(p.1),
        decimal(p.0).len() <= SIGNIFICANT,
        p.0 > 0 || p.1 == 0,
{
    let len = decimal(n).len();
    decimal_length(n);
    assert(ten_to(0) == 1);
    if len <= SIGNIFICANT {
        assert(n * ten_to(0) == n);
        (n, 0nat)
    } else {
        let r = (len - SIGNIFICANT) as nat;
        let unit = ten_to(r);
        let q = (n + unit / 2) / unit;
        ten_to_grows(0, r);
        ten_to_grows(0, 10);
        ten_to_grows(0, 9);
        ten_to_adds(10, r);
        ten_to_adds(9, r);
        if n == 0 {
            decimal_begins(n);
        }
        let (x, y) = (ten_to(10), ten_to(9));
        assert(x == 10 * y);
        assert(y <= q <= x) by (nonlinear_arith)
            requires
                q == (n + unit / 2) / unit,
                y * unit <= n < x * unit,
                unit > 0,
        ;
        if q == x {
            ten_to_adds(10, r);
            decimal_begins(1);
            assert(1 * ten_to(10 + r) == q * unit);
            (1nat, 10 + r)
        } else {
            decimal_length(q);
            if decimal(q).len() > 10 {
                ten_to_grows(10, (decimal(q).len() - 1) as nat);
            }
            (q, r)
        }
    }
}

/// A rounded text shows at most ten significant digits.
#[verifier::spinoff_prover]
pub proof fn rounded_is_short(s: Seq<char>)
    requires
        is_decimal_text(s),
    ensures
        significant_digits(tidied(rounded_text(s))) <= SIGNIFICANT,
{
    let places = places_of(s);
    let n = digits_value(digits_of(s));
    let v = to_significant(n, SIGNIFICANT as nat);
    let d = padded(v, places + 1);
    let (a, b) = (d.take(d.len() - places), d.skip(d.len() - places));
    let text = rounded_text(s);
    tidied_digits(text);
    decimal_denotes(v);
    assert forall|i: int| 0 <= i < d.len() implies is_digit(#[trigger] d[i]) by {
        let pad = d.len() - decimal(v).len();
        if i >= pad {
            assert(d[i] == decimal(v)[i - pad]);
        }
    }
    assert forall|i: int| 0 <= i < a.len() implies is_digit(#[trigger] a[i]) by {
        assert(is_digit(d[i]));
    }
    assert forall|i: int| 0 <= i < b.len() implies is_digit(#[trigger] b[i]) by {
        assert(is_digit(d[i + d.len() - places]));
    }
    digits_of_run(a);
    digits_of_run(b);
    no_digit('.');
    no_digit('-');
    digits_add(sign_of(s), a + seq!['.'] + b);
    digits_add(a + seq!['.'], b);
    digits_add(a, seq!['.']);
    assert(digits_in(sign_of(s)) =~= Seq::<char>::empty()) by {
        reveal(Seq::filter);
    }
    assert(digits_in(text) =~= d);
    let (q, r) = rounded_shape(n);
    if q > 0 {
        decimal_multiple(q, r);
    } else {
        assert(q * ten_to(r) == 0) by (nonlinear_arith)
            requires
                q == 0,
        ;
        assert(decimal(v) =~= decimal(q) + zeros(r));
    }
    let k = (d.len() - decimal(v).len()) as nat;
    assert(d =~= zeros(k) + decimal(q) + zeros(r));
    trim_zeros(zeros(k) + decimal(q), r);
    trim_around(k, decimal(q));
}

/// A text of at most ten significant digits, without superfluous zeros before its
/// point, is its own rounded text.
#[verifier::spinoff_prover]
pub proof fn short_text_stays(s: Seq<char>)
    requires
        is_decimal_text(s),
        decimal(digits_value(digits_of(s))).len() <= SIGNIFICANT,
        unsigned_of(s)[0] != '0' || unsigned_of(s)[1] == '.',
    ensures
        rounded_text(s) == s,
{
    let t = unsigned_of(s);
    let i = upto(t, '.');
    let d = digits_of(s);
    let n = digits_value(d);
    decimal_point(t);
    assert(d[0] == t[0]);
    digits_of_all(s);
    let k = leading_zeros(d);
    stripped(d, k);
    assert(is_digit(d[0]));
    if t[0] == '0' {
        upto_is(t, '.', 1);
    }
    if k == d.len() {
        assert(decimal(n) =~= seq!['0']);
    }
    assert(padded(n, places_of(s) + 1) =~= d);
    assert(d.take(i) =~= t.take(i));
    assert(d.skip(i) =~= t.skip(i + 1));
    assert(t =~= t.take(i) + seq!['.'] + t.skip(i + 1));
    assert(s =~= sign_of(s) + t);
}

proof fn decimal_point(t: Seq<char>)
    requires
        0 <= upto(t, '.') < t.len(),
    ensures
        t[upto(t, '.')] == '.',
    decreases t.len(),
{
    if t[0] != '.' {
        upto_bounds(t.skip(1), '.');
        decimal_point(t.skip(1));
    }
}

proof fn digits_of_all(s: Seq<char>)
    requires
        is_decimal_text(s),
    ensures
        all_digits(digits_of(s)),
{
    let t = unsigned_of(s);
    let i = upto(t, '.');
    let d = digits_of(s);
    assert forall|j: int| 0 <= j < d.len() implies is_digit(#[trigger] d[j]) by {
        if j < i {
            assert(is_digit(t.take(i)[j]));
        } else {
            assert(is_digit(t.skip(i + 1)[j - i]));
        }
    }
}

/// How many zeros a run of digits begins with.
spec fn leading_zeros(d: Seq<char>) -> nat
    decreases d.len(),
{
    if d.len() > 0 && d[0] == '0' {
        1 + leading_zeros(d.skip(1))
    } else {
        0
    }
}

/// Leading zeros add nothing to the value; behind them is its decimal notation.
#[verifier::spinoff_prover]
proof fn stripped(d: Seq<char>, k: nat)
    requires
        all_digits(d),
        k == leading_zeros(d),
    ensures
        k <= d.len(),
        d == zeros(k) + d.skip(k as int),
        digits_value(d) == digits_value(d.skip(k as int)),
        k < d.len() ==> d[k as int] != '0' && decimal(digits_value(d)) == d.skip(k as int),
        k == d.len() ==> digits_value(d) == 0,
    decreases d.len(),
{
    if d.len() > 0 && d[0] == '0' {
        let t = d.skip(1);
        assert forall|i: int| 0 <= i < t.len() implies is_digit(#[trigger] t[i]) by {
            assert(is_digit(d[i + 1]));
        }
        stripped(t, (k - 1) as nat);
        assert(t.skip(k - 1) =~= d.skip(k as int));
        assert(d =~= seq!['0'] + t);
        value_adds(seq!['0'], t);
        assert(digits_value(seq!['0']) == 0) by {
            reveal_with_fuel(digits_value, 2);
            assert(seq!['0'].drop_last().len() == 0);
        }
        assert(d =~= zeros(k) + d.skip(k as int));
    } else {
        assert(d.skip(0) =~= d);
        assert(d =~= zeros(0) + d);
        if d.len() > 0 {
            canonical(d);
        }
    }
    if k == d.len() {
        assert(d.skip(k as int).len() == 0);
        assert(digits_value(d.skip(k as int)) == 0);
    }
}

// ---- code -----------------------------------------------------------------

/// Whether a text consists of digits from one place up to another.
fn digits_between(v: &[char], from: usize, to: usize) -> (r: bool)
    requires
        from <= to <= v@.len(),
    ensures
        r == all_digits(v@.subrange(from as int, to as int)),
{
    let ghost part = v@.subrange(from as int, to as int);
    for i in from..to
        invariant
            from <= i <= to <= v@.len(),
            part == v@.subrange(from as int, to as int),
            forall|j: int| 0 <= j < i - from ==> is_digit(#[trigger] part[j]),
    {
        assert(part[i - from] == v@[i as int]);
        if !digit(v[i]) {
            return false;
        }
    }
    true
}

/// The digits of the next larger number.
fn increment(d: &[char]) -> (out: Vec<char>)
    requires
        all_digits(d@),
    ensures
        all_digits(out@),
        digits_value(out@) == digits_value(d@) + 1,
        out@.len() > 0,
        d@.len() == 0 || d@[0] != '0' ==> out@[0] != '0',
    decreases d@.len(),
{
    if d.len() == 0 {
        let mut out: Vec<char> = Vec::new();
        out.push('1');
        proof {
            reveal_with_fuel(digits_value, 2);
            assert(out@.drop_last().len() == 0);
        }
        return out;
    }
    let n: usize = d.len();
    let c: char = d[n - 1];
    let head = slice_of(d, 0, n - 1);
    proof {
        assert(head@ =~= d@.drop_last());
        assert(is_digit(d@.last()));
        assert forall|i: int| 0 <= i < head@.len() implies is_digit(#[trigger] head@[i]) by {
            assert(is_digit(d@[i]));
        }
    }
    let mut out: Vec<char> = if c == '9' {
        increment(head.as_slice())
    } else {
        head
    };
    let ghost before = out@;
    let last: char = if c == '9' {
        '0'
    } else {
        ((c as u8) + 1) as char
    };
    out.push(last);
    assert(out@.drop_last() =~= before);
    assert(is_digit(last));
    out
}

/// The digits of a number, none of them a leading zero, rounded to ten significant
/// ones.
fn round_digits(d: &[char]) -> (out: Vec<char>)
    requires
        all_digits(d@),
        d@.len() > 0,
        d@[0] != '0',
    ensures
        out@ == decimal(to_significant(digits_value(d@), SIGNIFICANT as nat)),
{
    let n: usize = d.len();
    let ghost v = digits_value(d@);
    proof {
        canonical(d@);
    }
    if n <= SIGNIFICANT {
        let out = slice_of(d, 0, n);
        assert(out@ =~= d@);
        return out;
    }
    let keep = slice_of(d, 0, SIGNIFICANT);
    let up: bool = d[SIGNIFICANT] >= '5';
    let ghost r = (n - SIGNIFICANT) as nat;
    let ghost rest = d@.skip(SIGNIFICANT as int);
    proof {
        assert(d@ =~= keep@ + rest);
        assert forall|i: int| 0 <= i < keep@.len() implies is_digit(#[trigger] keep@[i]) by {
            assert(is_digit(d@[i]));
        }
        assert forall|i: int| 0 <= i < rest.len() implies is_digit(#[trigger] rest[i]) by {
            assert(is_digit(d@[i + SIGNIFICANT]));
        }
        value_adds(keep@, rest);
        half(rest);
    }
    let ghost k = digits_value(keep@);
    let mut out: Vec<char> = if up {
        increment(keep.as_slice())
    } else {
        keep
    };
    let ghost q = digits_value(out@);
    let ghost top = out@;
    proof {
        let unit = ten_to(r) as int;
        let low = digits_value(rest) as int;
        let e = (if up { low + unit / 2 - unit } else { low + unit / 2 }) as int;
        ten_to_grows(0, r);
        assert(0 <= e < unit);
        assert(v + unit / 2 == q * unit + e) by (nonlinear_arith)
            requires
                v == k * unit + low,
                up ==> q == k + 1 && e == low + unit / 2 - unit,
                !up ==> q == k && e == low + unit / 2,
        ;
        lemma_fundamental_div_mod_converse(v + unit / 2, unit, q as int, e);
        assert(to_significant(v, SIGNIFICANT as nat) == q * ten_to(r));
        value_bound(top);
        ten_to_grows(0, (top.len() - 1) as nat);
        canonical(top);
        decimal_multiple(q, r);
    }
    let mut i: usize = SIGNIFICANT;
    assert(out@ =~= top + zeros(0));
    while i < n
        invariant
            SIGNIFICANT <= i <= n,
            out@ == top + zeros((i - SIGNIFICANT) as nat),
        decreases n - i,
    {
        out.push('0');
        i = i + 1;
        assert(out@ =~= top + zeros((i - SIGNIFICANT) as nat));
    }
    out
}

/// A run of digits is at least half of the power of ten above it where its first
/// digit is five or more.
proof fn half(rest: Seq<char>)
    requires
        all_digits(rest),
        rest.len() > 0,
    ensures
        digits_value(rest) < ten_to(rest.len()),
        rest[0] >= '5' <==> digits_value(rest) + ten_to(rest.len()) / 2 >= ten_to(rest.len()),
{
    let (first, tail) = (seq![rest[0]], rest.skip(1));
    assert(rest =~= first + tail);
    assert forall|i: int| 0 <= i < tail.len() implies is_digit(#[trigger] tail[i]) by {
        assert(is_digit(rest[i + 1]));
    }
    value_adds(first, tail);
    value_bound(tail);
    value_bound(rest);
    let f = (rest[0] as u8 - '0' as u8) as int;
    assert(digits_value(first) == f) by {
        reveal_with_fuel(digits_value, 2);
        assert(first.drop_last().len() == 0);
        assert(is_digit(rest[0]));
    }
    assert(is_digit(rest[0]));
    let p = ten_to(tail.len()) as int;
    assert(ten_to(rest.len()) == 10 * p);
    assert(f >= 5 ==> f * p >= 5 * p) by (nonlinear_arith)
        requires
            p > 0 || p == 0,
    ;
    assert(f <= 4 ==> f * p <= 4 * p) by (nonlinear_arith)
        requires
            p > 0 || p == 0,
    ;
}

/// The digits of a number, some of them perhaps leading zeros, rounded to ten
/// significant ones.
fn round_run(d: &[char]) -> (out: Vec<char>)
    requires
        all_digits(d@),
    ensures
        out@ == decimal(to_significant(digits_value(d@), SIGNIFICANT as nat)),
{
    let mut k: usize = 0;
    assert(d@.skip(0) =~= d@);
    while k < d.len() && d[k] == '0'
        invariant
            k <= d@.len(),
            leading_zeros(d@) == k + leading_zeros(d@.skip(k as int)),
        decreases d@.len() - k,
    {
        assert(d@.skip(k as int).skip(1) =~= d@.skip(k + 1));
        k = k + 1;
    }
    proof {
        stripped(d@, k as nat);
    }
    if k == d.len() {
        let mut out: Vec<char> = Vec::new();
        out.push('0');
        assert(out@ =~= decimal(0));
        return out;
    }
    let rest = slice_of(d, k, d.len());
    proof {
        assert(rest@ =~= d@.skip(k as int));
        assert forall|j: int| 0 <= j < rest@.len() implies is_digit(#[trigger] rest@[j]) by {
            assert(is_digit(d@[j + k]));
        }
    }
    round_digits(rest.as_slice())
}

/// Puts the point before the last `places` digits of a number.
fn place_point(d: &[char], places: usize, Ghost(n): Ghost<nat>) -> (out: Vec<char>)
    requires
        d@ == decimal(n),
        places < usize::MAX,
    ensures
        out@ == point_text(n, places as nat),
{
    let mut full: Vec<char> = Vec::new();
    let missing: usize = if d.len() <= places {
        places + 1 - d.len()
    } else {
        0
    };
    let mut j: usize = 0;
    assert(full@ =~= zeros(0));
    while j < missing
        invariant
            j <= missing,
            full@ == zeros(j as nat),
        decreases missing - j,
    {
        full.push('0');
        j = j + 1;
        assert(full@ =~= zeros(j as nat));
    }
    push_chars(&mut full, d);
    assert(full@ =~= padded(n, places as nat + 1)) by {
        decimal_begins(n);
    }
    let mut out = slice_of(full.as_slice(), 0, full.len() - places);
    let fraction = slice_of(full.as_slice(), full.len() - places, full.len());
    out.push('.');
    push_chars(&mut out, fraction.as_slice());
    assert(out@ =~= point_text(n, places as nat));
    out
}

/// Rounds a decimal text to ten significant digits; none where the text is no
/// decimal text.
pub fn round_text(v: &[char]) -> (r: Option<Vec<char>>)
    ensures
        match r {
            Some(out) => is_decimal_text(v@) && out@ == rounded_text(v@),
            None => !is_decimal_text(v@),
        },
{
    let n: usize = v.len();
    let from: usize = if n > 0 && v[0] == '-' {
        1
    } else {
        0
    };
    let ghost t = unsigned_of(v@);
    assert(from == sign_of(v@).len());
    let point: usize = match find_char(v, '.', from) {
        Some(at) => {
            proof {
                upto_is(t, '.', at - from);
            }
            at
        },
        None => {
            proof {
                upto_is(t, '.', t.len() as int);
            }
            return None;
        },
    };
    let ghost i = point - from;
    assert(t.take(i) =~= v@.subrange(from as int, point as int));
    assert(t.skip(i + 1) =~= v@.subrange(point + 1, n as int));
    if point == from || !digits_between(v, from, point) || !digits_between(v, point + 1, n) {
        return None;
    }
    let mut d = slice_of(v, from, point);
    let tail = slice_of(v, point + 1, n);
    let places: usize = tail.len();
    push_chars(&mut d, tail.as_slice());
    assert(d@ == digits_of(v@));
    proof {
        digits_of_all(v@);
    }
    let e = round_run(d.as_slice());
    let mut out: Vec<char> = Vec::new();
    if from == 1 {
        out.push('-');
    }
    assert(out@ =~= sign_of(v@));
    let placed = place_point(
        e.as_slice(),
        places,
        Ghost(to_significant(digits_value(digits_of(v@)), SIGNIFICANT as nat)),
    );
    push_chars(&mut out, placed.as_slice());
    Some(out)
}

/// Removes trailing zeros and a trailing point.
pub fn tidy(v: &[char]) -> (out: Vec<char>)
    ensures
        out@ == tidied(v@),
{
    let w = trim_end_matches(v, '0');
    trim_end_matches(w.as_slice(), '.')
}

// ---- laws -----------------------------------------------------------------

/// Rounding to significant digits goes to the nearest number with that many: no other
/// multiple of the unit of the last of them is nearer, and of two that are equally near
/// it is the larger.
pub proof fn rounding_is_nearest(n: nat, digits: nat, k: int)
    requires
        decimal(n).len() > digits,
    ensures
        ({
            let unit = ten_to((decimal(n).len() - digits) as nat) as int;
            let v = to_significant(n, digits) as int;
            let far = |x: int|
                if x < n {
                    n - x
                } else {
                    x - n
                };
            &&& unit > 0
            &&& v % unit == 0
            &&& far(v) <= far(k * unit)
            &&& far(v) == far(k * unit) ==> k * unit <= v
        }),
{
    let r = (decimal(n).len() - digits) as nat;
    let unit = ten_to(r) as int;
    ten_to_grows(0, r);
    let half = unit / 2;
    assert(unit == 2 * half) by {
        assert(unit == 10 * ten_to((r - 1) as nat));
    }
    let q = (n + half) / unit;
    let v = q * unit;
    vstd::arithmetic::div_mod::lemma_fundamental_div_mod(n + half, unit);
    vstd::arithmetic::div_mod::lemma_mod_multiples_basic(q, unit);
    assert(unit * q == q * unit) by (nonlinear_arith);
    assert(v <= n + half < v + unit);
    assert(k <= q ==> k * unit <= v) by (nonlinear_arith)
        requires
            v == q * unit,
            unit > 0,
    ;
    assert(k > q ==> k * unit >= v + unit) by (nonlinear_arith)
        requires
            v == q * unit,
            unit > 0,
    ;
    assert(k < q ==> k * unit <= v - unit) by (nonlinear_arith)
        requires
            v == q * unit,
            unit > 0,
    ;
}

/// Powers of ten.
pub proof fn tens_multiply(k: nat)
    ensures
        ten_to(0) == 1,
        ten_to(k + 1) == 10 * ten_to(k),
{
}

/// A number with its point: the digits before it and behind it are those of the number,
/// so many behind it, at least one before it, and no zero leads the others.
pub proof fn points_divide(n: nat, places: nat) -> (at: int)
    ensures
        ({
            let t = point_text(n, places);
            &&& 0 < at < t.len()
            &&& t[at] == '.'
            &&& t.len() - at - 1 == places
            &&& all_digits(t.take(at) + t.skip(at + 1))
            &&& digits_value(t.take(at) + t.skip(at + 1)) == n
            &&& at > 1 ==> t[0] != '0'
        }),
{
    let d = padded(n, places + 1);
    let at = d.len() - places;
    let t = point_text(n, places);
    decimal_denotes(n);
    decimal_begins(n);
    assert(t.take(at) + t.skip(at + 1) =~= d);
    let w = places + 1;
    if decimal(n).len() < w {
        let k = (w - decimal(n).len()) as nat;
        zeros_value(k);
        value_adds(zeros(k), decimal(n));
        assert forall|i: int| 0 <= i < d.len() implies is_digit(#[trigger] d[i]) by {
            if i >= k {
                assert(is_digit(decimal(n)[i - k]));
            }
        }
        assert(0 * ten_to(decimal(n).len()) == 0);
    } else if at > 1 {
        assert(t[0] == d[0]);
        if n == 0 {
            assert(decimal(n).len() == 1);
        }
    }
    at
}

/// Tidying removes zeros at the end and then points, and nothing else.
pub proof fn tidying_splits(s: Seq<char>)
    ensures
        ({
            let t = tidied(s);
            &&& t.len() <= s.len()
            &&& t == s.take(t.len() as int)
            &&& t.len() > 0 ==> t.last() != '.'
            &&& forall|i: int| t.len() <= i < s.len() ==> #[trigger] s[i] == '0' || s[i] == '.'
            &&& s.len() > 0 && s.last() != '0' && s.last() != '.' ==> t == s
        }),
{
    let a = trim_end(s, only('0'));
    let t = trim_end(a, only('.'));
    trimming_splits(s, only('0'));
    trimming_splits(a, only('.'));
    assert(t =~= s.take(t.len() as int));
    assert forall|i: int| t.len() <= i < s.len() implies #[trigger] s[i] == '0' || s[i] == '.' by {
        if i < a.len() {
            assert(a[i] == s[i]);
            assert(only('.')(a[i]));
        } else {
            assert(only('0')(s[i]));
        }
    }
}

} // verus!
