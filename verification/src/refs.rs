//! Names of columns and cells: `A`, `Z`, `AA` and "A1"-style references.

use vstd::prelude::*;

use crate::decimal::{
    decimal, decimal_denotes, decimal_of, decimal_reads_back, parse_unsigned, unsigned_value,
};
use crate::text::{
    ascii_lower, ascii_upper, cases_pair_up, chars_of, digit, is_digit, is_letter, is_upper,
    letter, lower_char, push_chars, same_ignoring_case, slice_of, string_of, to_upper_char,
    upper_char,
};

verus! {

/// The capital letter of one base-26 digit.
pub open spec fn capital(d: int) -> char {
    (('A' as u8) + d) as u8 as char
}

/// The letters of the 0-based column `c`: A, B, ... Z, AA, AB, ...
pub open spec fn column_letters(c: nat) -> Seq<char>
    decreases c,
{
    if c < 26 {
        seq![capital(c as int)]
    } else {
        column_letters((c / 26 - 1) as nat).push(capital((c % 26) as int))
    }
}

/// The place of a letter in the alphabet, from 1, whatever its case.
pub open spec fn letter_place(c: char) -> int {
    upper_char(c) as u8 - 'A' as u8 + 1
}

/// The 1-based number of the column that a run of letters names.
pub open spec fn letters_value(s: Seq<char>) -> nat
    decreases s.len(),
{
    if s.len() == 0 {
        0
    } else {
        (letters_value(s.drop_last()) * 26 + letter_place(s.last())) as nat
    }
}

/// Whether every character of `s` is an ASCII letter.
pub open spec fn all_letters(s: Seq<char>) -> bool {
    forall|i: int| 0 <= i < s.len() ==> is_letter(#[trigger] s[i])
}

/// The 0-based column that `s` names: a run of letters, in either case, whose
/// 1-based number fits in 32 bits.
pub open spec fn column_named(s: Seq<char>) -> Option<u32> {
    if s.len() == 0 || !all_letters(s) || letters_value(s) > u32::MAX {
        None
    } else {
        Some((letters_value(s) - 1) as u32)
    }
}

/// The text of the reference to the 0-based cell (`r`, `c`).
pub open spec fn reference_text(r: nat, c: nat) -> Seq<char> {
    column_letters(c) + decimal(r + 1)
}

/// The position of the first digit of `s`, or its length where there is none.
pub open spec fn first_digit(s: Seq<char>) -> nat
    decreases s.len(),
{
    if s.len() == 0 || is_digit(s[0]) {
        0
    } else {
        1 + first_digit(s.skip(1))
    }
}

/// The 0-based cell (row, column) that `s` refers to: column letters, then the
/// 1-based number of the row.
pub open spec fn reference_named(s: Seq<char>) -> Option<(u32, u32)> {
    let k = first_digit(s) as int;
    if k == s.len() {
        None
    } else {
        match (column_named(s.take(k)), unsigned_value(s.skip(k), u32::MAX as nat)) {
            (Some(c), Some(n)) => if n == 0 {
                None
            } else {
                Some(((n - 1) as u32, c))
            },
            _ => None,
        }
    }
}

// ---- laws -----------------------------------------------------------------

/// The letters of a column are capitals, at least one, and their number is the
/// column's, counted from one.
pub proof fn column_letters_denote(c: nat)
    ensures
        column_letters(c).len() > 0,
        forall|i: int|
            0 <= i < column_letters(c).len() ==> is_upper(#[trigger] column_letters(c)[i]),
        letters_value(column_letters(c)) == c + 1,
    decreases c,
{
    if c < 26 {
        reveal_with_fuel(letters_value, 2);
        assert(column_letters(c).drop_last().len() == 0);
    } else {
        column_letters_denote((c / 26 - 1) as nat);
        assert(column_letters(c).drop_last() == column_letters((c / 26 - 1) as nat));
    }
}

/// Naming a column and reading the name gives the column back, for every column
/// but the last of the 32-bit range, whose 1-based number does not fit.
pub proof fn column_name_reads_back(c: u32)
    requires
        c < u32::MAX,
    ensures
        column_named(column_letters(c as nat)) == Some(c),
{
    column_letters_denote(c as nat);
    assert(all_letters(column_letters(c as nat)));
}

/// A run of letters is named by its own capitals: reading a column and naming
/// it gives the text back in upper case.
pub proof fn column_reads_and_names(s: Seq<char>)
    requires
        column_named(s) is Some,
    ensures
        column_letters(column_named(s).unwrap() as nat) == ascii_upper(s),
    decreases s.len(),
{
    assert(is_letter(s.last()));
    letters_name_back(s);
}

proof fn letters_name_back(s: Seq<char>)
    requires
        s.len() > 0,
        all_letters(s),
    ensures
        letters_value(s) > 0,
        column_letters((letters_value(s) - 1) as nat) == ascii_upper(s),
    decreases s.len(),
{
    let front = s.drop_last();
    let place = letter_place(s.last());
    assert(is_letter(s.last()));
    assert(1 <= place <= 26);
    assert(capital(place - 1) == upper_char(s.last()));
    if front.len() == 0 {
        assert(letters_value(front) == 0);
        assert(column_letters((place - 1) as nat) =~= ascii_upper(s));
    } else {
        assert(all_letters(front)) by {
            assert forall|i: int| 0 <= i < front.len() implies is_letter(#[trigger] front[i]) by {
                assert(front[i] == s[i]);
            }
        }
        letters_name_back(front);
        let v = letters_value(front);
        let c = (v * 26 + place - 1) as nat;
        assert(c / 26 == v && c % 26 == place - 1);
        assert(column_letters(c) =~= ascii_upper(s)) by {
            assert(ascii_upper(s).drop_last() =~= ascii_upper(front));
        }
    }
}

/// Where the digits start: letters first, then a digit.
proof fn first_digit_at(s: Seq<char>, k: int)
    requires
        0 <= k < s.len(),
        forall|i: int| 0 <= i < k ==> !is_digit(#[trigger] s[i]),
        is_digit(s[k]),
    ensures
        first_digit(s) == k,
    decreases s.len(),
{
    if k > 0 {
        assert(!is_digit(s[0]));
        assert forall|i: int| 0 <= i < k - 1 implies !is_digit(#[trigger] s.skip(1)[i]) by {
            assert(s.skip(1)[i] == s[i + 1]);
        }
        first_digit_at(s.skip(1), k - 1);
    }
}

/// Writing a reference and reading it gives the cell back, for every cell whose
/// 1-based row and column numbers fit in 32 bits.
pub proof fn reference_reads_back(r: u32, c: u32)
    requires
        r < u32::MAX,
        c < u32::MAX,
    ensures
        reference_named(reference_text(r as nat, c as nat)) == Some((r, c)),
{
    let letters = column_letters(c as nat);
    let digits = decimal((r + 1) as nat);
    let s = letters + digits;
    column_letters_denote(c as nat);
    column_name_reads_back(c);
    decimal_denotes((r + 1) as nat);
    decimal_reads_back((r + 1) as nat, u32::MAX as nat);
    let k = letters.len() as int;
    assert forall|i: int| 0 <= i < k implies !is_digit(#[trigger] s[i]) by {
        assert(is_upper(letters[i]));
    }
    assert(s[k] == digits[0]);
    assert(is_digit(digits[0]));
    first_digit_at(s, k);
    assert(s.take(k) == letters);
    assert(s.skip(k) == digits);
}

// ---- functions ------------------------------------------------------------

fn column_chars(c: u32) -> (v: Vec<char>)
    ensures
        v@ == column_letters(c as nat),
    decreases c,
{
    let mut v: Vec<char> = if c < 26 {
        Vec::new()
    } else {
        column_chars(c / 26 - 1)
    };
    v.push((65u8 + (c % 26) as u8) as char);
    assert(c < 26 ==> v@ =~= column_letters(c as nat));
    v
}

/// The spreadsheet letters of a 0-based column: A, B, ... Z, AA, AB, ...
pub fn col_name(c: u32) -> (s: String)
    ensures
        s@ == column_letters(c as nat),
{
    let v = column_chars(c);
    string_of(v.as_slice())
}

proof fn letters_value_grows(s: Seq<char>, i: int)
    requires
        0 <= i <= s.len(),
        all_letters(s),
    ensures
        letters_value(s.take(i)) <= letters_value(s),
    decreases s.len() - i,
{
    if i == s.len() {
        assert(s.take(i) == s);
    } else {
        letters_value_grows(s, i + 1);
        assert(s.take(i + 1).drop_last() == s.take(i));
        assert(is_letter(s[i]));
    }
}

fn column_of(v: &[char]) -> (r: Option<u32>)
    ensures
        r == column_named(v@),
{
    if v.len() == 0 {
        return None;
    }
    for i in 0..v.len()
        invariant
            forall|j: int| 0 <= j < i ==> is_letter(#[trigger] v@[j]),
    {
        if !letter(v[i]) {
            assert(!is_letter(v@[i as int]));
            return None;
        }
    }
    let mut n: u32 = 0;
    for i in 0..v.len()
        invariant
            all_letters(v@),
            n == letters_value(v@.take(i as int)),
            i > 0 ==> n > 0,
    {
        assert(is_letter(v@[i as int]));
        assert(v@.take(i + 1).drop_last() == v@.take(i as int));
        proof {
            letters_value_grows(v@, i + 1);
        }
        let k: u32 = (to_upper_char(v[i]) as u8 - 65) as u32 + 1;
        match n.checked_mul(26) {
            None => {
                return None;
            },
            Some(m) => {
                match m.checked_add(k) {
                    None => {
                        return None;
                    },
                    Some(sum) => {
                        n = sum;
                    },
                }
            },
        }
    }
    assert(v@.take(v@.len() as int) == v@);
    Some(n - 1)
}

/// The 0-based column that letters name; none if they are not all letters.
pub fn col_index(s: &str) -> (r: Option<u32>)
    ensures
        r == column_named(s@),
{
    let v = chars_of(s);
    column_of(v.as_slice())
}

/// The "A1"-style reference of a 0-based (row, column).
pub fn cell_ref(r: u32, c: u32) -> (s: String)
    requires
        r < u32::MAX,
    ensures
        s@ == reference_text(r as nat, c as nat),
{
    let mut v = column_chars(c);
    let d = decimal_of(r as u64 + 1);
    push_chars(&mut v, d.as_slice());
    string_of(v.as_slice())
}

/// The 0-based (row, column) of an "A1" reference.
pub fn parse_ref(s: &str) -> (r: Option<(u32, u32)>)
    ensures
        r == reference_named(s@),
{
    let v = chars_of(s);
    let mut k: usize = 0;
    assert(v@.skip(0) == v@);
    while k < v.len() && !digit(v[k])
        invariant
            k <= v@.len(),
            first_digit(v@) == k + first_digit(v@.skip(k as int)),
        decreases v@.len() - k,
    {
        assert(v@.skip(k as int).skip(1) == v@.skip(k + 1));
        k = k + 1;
    }
    if k == v.len() {
        return None;
    }
    let letters = slice_of(v.as_slice(), 0, k);
    let digits = slice_of(v.as_slice(), k, v.len());
    assert(letters@ == v@.take(k as int));
    assert(digits@ == v@.skip(k as int));
    match column_of(letters.as_slice()) {
        None => None,
        Some(c) => {
            match parse_unsigned(digits.as_slice(), u32::MAX as u64) {
                None => None,
                Some(n) => {
                    if n == 0 {
                        None
                    } else {
                        Some(((n - 1) as u32, c))
                    }
                },
            }
        },
    }
}

/// The columns run through the alphabet, and then through it again behind each name
/// before: A to Z, AA to AZ, BA to BZ, and so on.
pub proof fn columns_run_through_the_alphabet(c: nat, d: int)
    requires
        0 <= d < 26,
    ensures
        column_letters(d as nat) == seq![(65 + d) as u8 as char],
        column_letters((26 * (c + 1) + d) as nat) == column_letters(c).push(
            (65 + d) as u8 as char,
        ),
{
    let n = 26 * (c + 1) + d;
    assert(n / 26 == c + 1 && n % 26 == d);
}

/// A reference is the letters of a column, in whatever case, and the number of a row,
/// which counts from one.
pub proof fn references_name_cells(s: Seq<char>, t: Seq<char>, c: u32, n: nat)
    requires
        column_named(s) == Some(c),
        n <= u32::MAX,
        same_ignoring_case(s, t),
    ensures
        n > 0 ==> reference_named(s + decimal(n)) == Some(((n - 1) as u32, c)),
        n == 0 ==> reference_named(s + decimal(n)) is None,
        reference_named(s) is None,
        column_named(t) == column_named(s),
{
    let x = s + decimal(n);
    decimal_denotes(n);
    decimal_reads_back(n, u32::MAX as nat);
    assert(is_digit(decimal(n)[0]));
    letters_before(s, decimal(n));
    assert(x.take(s.len() as int) =~= s);
    assert(x.skip(s.len() as int) =~= decimal(n));
    letters_before(s, Seq::empty());
    assert(s + Seq::<char>::empty() =~= s);
    case_means_nothing(s, t);
}

proof fn letters_before(s: Seq<char>, rest: Seq<char>)
    requires
        all_letters(s),
        rest.len() == 0 || is_digit(rest[0]),
    ensures
        first_digit(s + rest) == s.len(),
    decreases s.len(),
{
    if s.len() > 0 {
        assert(is_letter(s[0]));
        let t = s.skip(1);
        assert forall|i: int| 0 <= i < t.len() implies is_letter(#[trigger] t[i]) by {
            assert(is_letter(s[i + 1]));
        }
        letters_before(t, rest);
        assert((s + rest).skip(1) =~= t + rest);
    } else {
        assert(s + rest =~= rest);
    }
}

proof fn case_means_nothing(s: Seq<char>, t: Seq<char>)
    requires
        same_ignoring_case(s, t),
    ensures
        s.len() == t.len(),
        all_letters(s) <==> all_letters(t),
        all_letters(s) ==> letters_value(s) == letters_value(t),
    decreases s.len(),
{
    cases_pair_up('a', s, t);
    assert forall|i: int| 0 <= i < s.len() implies is_letter(#[trigger] s[i]) == is_letter(t[i])
        && (is_letter(s[i]) ==> letter_place(s[i]) == letter_place(t[i])) by {
        assert(lower_char(s[i]) == lower_char(t[i]));
    }
    if s.len() > 0 {
        let (a, b) = (s.drop_last(), t.drop_last());
        assert(ascii_lower(a) =~= ascii_lower(s).drop_last());
        assert(ascii_lower(b) =~= ascii_lower(t).drop_last());
        case_means_nothing(a, b);
        assert(is_letter(s[s.len() - 1]) == is_letter(t[t.len() - 1]));
        if all_letters(s) {
            assert(is_letter(s[s.len() - 1]));
            assert forall|i: int| 0 <= i < a.len() implies is_letter(#[trigger] a[i]) by {
                assert(is_letter(s[i]));
            }
            assert forall|i: int| 0 <= i < t.len() implies is_letter(#[trigger] t[i]) by {
                assert(is_letter(s[i]) == is_letter(t[i]));
            }
        } else if all_letters(t) {
            assert forall|i: int| 0 <= i < s.len() implies is_letter(#[trigger] s[i]) by {
                assert(is_letter(s[i]) == is_letter(t[i]));
            }
        }
    }
}

} // verus!
