//! Dates of the Gregorian calendar, counted in days.

use vstd::prelude::*;

use crate::decimal::{all_digits, decimal, decimal_denotes, decimal_of, digits_value};
use crate::text::{is_digit, push_chars, string_of};

verus! {

pub open spec fn is_leap(y: int) -> bool {
    y % 4 == 0 && (y % 100 != 0 || y % 400 == 0)
}

pub open spec fn days_in_month(y: int, m: int) -> int {
    if m == 2 {
        if is_leap(y) {
            29
        } else {
            28
        }
    } else if m == 4 || m == 6 || m == 9 || m == 11 {
        30
    } else {
        31
    }
}

/// How many days of the year come before a month.
pub open spec fn days_before_month(y: int, m: int) -> int
    decreases m,
{
    if m <= 1 {
        0
    } else {
        days_before_month(y, m - 1) + days_in_month(y, m - 1)
    }
}

/// How many leap years there are from the year 1 to the year `y`; counted
/// backwards before it.
pub open spec fn leap_years(y: int) -> int {
    y / 4 - y / 100 + y / 400
}

/// How many days lie between the first of January 1970 and that of the year `y`.
pub open spec fn days_before_year(y: int) -> int {
    365 * (y - 1970) + leap_years(y - 1) - leap_years(1969)
}

/// Whether there is such a date.
pub open spec fn is_date(y: int, m: int, d: int) -> bool {
    1 <= m <= 12 && 1 <= d <= days_in_month(y, m)
}

/// How many days a date lies after the first of January 1970.
pub open spec fn day_number(y: int, m: int, d: int) -> int {
    days_before_year(y) + days_before_month(y, m) + d - 1
}

/// The number of days before each month, written out.
proof fn months_written_out(y: int)
    ensures
        days_before_month(y, 1) == 0,
        days_before_month(y, 2) == 31,
        forall|m: int|
            3 <= m <= 12 ==> #[trigger] days_before_month(y, m) == (153 * (m - 3) + 2) / 5 + 59 + (
            if is_leap(y) {
                1int
            } else {
                0
            }),
{
    reveal_with_fuel(days_before_month, 13);
    assert forall|m: int| 3 <= m <= 12 implies #[trigger] days_before_month(y, m) == (153 * (m - 3)
        + 2) / 5 + 59 + (if is_leap(y) {
        1int
    } else {
        0
    }) by {
        assert(m == 3 || m == 4 || m == 5 || m == 6 || m == 7 || m == 8 || m == 9 || m == 10 || m
            == 11 || m == 12);
    }
}

/// A year has 365 days, a leap year one more.
proof fn year_length(y: int)
    ensures
        days_before_year(y + 1) == days_before_year(y) + 365 + (if is_leap(y) {
            1int
        } else {
            0
        }),
        days_before_month(y, 12) + 31 == 365 + (if is_leap(y) {
            1int
        } else {
            0
        }),
{
    months_written_out(y);
}

/// The year of a day within a cycle of 400 years that begins in March.
spec fn year_of_cycle(doe: int) -> int {
    (doe - doe / 1460 + doe / 36_524 - doe / 146_096) / 365
}

/// How many days of a cycle come before a year of it.
spec fn days_before_cycle_year(yoe: int) -> int {
    365 * yoe + yoe / 4 - yoe / 100
}

proof fn year_of_cycle_found(doe: int)
    requires
        0 <= doe <= 146_096,
    ensures
        0 <= year_of_cycle(doe) <= 399,
        0 <= doe - days_before_cycle_year(year_of_cycle(doe)) <= 365,
        doe - days_before_cycle_year(year_of_cycle(doe)) == 365 ==> is_leap(
            year_of_cycle(doe) + 1,
        ),
{
    let c: int = if doe == 146_096 {
        3
    } else {
        doe / 36_524
    };
    let r = doe - c * 36_524;
    assert(0 <= c <= 3 && 0 <= r <= 36_524);
    let q = r / 1461;
    let t = r - q * 1461;
    assert(0 <= q <= 24 && 0 <= t <= 1460);
    let k: int = if t == 1460 {
        3
    } else {
        t / 365
    };
    assert(0 <= k <= 3);
    let yoe = 100 * c + 4 * q + k;
    assert(days_before_cycle_year(yoe) == 36_524 * c + 1461 * q + 365 * k);
    assert(year_of_cycle(doe) == yoe);
}

/// How many days lie before the first of March of a year.
proof fn march_first(era: int, yoe: int)
    requires
        0 <= yoe <= 399,
    ensures
        days_before_year(yoe + 400 * era) + 59 + (if is_leap(yoe + 400 * era) {
            1int
        } else {
            0
        }) == 146_097 * era + days_before_cycle_year(yoe) - 719_468,
{
    let y = yoe + 400 * era;
    assert(y / 4 == yoe / 4 + 100 * era);
    assert(y / 100 == yoe / 100 + 4 * era);
    assert(y / 400 == era);
    assert(leap_years(y) == leap_years(y - 1) + (if is_leap(y) {
        1int
    } else {
        0
    }));
}

/// The date of a day of a year that begins in March.
proof fn date_of_year(y: int, doy: int)
    requires
        0 <= doy <= 365,
        doy == 365 ==> is_leap(y + 1),
    ensures
        ({
            let mp = (5 * doy + 2) / 153;
            let d = doy - (153 * mp + 2) / 5 + 1;
            let (year, m) = if mp < 10 {
                (y, mp + 3)
            } else {
                (y + 1, mp - 9)
            };
            &&& 0 <= mp <= 11
            &&& is_date(year, m, d)
            &&& day_number(year, m, d) == days_before_year(y) + 59 + (if is_leap(y) {
                1int
            } else {
                0
            }) + doy
        }),
{
    let mp = (5 * doy + 2) / 153;
    months_written_out(y);
    months_written_out(y + 1);
    year_length(y);
    assert(mp == 0 || mp == 1 || mp == 2 || mp == 3 || mp == 4 || mp == 5 || mp == 6 || mp == 7
        || mp == 8 || mp == 9 || mp == 10 || mp == 11);
}

/// A leap year is one in every cycle.
proof fn leap_in_every_cycle(era: int, yoe: int)
    ensures
        is_leap(yoe + 400 * era) == is_leap(yoe),
{
    let y = yoe + 400 * era;
    assert(y % 4 == yoe % 4);
    assert(y % 100 == yoe % 100);
    assert(y % 400 == yoe % 400);
}

/// The cycle of 400 years that a day lies in, and the day within it.
fn cycle_of(z: i64) -> (r: (i64, i64))
    requires
        z >= i64::MIN + 146_097,
    ensures
        z == 146_097 * r.0 + r.1,
        0 <= r.1 <= 146_096,
        i64::MIN / 146_097 <= r.0 <= i64::MAX / 146_097,
{
    let era: i64 = if z >= 0 {
        z / 146_097
    } else {
        -((146_096 - z) / 146_097)
    };
    (era, z - era * 146_097)
}

/// The year of a day within a cycle, and the day within it.
fn year_of(doe: i64) -> (r: (i64, i64))
    requires
        0 <= doe <= 146_096,
    ensures
        0 <= r.0 <= 399,
        0 <= r.1 <= 365,
        r.1 == 365 ==> is_leap(r.0 + 1),
        doe == days_before_cycle_year(r.0 as int) + r.1,
{
    proof {
        year_of_cycle_found(doe as int);
    }
    let yoe: i64 = (doe - doe / 1460 + doe / 36_524 - doe / 146_096) / 365;
    let doy: i64 = doe - (365 * yoe + yoe / 4 - yoe / 100);
    (yoe, doy)
}

/// The civil date of a day, counted from the first of January 1970.
pub fn civil_from_days(z: i64) -> (date: (i64, u32, u32))
    requires
        z <= i64::MAX - 719_468,
    ensures
        is_date(date.0 as int, date.1 as int, date.2 as int),
        day_number(date.0 as int, date.1 as int, date.2 as int) == z,
{
    let (era, doe) = cycle_of(z + 719_468);
    let (yoe, doy) = year_of(doe);
    let y: i64 = yoe + era * 400;
    let mp: i64 = (5 * doy + 2) / 153;
    proof {
        leap_in_every_cycle(era as int, yoe + 1);
        march_first(era as int, yoe as int);
        date_of_year(y as int, doy as int);
    }
    let d: u32 = (doy - (153 * mp + 2) / 5 + 1) as u32;
    if mp < 10 {
        (y, (mp + 3) as u32, d)
    } else {
        (y + 1, (mp - 9) as u32, d)
    }
}

/// Later years begin later.
proof fn years_follow(a: int, b: int)
    requires
        a <= b,
    ensures
        days_before_year(a) <= days_before_year(b),
    decreases b - a,
{
    if a < b {
        years_follow(a, b - 1);
        year_length(b - 1);
    }
}

/// Later months begin later, by at least the days of the months between.
proof fn months_follow(y: int, a: int, b: int)
    requires
        1 <= a < b <= 12,
    ensures
        days_before_month(y, a) + days_in_month(y, a) <= days_before_month(y, b),
    decreases b - a,
{
    if a + 1 < b {
        months_follow(y, a, b - 1);
    }
}

/// A date lies within its year.
proof fn date_within_year(y: int, m: int, d: int)
    requires
        is_date(y, m, d),
    ensures
        days_before_year(y) <= day_number(y, m, d) < days_before_year(y + 1),
{
    year_length(y);
    if m < 12 {
        months_follow(y, m, 12);
    }
    if m > 1 {
        months_follow(y, 1, m);
    }
}

/// Every day has one date only.
pub proof fn one_date_per_day(y: int, m: int, d: int, y2: int, m2: int, d2: int)
    requires
        is_date(y, m, d),
        is_date(y2, m2, d2),
        day_number(y, m, d) == day_number(y2, m2, d2),
    ensures
        y == y2,
        m == m2,
        d == d2,
{
    date_within_year(y, m, d);
    date_within_year(y2, m2, d2);
    if y < y2 {
        years_follow(y + 1, y2);
    } else if y2 < y {
        years_follow(y2 + 1, y);
    } else if m < m2 {
        months_follow(y, m, m2);
    } else if m2 < m {
        months_follow(y, m2, m);
    }
}

// ---- spreadsheet dates ----------------------------------------------------

/// The decimal digits of a number, with zeros in front to fill `width`.
pub open spec fn padded(n: nat, width: nat) -> Seq<char> {
    let d = decimal(n);
    if d.len() < width {
        Seq::new((width - d.len()) as nat, |i: int| '0') + d
    } else {
        d
    }
}

/// Hours and minutes of a number of seconds.
pub open spec fn clock_text(secs: nat) -> Seq<char> {
    padded(secs / 3600, 2) + seq![':'] + padded((secs % 3600) / 60, 2)
}

/// A date as year, month and day.
pub open spec fn date_text(y: nat, m: nat, d: nat) -> Seq<char> {
    padded(y, 4) + seq!['-'] + padded(m, 2) + seq!['-'] + padded(d, 2)
}

/// Whether a date is that of a day, counted from the first of January 1970.
pub open spec fn dates(y: int, m: int, d: int, z: int) -> bool {
    is_date(y, m, d) && day_number(y, m, d) == z
}

/// The date of a day, counted from the first of January 1970.
pub open spec fn date_of(z: int) -> (int, int, int) {
    choose|y: int, m: int, d: int| dates(y, m, d, z)
}

/// The text of a spreadsheet date, whose day 25569 is the first of January 1970:
/// the date of the day, with the time of day where that is not midnight; without a
/// day, the time of day.
pub open spec fn serial_text(days: Option<i64>, secs: nat) -> Seq<char> {
    match days {
        None => clock_text(secs),
        Some(n) => {
            let (y, m, d) = date_of(n - 25_569);
            let date = date_text(y as nat, m as nat, d as nat);
            if secs > 0 {
                date + seq![' '] + clock_text(secs)
            } else {
                date
            }
        },
    }
}

fn push_padded(out: &mut Vec<char>, n: u64, width: usize)
    ensures
        final(out)@ == old(out)@ + padded(n as nat, width as nat),
{
    let ghost before = out@;
    let d = decimal_of(n);
    let mut i: usize = d.len();
    while i < width
        invariant
            d@ == decimal(n as nat),
            d@.len() <= i,
            i <= width || i == d@.len(),
            out@ == before + Seq::new((i - d@.len()) as nat, |i: int| '0'),
        decreases width - i,
    {
        out.push('0');
        i = i + 1;
        assert(out@ =~= before + Seq::new((i - d@.len()) as nat, |i: int| '0'));
    }
    push_chars(out, d.as_slice());
    assert(out@ =~= before + padded(n as nat, width as nat));
}

fn push_clock(out: &mut Vec<char>, secs: u32)
    ensures
        final(out)@ == old(out)@ + clock_text(secs as nat),
{
    let ghost before = out@;
    push_padded(out, (secs / 3600) as u64, 2);
    out.push(':');
    push_padded(out, ((secs % 3600) / 60) as u64, 2);
    assert(out@ =~= before + clock_text(secs as nat));
}

/// Formats an Excel date serial as a readable `YYYY-MM-DD` (with `HH:MM` when
/// there's a time part, or just `HH:MM` for a time-only value). `days` is the
/// whole part of the serial, none where that is less than one; `secs` are the
/// seconds of its fraction of a day.
pub fn excel_serial_to_string(days: Option<i64>, secs: u32) -> (s: String)
    requires
        days is Some ==> 0 <= days->0 <= i64::MAX - 719_468,
    ensures
        s@ == serial_text(days, secs as nat),
{
    let mut out: Vec<char> = Vec::new();
    match days {
        None => {
            push_clock(&mut out, secs);
            assert(out@ =~= clock_text(secs as nat));
        },
        Some(n) => {
            let (y, m, d) = civil_from_days(n - 25_569);
            proof {
                date_within_year(y as int, m as int, d as int);
                if y < 0 {
                    years_follow(y + 1, 0);
                }
                assert(dates(y as int, m as int, d as int, n - 25_569));
                let (y2, m2, d2) = date_of(n - 25_569);
                one_date_per_day(y as int, m as int, d as int, y2, m2, d2);
            }
            push_padded(&mut out, y as u64, 4);
            out.push('-');
            push_padded(&mut out, m as u64, 2);
            out.push('-');
            push_padded(&mut out, d as u64, 2);
            assert(out@ =~= date_text(y as nat, m as nat, d as nat));
            if secs > 0 {
                out.push(' ');
                push_clock(&mut out, secs);
                assert(out@ =~= date_text(y as nat, m as nat, d as nat) + seq![' ']
                    + clock_text(secs as nat));
            }
        },
    }
    string_of(out.as_slice())
}

// ---- laws -----------------------------------------------------------------

/// The day after a date is the next of its month, or the first of the next month, or
/// the first day of the next year; the months have the days that they have, and the
/// count begins with the first of January 1970.
pub proof fn days_follow(y: int, m: int, d: int)
    requires
        is_date(y, m, d),
    ensures
        ({
            let leap = (y % 4 == 0 && y % 100 != 0) || y % 400 == 0;
            let length: int = if m == 2 {
                if leap {
                    29
                } else {
                    28
                }
            } else if m == 4 || m == 6 || m == 9 || m == 11 {
                30
            } else {
                31
            };
            let next = day_number(y, m, d) + 1;
            &&& d <= length
            &&& d < length ==> is_date(y, m, d + 1) && day_number(y, m, d + 1) == next
            &&& d == length && m < 12 ==> is_date(y, m + 1, 1) && day_number(y, m + 1, 1) == next
            &&& d == length && m == 12 ==> is_date(y + 1, 1, 1) && day_number(y + 1, 1, 1) == next
            &&& day_number(1970, 1, 1) == 0
        }),
{
    year_length(y);
    months_written_out(y);
    months_written_out(1970);
}

/// A number in so many digits, or more where it takes more.
proof fn padding_keeps(n: nat, w: nat)
    ensures
        all_digits(padded(n, w)),
        digits_value(padded(n, w)) == n,
        padded(n, w).len() >= w,
        padded(n, w).len() > w ==> padded(n, w) == decimal(n),
{
    decimal_denotes(n);
    let d = decimal(n);
    if d.len() < w {
        let k = (w - d.len()) as nat;
        zeros_add_nothing(k, d);
        assert(Seq::new(k, |i: int| '0') + d =~= padded(n, w));
    }
}

proof fn zeros_add_nothing(k: nat, d: Seq<char>)
    requires
        all_digits(d),
    ensures
        all_digits(Seq::new(k, |i: int| '0') + d),
        digits_value(Seq::new(k, |i: int| '0') + d) == digits_value(d),
    decreases k + d.len(),
{
    let s = Seq::new(k, |i: int| '0') + d;
    assert forall|i: int| 0 <= i < s.len() implies is_digit(#[trigger] s[i]) by {
        if i >= k {
            assert(is_digit(d[i - k]));
        }
    }
    if d.len() > 0 {
        let t = d.drop_last();
        assert forall|i: int| 0 <= i < t.len() implies is_digit(#[trigger] t[i]) by {
            assert(is_digit(d[i]));
        }
        zeros_add_nothing(k, t);
        assert(s.drop_last() =~= Seq::new(k, |i: int| '0') + t);
    } else if k > 0 {
        zeros_add_nothing((k - 1) as nat, d);
        assert(s.drop_last() =~= Seq::new((k - 1) as nat, |i: int| '0') + d);
        assert(digits_value(s.drop_last()) == 0);
    } else {
        assert(s =~= d);
    }
}

/// A spreadsheet date is written as the year in four digits, the month and the day in
/// two, with dashes between; the time of day, where there is one, follows as hours and
/// minutes in two digits, the whole minutes that have passed.
pub proof fn dates_are_written(n: i64, secs: nat, y: int, m: int, d: int)
    requires
        0 <= y,
        is_date(y, m, d),
        day_number(y, m, d) == n - 25_569,
    ensures
        ({
            let (a, b, c) = (padded(y as nat, 4), padded(m as nat, 2), padded(d as nat, 2));
            let (h, k) = (padded(secs / 3600, 2), padded((secs % 3600) / 60, 2));
            let date = a + seq!['-'] + b + seq!['-'] + c;
            let clock = h + seq![':'] + k;
            &&& serial_text(Some(n), 0) == date
            &&& secs > 0 ==> serial_text(Some(n), secs) == date + seq![' '] + clock
            &&& serial_text(None, secs) == clock
            &&& digits_value(a) == y && digits_value(b) == m && digits_value(c) == d
            &&& a.len() >= 4 && b.len() == 2 && c.len() == 2
            &&& 60 * (60 * digits_value(h) + digits_value(k)) <= secs
            &&& secs < 60 * (60 * digits_value(h) + digits_value(k)) + 60
            &&& digits_value(k) < 60
        }),
{
    let z = n - 25_569;
    assert(dates(y, m, d, z));
    let (y2, m2, d2) = date_of(z);
    one_date_per_day(y, m, d, y2, m2, d2);
    padding_keeps(y as nat, 4);
    padding_keeps(m as nat, 2);
    padding_keeps(d as nat, 2);
    padding_keeps(secs / 3600, 2);
    padding_keeps((secs % 3600) / 60, 2);
    two_digits(m as nat);
    two_digits(d as nat);
}

proof fn two_digits(n: nat)
    requires
        n < 100,
    ensures
        decimal(n).len() <= 2,
{
    reveal_with_fuel(decimal, 3);
}

} // verus!
