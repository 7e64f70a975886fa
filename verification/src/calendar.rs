//! Calendar dates of day counts: the proleptic Gregorian date that lies
//! a given number of days after 1970-01-01.

use vstd::prelude::*;
use vstd::arithmetic::div_mod::{lemma_fundamental_div_mod_converse, lemma_mod_multiples_vanish};
use vstd::string::*;
use crate::text::{dec, push_char, push_decimal};

verus! {

/// A Gregorian leap year: divisible by 4, and by 400 when divisible by
/// 100.
pub open spec fn is_leap(y: int) -> bool {
    y % 4 == 0 && (y % 100 != 0 || y % 400 == 0)
}

/// The number of days in month `m` (1 to 12) of year `y`.
pub open spec fn days_in_month(y: int, m: int) -> int {
    if m == 2 {
        if is_leap(y) {
            29
        } else {
            28
        }
    } else if m == 4 || m == 6 || m == 9 || m == 11 {
        30
    } else {
        31
    }
}

/// `y-m-d` names a day of the calendar.
pub open spec fn valid_date(y: int, m: int, d: int) -> bool {
    1 <= m <= 12 && 1 <= d <= days_in_month(y, m)
}

/// The number of days from 1970-01-01 to `y-m-d` (negative before it).
/// Years are counted from March 1, so that the leap day closes a year:
/// whole 400-year eras of 146097 days, then 365 days a year plus a leap
/// day every fourth year but the hundredth, then the days of the months
/// since March (153 days every five months) and of the month.
pub open spec fn days_from_civil(y: int, m: int, d: int) -> int {
    let yy = if m <= 2 {
        y - 1
    } else {
        y
    };
    let era = yy / 400;
    let yoe = yy - era * 400;
    let mp = if m > 2 {
        m - 3
    } else {
        m + 9
    };
    let doy = (153 * mp + 2) / 5 + d - 1;
    let doe = yoe * 365 + yoe / 4 - yoe / 100 + doy;
    era * 146097 + doe - 719468
}

/// Day `doe` of a 400-year era counted from March 1 lies in year `yoe`
/// of the era: at or after that year's first day and before the next
/// year's.
proof fn lemma_year_of_era(doe: u32)
    by (bit_vector)
    requires
        doe <= 146096,
    ensures
        ({
            let yoe = (doe - doe / 1460 + doe / 36524 - doe / 146096) / 365;
            let next = yoe + 1;
            &&& yoe <= 399
            &&& 365 * yoe + yoe / 4 - yoe / 100 <= doe
            &&& doe < 365 * next + next / 4 - next / 100 + next / 400
        }),
{
}

/// The year that starts on March 1 before calendar year `y` (counted
/// within an era) has 366 days exactly when `y` is a leap year.
proof fn lemma_year_length(y: u32)
    by (bit_vector)
    requires
        1 <= y <= 400,
    ensures
        ((365 * y + y / 4 - y / 100 + y / 400) - (365 * (y - 1) + (y - 1) / 4 - (y - 1) / 100) == 366)
            == (y % 4 == 0 && (y % 100 != 0 || y % 400 == 0)),
        (365 * y + y / 4 - y / 100 + y / 400) - (365 * (y - 1) + (y - 1) / 4 - (y - 1) / 100) >= 365,
        (365 * y + y / 4 - y / 100 + y / 400) - (365 * (y - 1) + (y - 1) / 4 - (y - 1) / 100) <= 366,
{
}

/// Day `doy` of a year counted from March 1 falls on month index `mp`
/// (0 for March) and day `d` of that month, within the month's length;
/// only the year's last day, in a 366-day year, is a February 29.
proof fn lemma_month_of_day(doy: u32)
    by (bit_vector)
    requires
        doy <= 365,
    ensures
        ({
            let mp = (5 * doy + 2) / 153;
            let d = doy - (153 * mp + 2) / 5 + 1;
            &&& mp <= 11
            &&& (153 * mp + 2) / 5 <= doy
            &&& 1 <= d
            &&& (mp == 11 ==> d <= 28 || (d == 29 && doy == 365))
            &&& ((mp == 1 || mp == 3 || mp == 6 || mp == 8) ==> d <= 30)
            &&& d <= 31
        }),
{
}


/// The calendar date `days` days after 1970-01-01, as `(year, month,
/// day)`: the one valid date whose day count is `days`. The year is
/// returned as an `i32`, cut to its low 32 bits when it does not fit.
pub fn civil_from_days(days: i64) -> (r: (i32, u32, u32))
    requires
        days <= i64::MAX - 719_468,
    ensures
        exists|y: int|
            r.0 == y as i32 && valid_date(y, r.1 as int, r.2 as int) && #[trigger] days_from_civil(
                y,
                r.1 as int,
                r.2 as int,
            ) == days,
{
    let z = days + 719_468;
    let era = (if z >= 0 {
        z
    } else {
        z - 146_096
    }) / 146_097;
    assert(era * 146_097 <= z < era * 146_097 + 146_097);
    let doe = (z - era * 146_097) as u32;
    proof {
        lemma_year_of_era(doe);
    }
    let yoe = (doe - doe / 1460 + doe / 36524 - doe / 146096) / 365;
    let y = yoe as i64 + era * 400;
    let doy = doe - (365 * yoe + yoe / 4 - yoe / 100);
    proof {
        lemma_year_length((yoe + 1) as u32);
        lemma_month_of_day(doy);
    }
    let mp = (5 * doy + 2) / 153;
    let d = doy - (153 * mp + 2) / 5 + 1;
    let m = if mp < 10 {
        mp + 3
    } else {
        mp - 9
    };
    let year = if m <= 2 {
        y + 1
    } else {
        y
    };
    proof {
        let yy: int = era * 400 + yoe;
        lemma_fundamental_div_mod_converse(yy, 400, era as int, yoe as int);
        if m <= 2 {
            let k: int = yoe + 1;
            lemma_mod_multiples_vanish(era * 100, k, 4);
            lemma_mod_multiples_vanish(era * 4, k, 100);
            lemma_mod_multiples_vanish(era as int, k, 400);
            assert(era * 100 * 4 == era * 400) by (nonlinear_arith);
            assert(era * 4 * 100 == era * 400) by (nonlinear_arith);
            assert(is_leap(year as int) == (k % 4 == 0 && (k % 100 != 0 || k % 400 == 0)));
        }
        assert(valid_date(year as int, m as int, d as int));
        assert(days_from_civil(year as int, m as int, d as int) == days);
    }
    let r = (#[verifier::truncate] (year as i32), m, d);
    assert(r.0 == (year as int) as i32 && valid_date(year as int, r.1 as int, r.2 as int)
        && days_from_civil(year as int, r.1 as int, r.2 as int) == days);
    r
}

/// Day `d` of month index `mp` (0 for March), within that month's length
/// (29 days allowed in February), is day `doy` of the March-based year,
/// and `doy` gives the month and day back.
proof fn lemma_day_of_month(mp: u32, d: u32)
    by (bit_vector)
    requires
        mp <= 11,
        1 <= d <= 31,
        mp == 11 ==> d <= 29,
        (mp == 1 || mp == 3 || mp == 6 || mp == 8) ==> d <= 30,
    ensures
        ({
            let doy = ((153 * mp + 2) / 5 + d - 1) as u32;
            &&& doy <= 365
            &&& (5 * doy + 2) / 153 == mp
            &&& doy - (153 * mp + 2) / 5 + 1 == d
            &&& (mp == 11 && d == 29) ==> doy == 365
            &&& doy == 365 ==> (mp == 11 && d == 29)
        }),
{
}

/// Day `doy` of year `yoe` of an era, within that year's length, is day
/// `doe` of the era, and `doe` gives the year back.
proof fn lemma_day_of_era(yoe: u32, next: u32, doy: u32, doe: u32)
    by (bit_vector)
    requires
        yoe <= 399,
        next == (yoe + 1) as u32,
        doy <= 365,
        doy < ((365 * next + next / 4 - next / 100 + next / 400) - (365 * yoe + yoe / 4 - yoe / 100)) as u32,
        doe == (365 * yoe + yoe / 4 - yoe / 100 + doy) as u32,
    ensures
        doe <= 146096,
        ((doe - doe / 1460 + doe / 36524 - doe / 146096) / 365) as u32 == yoe,
{
}

/// The parts of a valid date's day count: its era, year of the era, day
/// of the era, month index and day of the March-based year are in range,
/// and the day count is the era's first day plus the day of the era.
proof fn lemma_date_parts(y: int, m: int, d: int)
    requires
        valid_date(y, m, d),
    ensures
        ({
            let yy = if m <= 2 {
                y - 1
            } else {
                y
            };
            let era = yy / 400;
            let yoe = yy - era * 400;
            let mp = if m > 2 {
                m - 3
            } else {
                m + 9
            };
            let doy = (153 * mp + 2) / 5 + d - 1;
            let doe = yoe * 365 + yoe / 4 - yoe / 100 + doy;
            &&& 0 <= yoe <= 399
            &&& 0 <= mp <= 11
            &&& 0 <= doy <= 365
            &&& 0 <= doe <= 146096
            &&& (doe - doe / 1460 + doe / 36524 - doe / 146096) / 365 == yoe
            &&& (5 * doy + 2) / 153 == mp
            &&& days_from_civil(y, m, d) == era * 146097 + doe - 719468
        }),
{
    let yy = if m <= 2 {
        y - 1
    } else {
        y
    };
    let era = yy / 400;
    let yoe = yy - era * 400;
    let mp = if m > 2 {
        m - 3
    } else {
        m + 9
    };
    lemma_day_of_month(mp as u32, d as u32);
    let doy = (153 * mp + 2) / 5 + d - 1;
    lemma_year_length((yoe + 1) as u32);
    if mp == 11 && d == 29 {
        let k: int = yoe + 1;
        lemma_mod_multiples_vanish(era * 100, k, 4);
        lemma_mod_multiples_vanish(era * 4, k, 100);
        lemma_mod_multiples_vanish(era as int, k, 400);
        assert(era * 100 * 4 == era * 400) by (nonlinear_arith);
        assert(era * 4 * 100 == era * 400) by (nonlinear_arith);
        assert(y == era * 400 + k);
    }
    lemma_day_of_era(yoe as u32, (yoe + 1) as u32, doy as u32, (yoe * 365 + yoe / 4 - yoe / 100 + doy) as u32);
}

/// Distinct dates have distinct day counts: a day count names one date.
pub proof fn lemma_days_from_civil_injective(y1: int, m1: int, d1: int, y2: int, m2: int, d2: int)
    requires
        valid_date(y1, m1, d1),
        valid_date(y2, m2, d2),
        days_from_civil(y1, m1, d1) == days_from_civil(y2, m2, d2),
    ensures
        y1 == y2 && m1 == m2 && d1 == d2,
{
    lemma_date_parts(y1, m1, d1);
    lemma_date_parts(y2, m2, d2);
    let yy1 = if m1 <= 2 { y1 - 1 } else { y1 };
    let yy2 = if m2 <= 2 { y2 - 1 } else { y2 };
    let era1 = yy1 / 400;
    let era2 = yy2 / 400;
    let yoe1 = yy1 - era1 * 400;
    let yoe2 = yy2 - era2 * 400;
    let mp1 = if m1 > 2 { m1 - 3 } else { m1 + 9 };
    let mp2 = if m2 > 2 { m2 - 3 } else { m2 + 9 };
    let doy1 = (153 * mp1 + 2) / 5 + d1 - 1;
    let doy2 = (153 * mp2 + 2) / 5 + d2 - 1;
    let doe1 = yoe1 * 365 + yoe1 / 4 - yoe1 / 100 + doy1;
    let doe2 = yoe2 * 365 + yoe2 / 4 - yoe2 / 100 + doy2;
    let n = era1 * 146097 + doe1;
    assert(n == era2 * 146097 + doe2);
    lemma_fundamental_div_mod_converse(n, 146097, era1, doe1);
    lemma_fundamental_div_mod_converse(n, 146097, era2, doe2);
    lemma_day_of_month(mp1 as u32, d1 as u32);
    lemma_day_of_month(mp2 as u32, d2 as u32);
}

/// The clock time of second `secs` of a day, counted modulo one day:
/// `(hours, minutes, seconds)`.
pub fn time_of_day(secs: u32) -> (r: (u32, u32, u32))
    ensures
        r.0 < 24 && r.1 < 60 && r.2 < 60,
        r.0 * 3600 + r.1 * 60 + r.2 == secs % 86_400,
{
    let s = secs % 86_400;
    let h = s / 3600;
    let m = s / 60 % 60;
    let sec = s % 60;
    assert(h * 3600 + m * 60 + sec == s) by (nonlinear_arith)
        requires
            h == s / 3600,
            m == s / 60 % 60,
            sec == s % 60,
            s < 86_400,
    ;
    (h, m, sec)
}

/// `digits` with zeros in front up to `width` characters.
pub open spec fn zero_pad(digits: Seq<char>, width: int) -> Seq<char> {
    Seq::new(
        if digits.len() < width {
            (width - digits.len()) as nat
        } else {
            0
        },
        |i: int| '0',
    ) + digits
}

/// `n` in decimal, zero-padded to `width` characters, a minus sign
/// counting toward the width — what `{:0width$}` writes.
pub open spec fn padded(n: int, width: int) -> Seq<char> {
    if n < 0 {
        seq!['-'] + zero_pad(dec((-n) as nat), width - 1)
    } else {
        zero_pad(dec(n as nat), width)
    }
}

/// The `YYYY-MM-DD` text of a date.
pub open spec fn date_text_of(y: int, m: int, d: int) -> Seq<char> {
    padded(y, 4) + seq!['-'] + padded(m, 2) + seq!['-'] + padded(d, 2)
}

/// The `HH:MM:SS` text of a clock time.
pub open spec fn time_text_of(h: int, m: int, s: int) -> Seq<char> {
    padded(h, 2) + seq![':'] + padded(m, 2) + seq![':'] + padded(s, 2)
}

/// Appends `n` in decimal, with zeros in front up to `width` characters.
fn push_zero_padded(s: &mut String, n: u64, width: usize)
    ensures
        final(s)@ == old(s)@ + zero_pad(dec(n as nat), width as int),
{
    let mut digits = String::new();
    push_decimal(&mut digits, n);
    let len = digits.as_str().unicode_len();
    let mut i: usize = len;
    let ghost start = s@;
    while i < width
        invariant
            len == dec(n as nat).len(),
            len <= i <= (if len < width { width } else { len }),
            s@ == start + Seq::new((i - len) as nat, |k: int| '0'),
        decreases width - i,
    {
        push_char(s, '0');
        assert(s@ =~= start + Seq::new((i + 1 - len) as nat, |k: int| '0'));
        i = i + 1;
    }
    s.append(digits.as_str());
    assert(s@ =~= start + zero_pad(dec(n as nat), width as int));
}

/// Appends the signed `n` as `{:0width$}` writes it: a minus sign, then
/// zero-padded digits, the sign counting toward the width.
fn push_padded(s: &mut String, n: i64, width: usize)
    requires
        n > i64::MIN,
        width >= 1,
    ensures
        final(s)@ == old(s)@ + padded(n as int, width as int),
{
    if n < 0 {
        push_char(s, '-');
        push_zero_padded(s, (-n) as u64, width - 1);
        assert(s@ =~= old(s)@ + padded(n as int, width as int));
    } else {
        push_zero_padded(s, n as u64, width);
    }
}

/// The `YYYY-MM-DD` text of a date, as `{:04}-{:02}-{:02}` writes it.
pub fn date_text(y: i32, m: u32, d: u32) -> (s: String)
    ensures
        s@ == date_text_of(y as int, m as int, d as int),
{
    let mut s = String::new();
    push_padded(&mut s, y as i64, 4);
    push_char(&mut s, '-');
    push_padded(&mut s, m as i64, 2);
    push_char(&mut s, '-');
    push_padded(&mut s, d as i64, 2);
    assert(s@ =~= date_text_of(y as int, m as int, d as int));
    s
}

/// The `HH:MM:SS` text of a clock time, as `{:02}:{:02}:{:02}` writes it.
pub fn time_text(h: u32, m: u32, sec: u32) -> (s: String)
    ensures
        s@ == time_text_of(h as int, m as int, sec as int),
{
    let mut s = String::new();
    push_padded(&mut s, h as i64, 2);
    push_char(&mut s, ':');
    push_padded(&mut s, m as i64, 2);
    push_char(&mut s, ':');
    push_padded(&mut s, sec as i64, 2);
    assert(s@ =~= time_text_of(h as int, m as int, sec as int));
    s
}

} // verus!
