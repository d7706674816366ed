use vstd::prelude::*;

use crate::text::{
    joined, leading_number, lemma_four_digit_order, lemma_lex_concat, lemma_padded_number_reads_back,
    lemma_two_digit_order, lex_less, padded_decimal, padded_decimal_string, parse_leading_number};

verus! {

/// Gregorian leap-year rule (proleptic).
pub open spec fn is_leap_year(y: int) -> bool {
    y % 4 == 0 && (y % 100 != 0 || y % 400 == 0)
}

pub open spec fn days_in_month(y: int, m: int) -> int {
    if m == 2 {
        if is_leap_year(y) { 29 } else { 28 }
    } else if m == 4 || m == 6 || m == 9 || m == 11 {
        30
    } else {
        31
    }
}

/// Days in the months of year `y` that come before month `m`.
pub open spec fn days_before_month(y: int, m: int) -> int {
    let base: int = if m <= 1 { 0 }
        else if m == 2 { 31 }
        else if m == 3 { 59 }
        else if m == 4 { 90 }
        else if m == 5 { 120 }
        else if m == 6 { 151 }
        else if m == 7 { 181 }
        else if m == 8 { 212 }
        else if m == 9 { 243 }
        else if m == 10 { 273 }
        else if m == 11 { 304 }
        else { 334 };
    if m > 2 && is_leap_year(y) { base + 1 } else { base }
}

/// Number of leap years among the years `1..=n`; for negative `n`, the same
/// expression counts them with the opposite sign, so differences stay exact.
pub open spec fn leap_years_through(n: int) -> int {
    n / 4 - n / 100 + n / 400
}

pub open spec fn is_valid_date(y: int, m: int, d: int) -> bool {
    1 <= m <= 12 && 1 <= d <= days_in_month(y, m)
}

/// Number of days from 1970-01-01 to the date `y-m-d` (negative before it).
pub open spec fn days_from_civil(y: int, m: int, d: int) -> int {
    365 * (y - 1970) + leap_years_through(y - 1) - leap_years_through(1969)
        + days_before_month(y, m) + d - 1
}

/// Seconds from 1970-01-01T00:00:00Z to the given UTC date and time.
pub open spec fn seconds_from_civil(y: int, m: int, d: int, h: int, mi: int, s: int) -> int {
    days_from_civil(y, m, d) * 86400 + h * 3600 + mi * 60 + s
}

/// `(y, m, d, h, mi, s)` is a valid date and time of day that lies `secs`
/// seconds after the Unix epoch.
pub open spec fn is_civil_time_of(secs: int, y: int, m: int, d: int, h: int, mi: int, s: int) -> bool {
    &&& is_valid_date(y, m, d)
    &&& 0 <= h < 24
    &&& 0 <= mi < 60
    &&& 0 <= s < 60
    &&& seconds_from_civil(y, m, d, h, mi, s) == secs
}

proof fn lemma_leap_step(k: int)
    ensures
        leap_years_through(k + 1) - leap_years_through(k) == (if is_leap_year(k + 1) { 1int } else { 0int }),
{
}

#[verifier::spinoff_prover]
#[verifier::rlimit(50)]
proof fn lemma_year_of_era(doe: int)
    requires
        0 <= doe < 146097,
    ensures
        ({
            let yoe = (doe - doe / 1460 + doe / 36524 - doe / 146096) / 365;
            &&& 0 <= yoe < 400
            &&& 365 * yoe + leap_years_through(yoe) <= doe
            &&& doe < 365 * (yoe + 1) + leap_years_through(yoe + 1)
        }),
{
}

proof fn lemma_era_shift(era: int, k: int)
    requires
        0 <= k <= 400,
    ensures
        leap_years_through(400 * era + k) == 97 * era + leap_years_through(k),
        is_leap_year(400 * era + k) == is_leap_year(k),
{
}

/// First day (counted from March 1) of month `mp` of a year that starts in March.
pub open spec fn march_month_start(mp: int) -> int {
    (153 * mp + 2) / 5
}

proof fn lemma_month_of_march_year(doy: int)
    requires
        0 <= doy < 366,
    ensures
        0 <= (5 * doy + 2) / 153 < 12,
        march_month_start((5 * doy + 2) / 153) <= doy,
        doy < march_month_start((5 * doy + 2) / 153 + 1),
{
}

proof fn lemma_month_table(mp: int)
    requires
        0 <= mp < 12,
    ensures
        mp < 10 ==> march_month_start(mp) + 59 == days_before_month(1, mp + 3),
        mp < 10 ==> march_month_start(mp + 1) - march_month_start(mp) == days_in_month(1, mp + 3),
        mp == 10 ==> march_month_start(mp) == 306 && march_month_start(mp + 1) == 337,
        mp == 11 ==> march_month_start(mp) == 337,
{
    assert(march_month_start(0) == 0);
    assert(march_month_start(1) == 31);
    assert(march_month_start(2) == 61);
    assert(march_month_start(3) == 92);
    assert(march_month_start(4) == 122);
    assert(march_month_start(5) == 153);
    assert(march_month_start(6) == 184);
    assert(march_month_start(7) == 214);
    assert(march_month_start(8) == 245);
    assert(march_month_start(9) == 275);
    assert(march_month_start(10) == 306);
    assert(march_month_start(11) == 337);
}

/// Day count of day `d` of month `mp` of the March-based year `400 * era + yoe`.
#[verifier::spinoff_prover]
proof fn lemma_days_of_march_date(era: int, yoe: int, mp: int, d: int)
    requires
        0 <= yoe < 400,
        0 <= mp < 12,
    ensures
        ({
            let y = yoe + era * 400;
            let m = if mp < 10 { mp + 3 } else { mp - 9 };
            let year = if m <= 2 { y + 1 } else { y };
            days_from_civil(year, m, d) == 146097 * era + 365 * yoe + leap_years_through(yoe)
                + march_month_start(mp) + d - 1 - 719468
        }),
{
    let y = yoe + era * 400;
    lemma_era_shift(era, yoe);
    lemma_era_shift(era, yoe + 1);
    lemma_leap_step(yoe);
    lemma_leap_step(y);
    lemma_month_table(mp);
    assert(leap_years_through(y) == 97 * era + leap_years_through(yoe));
    assert(leap_years_through(1969) == 477);
    if mp < 10 {
        assert(days_before_month(y, mp + 3) == march_month_start(mp) + 59
            + (if is_leap_year(y) { 1int } else { 0int }));
    } else {
        assert(days_before_month(y + 1, mp - 9) == march_month_start(mp) - 306);
    }
}

/// The calendar date that the day count `days` falls on, computed through
/// 400-year eras of years that start on March 1.
#[verifier::spinoff_prover]
pub proof fn lemma_civil_from_days(days: int)
    ensures
        ({
            let z = days + 719468;
            let era = z / 146097;
            let doe = z % 146097;
            let yoe = (doe - doe / 1460 + doe / 36524 - doe / 146096) / 365;
            let y = yoe + era * 400;
            let doy = doe - (365 * yoe + yoe / 4 - yoe / 100);
            let mp = (5 * doy + 2) / 153;
            let d = doy - (153 * mp + 2) / 5 + 1;
            let m = if mp < 10 { mp + 3 } else { mp - 9 };
            let year = if m <= 2 { y + 1 } else { y };
            &&& 0 <= doe < 146097
            &&& 0 <= yoe < 400
            &&& 0 <= doy < 366
            &&& 0 <= mp < 12
            &&& is_valid_date(year, m, d)
            &&& days_from_civil(year, m, d) == days
        }),
{
    let z = days + 719468;
    let era = z / 146097;
    let doe = z % 146097;
    let yoe = (doe - doe / 1460 + doe / 36524 - doe / 146096) / 365;
    let y = yoe + era * 400;
    let doy = doe - (365 * yoe + yoe / 4 - yoe / 100);
    let mp = (5 * doy + 2) / 153;
    let d = doy - (153 * mp + 2) / 5 + 1;
    let m = if mp < 10 { mp + 3 } else { mp - 9 };
    let year = if m <= 2 { y + 1 } else { y };
    assert(z == 146097 * era + doe);
    lemma_year_of_era(doe);
    assert(leap_years_through(yoe) == yoe / 4 - yoe / 100);
    lemma_leap_step(yoe);
    assert(doy < 365 + (if is_leap_year(yoe + 1) { 1int } else { 0int }));
    lemma_month_of_march_year(doy);
    lemma_month_table(mp);
    lemma_era_shift(era, yoe + 1);
    assert(d == doy - march_month_start(mp) + 1);
    assert(is_valid_date(year, m, d));
    lemma_days_of_march_date(era, yoe, mp, d);
}

proof fn lemma_next_year_start(y: int)
    ensures
        days_from_civil(y + 1, 1, 1) == days_from_civil(y, 1, 1) + 365
            + (if is_leap_year(y) { 1int } else { 0int }),
{
    lemma_leap_step(y - 1);
}

proof fn lemma_year_start_increases(y1: int, y2: int)
    requires
        y1 < y2,
    ensures
        days_from_civil(y1, 1, 1) + 365 <= days_from_civil(y2, 1, 1),
    decreases y2 - y1,
{
    lemma_next_year_start(y2 - 1);
    if y1 + 1 < y2 {
        lemma_year_start_increases(y1, y2 - 1);
    }
}

proof fn lemma_date_within_year(y: int, m: int, d: int)
    requires
        is_valid_date(y, m, d),
    ensures
        days_from_civil(y, 1, 1) <= days_from_civil(y, m, d),
        days_from_civil(y, m, d) < days_from_civil(y + 1, 1, 1),
{
    lemma_next_year_start(y);
}

proof fn lemma_months_ordered(y: int, m1: int, d1: int, m2: int, d2: int)
    requires
        is_valid_date(y, m1, d1),
        is_valid_date(y, m2, d2),
        m1 < m2,
    ensures
        days_from_civil(y, m1, d1) < days_from_civil(y, m2, d2),
{
}

/// The day after a valid date is counted one more: within a month, across
/// the end of a month, and across the end of a year.
pub proof fn lemma_next_day(y: int, m: int, d: int)
    requires
        is_valid_date(y, m, d),
    ensures
        d < days_in_month(y, m) ==> days_from_civil(y, m, d + 1) == days_from_civil(y, m, d) + 1,
        d == days_in_month(y, m) && m < 12 ==> days_from_civil(y, m + 1, 1) == days_from_civil(y, m, d) + 1,
        d == days_in_month(y, m) && m == 12 ==> days_from_civil(y + 1, 1, 1) == days_from_civil(y, m, d) + 1,
{
    lemma_next_year_start(y);
}

/// `a` comes before `b` in lexicographic order of (year, month, day, hour,
/// minute, second).
pub open spec fn civil_before(a: (int, int, int, int, int, int), b: (int, int, int, int, int, int)) -> bool {
    ||| a.0 < b.0
    ||| a.0 == b.0 && a.1 < b.1
    ||| a.0 == b.0 && a.1 == b.1 && a.2 < b.2
    ||| a.0 == b.0 && a.1 == b.1 && a.2 == b.2 && a.3 < b.3
    ||| a.0 == b.0 && a.1 == b.1 && a.2 == b.2 && a.3 == b.3 && a.4 < b.4
    ||| a.0 == b.0 && a.1 == b.1 && a.2 == b.2 && a.3 == b.3 && a.4 == b.4 && a.5 < b.5
}

proof fn lemma_date_order(y1: int, m1: int, d1: int, y2: int, m2: int, d2: int)
    requires
        is_valid_date(y1, m1, d1),
        is_valid_date(y2, m2, d2),
        y1 < y2 || (y1 == y2 && m1 < m2) || (y1 == y2 && m1 == m2 && d1 < d2),
    ensures
        days_from_civil(y1, m1, d1) < days_from_civil(y2, m2, d2),
{
    if y1 < y2 {
        lemma_date_within_year(y1, m1, d1);
        lemma_date_within_year(y2, m2, d2);
        if y1 + 1 < y2 {
            lemma_year_start_increases(y1 + 1, y2);
        }
    } else if m1 < m2 {
        lemma_months_ordered(y1, m1, d1, m2, d2);
    }
}

/// Moments come in the order of their dates and times: the earlier of two
/// moments has the lexicographically earlier (year, month, day, hour,
/// minute, second).
pub proof fn lemma_civil_time_order(
    secs1: int,
    y1: int, m1: int, d1: int, h1: int, mi1: int, s1: int,
    secs2: int,
    y2: int, m2: int, d2: int, h2: int, mi2: int, s2: int,
)
    requires
        is_civil_time_of(secs1, y1, m1, d1, h1, mi1, s1),
        is_civil_time_of(secs2, y2, m2, d2, h2, mi2, s2),
    ensures
        secs1 < secs2 <==> civil_before((y1, m1, d1, h1, mi1, s1), (y2, m2, d2, h2, mi2, s2)),
        secs1 == secs2 <==> (y1, m1, d1, h1, mi1, s1) == (y2, m2, d2, h2, mi2, s2),
{
    let a = days_from_civil(y1, m1, d1);
    let b = days_from_civil(y2, m2, d2);
    let t1 = h1 * 3600 + mi1 * 60 + s1;
    let t2 = h2 * 3600 + mi2 * 60 + s2;
    assert(secs1 == a * 86400 + t1);
    assert(secs2 == b * 86400 + t2);
    assert(0 <= t1 < 86400 && 0 <= t2 < 86400);
    if y1 < y2 || (y1 == y2 && m1 < m2) || (y1 == y2 && m1 == m2 && d1 < d2) {
        lemma_date_order(y1, m1, d1, y2, m2, d2);
        assert(a * 86400 + t1 < b * 86400 + t2) by (nonlinear_arith)
            requires a < b, 0 <= t1 < 86400, 0 <= t2 < 86400;
    } else if y2 < y1 || (y1 == y2 && m2 < m1) || (y1 == y2 && m1 == m2 && d2 < d1) {
        lemma_date_order(y2, m2, d2, y1, m1, d1);
        assert(b * 86400 + t2 < a * 86400 + t1) by (nonlinear_arith)
            requires b < a, 0 <= t1 < 86400, 0 <= t2 < 86400;
    } else {
        assert(a == b);
    }
}

/// Within 67 * 10^15 seconds of the epoch (about two thousand million
/// years), the calendar year fits in an `i32`, so `epoch_to_civil` gives it
/// uncut.
pub proof fn lemma_civil_year_fits_i32(secs: int, y: int, m: int, d: int, h: int, mi: int, s: int)
    requires
        is_civil_time_of(secs, y, m, d, h, mi, s),
        -67_000_000_000_000_000 <= secs <= 67_000_000_000_000_000,
    ensures
        i32::MIN <= y <= i32::MAX,
        (y as i32) as int == y,
{
    let days = days_from_civil(y, m, d);
    let t = h * 3600 + mi * 60 + s;
    assert(secs == days * 86400 + t);
    assert(-775_462_962_963 <= days <= 775_462_962_962) by (nonlinear_arith)
        requires
            secs == days * 86400 + t,
            0 <= t < 86400,
            -67_000_000_000_000_000 <= secs <= 67_000_000_000_000_000,
    ;
    lemma_date_within_year(y, m, d);
    if y > i32::MAX {
        lemma_year_start_increases(0x8000_0000, y + 1);
        assert(days_from_civil(0x8000_0000, 1, 1) == 784351576777);
    }
    if y < i32::MIN {
        lemma_year_start_increases(y + 1, -0x8000_0000);
        assert(days_from_civil(-0x8000_0000, 1, 1) == -784353015833);
    }
}

/// `epoch_to_civil` keeps the order of time: within 67 * 10^15 seconds of
/// the epoch, the earlier of two moments has the lexicographically earlier
/// result, and two moments have equal results only if they are equal.
pub proof fn lemma_epoch_to_civil_order(
    secs1: int,
    y1: int, m1: int, d1: int, h1: int, mi1: int, s1: int,
    secs2: int,
    y2: int, m2: int, d2: int, h2: int, mi2: int, s2: int,
)
    requires
        is_civil_time_of(secs1, y1, m1, d1, h1, mi1, s1),
        is_civil_time_of(secs2, y2, m2, d2, h2, mi2, s2),
        -67_000_000_000_000_000 <= secs1 <= 67_000_000_000_000_000,
        -67_000_000_000_000_000 <= secs2 <= 67_000_000_000_000_000,
    ensures
        secs1 < secs2 <==> civil_before(
            ((y1 as i32) as int, m1, d1, h1, mi1, s1),
            ((y2 as i32) as int, m2, d2, h2, mi2, s2),
        ),
        secs1 == secs2 <==> ((y1 as i32) as int, m1, d1, h1, mi1, s1) == ((y2 as i32) as int, m2, d2, h2, mi2, s2),
{
    lemma_civil_year_fits_i32(secs1, y1, m1, d1, h1, mi1, s1);
    lemma_civil_year_fits_i32(secs2, y2, m2, d2, h2, mi2, s2);
    lemma_civil_time_order(secs1, y1, m1, d1, h1, mi1, s1, secs2, y2, m2, d2, h2, mi2, s2);
}

/// Distinct valid dates have distinct day counts.
#[verifier::spinoff_prover]
pub proof fn lemma_days_from_civil_injective(y1: int, m1: int, d1: int, y2: int, m2: int, d2: int)
    requires
        is_valid_date(y1, m1, d1),
        is_valid_date(y2, m2, d2),
        days_from_civil(y1, m1, d1) == days_from_civil(y2, m2, d2),
    ensures
        y1 == y2,
        m1 == m2,
        d1 == d2,
{
    lemma_date_within_year(y1, m1, d1);
    lemma_date_within_year(y2, m2, d2);
    if y1 < y2 {
        if y1 + 1 < y2 {
            lemma_year_start_increases(y1 + 1, y2);
        }
    } else if y2 < y1 {
        if y2 + 1 < y1 {
            lemma_year_start_increases(y2 + 1, y1);
        }
    }
    assert(y1 == y2);
    if m1 < m2 {
        lemma_months_ordered(y1, m1, d1, m2, d2);
    } else if m2 < m1 {
        lemma_months_ordered(y1, m2, d2, m1, d1);
    }
}

/// A moment has one calendar date and time of day: two decompositions of
/// the same count of seconds are equal.
#[verifier::spinoff_prover]
pub proof fn lemma_civil_time_unique(
    secs: int,
    y1: int, m1: int, d1: int, h1: int, mi1: int, s1: int,
    y2: int, m2: int, d2: int, h2: int, mi2: int, s2: int,
)
    requires
        is_civil_time_of(secs, y1, m1, d1, h1, mi1, s1),
        is_civil_time_of(secs, y2, m2, d2, h2, mi2, s2),
    ensures
        y1 == y2 && m1 == m2 && d1 == d2 && h1 == h2 && mi1 == mi2 && s1 == s2,
{
    let t1 = h1 * 3600 + mi1 * 60 + s1;
    let t2 = h2 * 3600 + mi2 * 60 + s2;
    let a = days_from_civil(y1, m1, d1);
    let b = days_from_civil(y2, m2, d2);
    assert(0 <= t1 < 86400);
    assert(0 <= t2 < 86400);
    assert(a * 86400 + t1 == b * 86400 + t2);
    assert(a == b) by (nonlinear_arith)
        requires
            a * 86400 + t1 == b * 86400 + t2,
            0 <= t1 < 86400,
            0 <= t2 < 86400,
    ;
    lemma_days_from_civil_injective(y1, m1, d1, y2, m2, d2);
}

/// The date (year, month, day) of the day that lies `days` days after
/// 1970-01-01.
#[verifier::spinoff_prover]
fn civil_from_days(days: i64) -> (r: (i64, u32, u32))
    requires
        -200_000_000_000_000 <= days <= 200_000_000_000_000,
    ensures
        is_valid_date(r.0 as int, r.1 as int, r.2 as int),
        days_from_civil(r.0 as int, r.1 as int, r.2 as int) == days,
{
    let z: i64 = days + 719468;
    let era: i64 = match z.checked_div_euclid(146097) {
        Some(q) => q,
        None => 0,
    };
    assert(era == (z as int) / 146097);
    let doe: u64 = (z - era * 146097) as u64;
    let yoe: u64 = (doe - doe / 1460 + doe / 36524 - doe / 146096) / 365;
    proof {
        lemma_civil_from_days(days as int);
    }
    let y: i64 = yoe as i64 + era * 400;
    let doy: u64 = doe - (365 * yoe + yoe / 4 - yoe / 100);
    let mp: u64 = (5 * doy + 2) / 153;
    let d: u32 = (doy - (153 * mp + 2) / 5 + 1) as u32;
    let m: u32 = (if mp < 10 { mp + 3 } else { mp - 9 }) as u32;
    let year: i64 = if m <= 2 { y + 1 } else { y };
    (year, m, d)
}

/// Splits a Unix timestamp (seconds since 1970-01-01T00:00:00Z) into the UTC
/// year, month, day, hour, minute and second. The year is the calendar year
/// cut down to `i32` as `as` casts do.
#[verifier::spinoff_prover]
pub fn epoch_to_civil(secs: i64) -> (r: (i32, u32, u32, u32, u32, u32))
    ensures
        exists|y: int|
            #[trigger] is_civil_time_of(secs as int, y, r.1 as int, r.2 as int, r.3 as int, r.4 as int, r.5 as int)
            && r.0 == y as i32,
{
    let days: i64 = match secs.checked_div_euclid(86400) {
        Some(q) => q,
        None => 0,
    };
    let secs_of_day: i64 = match secs.checked_rem_euclid(86400) {
        Some(q) => q,
        None => 0,
    };
    assert(days == (secs as int) / 86400);
    assert(secs_of_day == (secs as int) % 86400);
    let sod: u64 = secs_of_day as u64;
    let hour: u32 = (sod / 3600) as u32;
    let min: u32 = ((sod % 3600) / 60) as u32;
    let sec: u32 = (sod % 60) as u32;
    assert(hour * 3600 + min * 60 + sec == sod);
    let (y, m, d) = civil_from_days(days);
    let year: i32 = y as i32;
    assert(is_civil_time_of(secs as int, y as int, m as int, d as int, hour as int, min as int, sec as int));
    assert(year == (y as int) as i32);
    let r = (year, m, d, hour, min, sec);
    assert(is_civil_time_of(secs as int, y as int, r.1 as int, r.2 as int, r.3 as int, r.4 as int, r.5 as int)
        && r.0 == (y as int) as i32);
    r
}

/// The text `YYYY-MM-DDTHH:MM:SSZ` for the given fields, each written with
/// zeros in front up to its width (four for the year, sign included; two for
/// the others).
pub open spec fn iso_text(year: int, m: int, d: int, h: int, mi: int, s: int) -> Seq<char> {
    padded_decimal(year, 4) + (seq!['-'] + iso_text_after_year(m, d, h, mi, s))
}

/// The part of the ISO-8601 text after `YYYY-`: `MM-DDTHH:MM:SSZ`.
pub open spec fn iso_text_after_year(m: int, d: int, h: int, mi: int, s: int) -> Seq<char> {
    padded_decimal(m, 2) + seq!['-'] + padded_decimal(d, 2) + seq!['T'] + padded_decimal(h, 2)
        + seq![':'] + padded_decimal(mi, 2) + seq![':'] + padded_decimal(s, 2) + seq!['Z']
}

/// `text` is the ISO-8601 text that `unix_to_iso` writes for the moment
/// `secs` seconds after the Unix epoch (the year cut to `i32`).
pub open spec fn is_iso_text_of(secs: int, text: Seq<char>) -> bool {
    exists|y: int, m: int, d: int, h: int, mi: int, s: int|
        #[trigger] is_civil_time_of(secs, y, m, d, h, mi, s)
        && text == iso_text((y as i32) as int, m, d, h, mi, s)
}

/// A moment has one ISO-8601 text.
pub proof fn lemma_iso_text_unique(secs: int, t1: Seq<char>, t2: Seq<char>)
    requires
        is_iso_text_of(secs, t1),
        is_iso_text_of(secs, t2),
    ensures
        t1 == t2,
{
    let (y1, m1, d1, h1, mi1, s1) = choose|y: int, m: int, d: int, h: int, mi: int, s: int|
        #[trigger] is_civil_time_of(secs, y, m, d, h, mi, s) && t1 == iso_text((y as i32) as int, m, d, h, mi, s);
    let (y2, m2, d2, h2, mi2, s2) = choose|y: int, m: int, d: int, h: int, mi: int, s: int|
        #[trigger] is_civil_time_of(secs, y, m, d, h, mi, s) && t2 == iso_text((y as i32) as int, m, d, h, mi, s);
    lemma_civil_time_unique(secs, y1, m1, d1, h1, mi1, s1, y2, m2, d2, h2, mi2, s2);
}

fn push_text(out: String, piece: &str) -> (r: String)
    ensures
        r@ == out@ + piece@,
{
    out.concat(piece)
}

fn iso_after_year(month: u32, day: u32, hour: u32, min: u32, sec: u32) -> (r: String)
    ensures
        r@ == iso_text_after_year(month as int, day as int, hour as int, min as int, sec as int),
{
    proof { reveal_strlit("-"); reveal_strlit("T"); reveal_strlit(":"); reveal_strlit("Z"); }
    let mut out = padded_decimal_string(month as i64, 2);
    out = push_text(out, "-");
    out = push_text(out, padded_decimal_string(day as i64, 2).as_str());
    out = push_text(out, "T");
    out = push_text(out, padded_decimal_string(hour as i64, 2).as_str());
    out = push_text(out, ":");
    out = push_text(out, padded_decimal_string(min as i64, 2).as_str());
    out = push_text(out, ":");
    out = push_text(out, padded_decimal_string(sec as i64, 2).as_str());
    out = push_text(out, "Z");
    out
}

/// Writes a Unix timestamp as an ISO-8601 UTC text, `YYYY-MM-DDTHH:MM:SSZ`.
#[verifier::spinoff_prover]
pub fn unix_to_iso(unix_secs: i64) -> (r: String)
    ensures
        is_iso_text_of(unix_secs as int, r@),
{
    let (year, month, day, hour, min, sec) = epoch_to_civil(unix_secs);
    let tail = iso_after_year(month, day, hour, min, sec);
    proof { reveal_strlit("-"); }
    let dash_tail = joined("-", tail.as_str());
    let out = push_text(padded_decimal_string(year as i64, 4), dash_tail.as_str());
    let ghost y = choose|y: int| #[trigger] is_civil_time_of(unix_secs as int, y, month as int, day as int, hour as int, min as int, sec as int) && year == y as i32;
    assert(out@ == iso_text(year as int, month as int, day as int, hour as int, min as int, sec as int));
    out
}

/// Reads a stored timestamp, simply: the number that the text starts with
/// is taken as the seconds (see `leading_number`); the rest of the text is
/// not read. A text that does not start with a digit gives `None`.
pub fn parse_iso(s: &str) -> (r: Option<i64>)
    ensures
        r == leading_number(s@),
{
    parse_leading_number(s)
}

/// The ISO-8601 text of a moment in a year from 0 on reads back through
/// `parse_iso` as its year: the year is the number the text starts with.
pub proof fn lemma_iso_text_reads_as_year(secs: int, y: int, m: int, d: int, h: int, mi: int, s: int)
    requires
        is_civil_time_of(secs, y, m, d, h, mi, s),
        (y as i32) >= 0,
    ensures
        leading_number(iso_text((y as i32) as int, m, d, h, mi, s)) == Some((y as i32) as i64),
{
    let year = (y as i32) as int;
    lemma_padded_number_reads_back(year as nat, 4, iso_text_after_year(m, d, h, mi, s));
}

proof fn lemma_separator_step(x: Seq<char>, y: Seq<char>, c: char)
    requires
        x.len() == y.len(),
    ensures
        lex_less(x + seq![c], y + seq![c]) == lex_less(x, y),
        (x + seq![c] == y + seq![c]) == (x == y),
        (x + seq![c]).len() == (y + seq![c]).len(),
{
    lemma_lex_concat(x, seq![c], y, seq![c]);
    assert(seq![c].drop_last() =~= Seq::<char>::empty());
    assert(!lex_less(Seq::<char>::empty(), Seq::<char>::empty()));
    assert(!lex_less(seq![c], seq![c]));
}

proof fn lemma_field_step(x: Seq<char>, y: Seq<char>, a: nat, b: nat)
    requires
        x.len() == y.len(),
        a < 100,
        b < 100,
    ensures
        lex_less(x + padded_decimal(a as int, 2), y + padded_decimal(b as int, 2))
            == (lex_less(x, y) || (x == y && a < b)),
        (x + padded_decimal(a as int, 2) == y + padded_decimal(b as int, 2)) == (x == y && a == b),
        (x + padded_decimal(a as int, 2)).len() == (y + padded_decimal(b as int, 2)).len(),
{
    lemma_two_digit_order(a, b);
    lemma_lex_concat(x, padded_decimal(a as int, 2), y, padded_decimal(b as int, 2));
}

#[verifier::spinoff_prover]
proof fn lemma_after_year_order(
    m1: nat, d1: nat, h1: nat, mi1: nat, s1: nat,
    m2: nat, d2: nat, h2: nat, mi2: nat, s2: nat,
)
    requires
        m1 < 100 && d1 < 100 && h1 < 100 && mi1 < 100 && s1 < 100,
        m2 < 100 && d2 < 100 && h2 < 100 && mi2 < 100 && s2 < 100,
    ensures
        iso_text_after_year(m1 as int, d1 as int, h1 as int, mi1 as int, s1 as int).len()
            == iso_text_after_year(m2 as int, d2 as int, h2 as int, mi2 as int, s2 as int).len(),
        lex_less(
            iso_text_after_year(m1 as int, d1 as int, h1 as int, mi1 as int, s1 as int),
            iso_text_after_year(m2 as int, d2 as int, h2 as int, mi2 as int, s2 as int),
        ) == civil_before((0, m1 as int, d1 as int, h1 as int, mi1 as int, s1 as int),
            (0, m2 as int, d2 as int, h2 as int, mi2 as int, s2 as int)),
        (iso_text_after_year(m1 as int, d1 as int, h1 as int, mi1 as int, s1 as int)
            == iso_text_after_year(m2 as int, d2 as int, h2 as int, mi2 as int, s2 as int))
            == (m1 == m2 && d1 == d2 && h1 == h2 && mi1 == mi2 && s1 == s2),
{
    let e = Seq::<char>::empty();
    lemma_field_step(e, e, m1, m2);
    assert(e + padded_decimal(m1 as int, 2) =~= padded_decimal(m1 as int, 2));
    assert(e + padded_decimal(m2 as int, 2) =~= padded_decimal(m2 as int, 2));
    let q1a = padded_decimal(m1 as int, 2);
    let q1b = padded_decimal(m2 as int, 2);
    lemma_separator_step(q1a, q1b, '-');
    let q2a = q1a + seq!['-'];
    let q2b = q1b + seq!['-'];
    lemma_field_step(q2a, q2b, d1, d2);
    let q3a = q2a + padded_decimal(d1 as int, 2);
    let q3b = q2b + padded_decimal(d2 as int, 2);
    lemma_separator_step(q3a, q3b, 'T');
    let q4a = q3a + seq!['T'];
    let q4b = q3b + seq!['T'];
    lemma_field_step(q4a, q4b, h1, h2);
    let q5a = q4a + padded_decimal(h1 as int, 2);
    let q5b = q4b + padded_decimal(h2 as int, 2);
    lemma_separator_step(q5a, q5b, ':');
    let q6a = q5a + seq![':'];
    let q6b = q5b + seq![':'];
    lemma_field_step(q6a, q6b, mi1, mi2);
    let q7a = q6a + padded_decimal(mi1 as int, 2);
    let q7b = q6b + padded_decimal(mi2 as int, 2);
    lemma_separator_step(q7a, q7b, ':');
    let q8a = q7a + seq![':'];
    let q8b = q7b + seq![':'];
    lemma_field_step(q8a, q8b, s1, s2);
    let q9a = q8a + padded_decimal(s1 as int, 2);
    let q9b = q8b + padded_decimal(s2 as int, 2);
    lemma_separator_step(q9a, q9b, 'Z');
    assert(!lex_less(e, e));
}

/// Within the years 0 through 9999, the ISO-8601 texts of two moments
/// compare (character by character, as Rust compares these ASCII texts) as
/// the moments do, and are equal only for equal moments.
pub proof fn lemma_iso_text_order(
    secs1: int,
    y1: int, m1: int, d1: int, h1: int, mi1: int, s1: int,
    secs2: int,
    y2: int, m2: int, d2: int, h2: int, mi2: int, s2: int,
)
    requires
        is_civil_time_of(secs1, y1, m1, d1, h1, mi1, s1),
        is_civil_time_of(secs2, y2, m2, d2, h2, mi2, s2),
        0 <= y1 <= 9999,
        0 <= y2 <= 9999,
    ensures
        secs1 < secs2 <==> lex_less(
            iso_text((y1 as i32) as int, m1, d1, h1, mi1, s1),
            iso_text((y2 as i32) as int, m2, d2, h2, mi2, s2),
        ),
        secs1 == secs2 <==> iso_text((y1 as i32) as int, m1, d1, h1, mi1, s1)
            == iso_text((y2 as i32) as int, m2, d2, h2, mi2, s2),
{
    assert((y1 as i32) as int == y1);
    assert((y2 as i32) as int == y2);
    lemma_civil_time_order(secs1, y1, m1, d1, h1, mi1, s1, secs2, y2, m2, d2, h2, mi2, s2);
    lemma_after_year_order(m1 as nat, d1 as nat, h1 as nat, mi1 as nat, s1 as nat,
        m2 as nat, d2 as nat, h2 as nat, mi2 as nat, s2 as nat);
    let a1 = iso_text_after_year(m1, d1, h1, mi1, s1);
    let a2 = iso_text_after_year(m2, d2, h2, mi2, s2);
    lemma_separator_first(a1, a2);
    lemma_four_digit_order(y1 as nat, y2 as nat);
    lemma_lex_concat(padded_decimal(y1, 4), seq!['-'] + a1, padded_decimal(y2, 4), seq!['-'] + a2);
}

proof fn lemma_separator_first(a1: Seq<char>, a2: Seq<char>)
    requires
        a1.len() == a2.len(),
    ensures
        lex_less(seq!['-'] + a1, seq!['-'] + a2) == lex_less(a1, a2),
        (seq!['-'] + a1 == seq!['-'] + a2) == (a1 == a2),
        (seq!['-'] + a1).len() == (seq!['-'] + a2).len(),
{
    lemma_lex_concat(seq!['-'], a1, seq!['-'], a2);
    assert(seq!['-'].drop_last() =~= Seq::<char>::empty());
    assert(!lex_less(Seq::<char>::empty(), Seq::<char>::empty()));
    assert(!lex_less(seq!['-'], seq!['-']));
}

} // verus!
