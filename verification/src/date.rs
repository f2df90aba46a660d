//! Calendar arithmetic: days since 1970-01-01 to a civil date in the
//! proleptic Gregorian calendar.

use vstd::prelude::*;
use crate::fmt::{
    all_digits_in, digits_value, lemma_digits_len, lemma_zero_pad_reads, push_decimal,
    signed_zero_pad,
};
use crate::text::string_of;

verus! {

/// Whether `y` is a leap year of the Gregorian calendar.
pub open spec fn is_leap(y: int) -> bool {
    y % 4 == 0 && (y % 100 != 0 || y % 400 == 0)
}

/// The number of days in month `m` (1-12) of year `y`.
pub open spec fn month_len(y: int, m: int) -> int {
    if m == 2 {
        if is_leap(y) {
            29
        } else {
            28
        }
    } else if m == 4 || m == 6 || m == 9 || m == 11 {
        30
    } else {
        31
    }
}

/// `(y, m, d)` names a day of the calendar.
pub open spec fn valid_date(y: int, m: int, d: int) -> bool {
    1 <= m <= 12 && 1 <= d <= month_len(y, m)
}

/// The leap years among `1..=y`, counted with floor division so that the
/// count steps by one exactly at each leap year, negative years included.
pub open spec fn leaps_through(y: int) -> int {
    y / 4 - y / 100 + y / 400
}

/// Days from 1970-01-01 to January 1 of year `y`.
pub open spec fn days_before_year(y: int) -> int {
    365 * (y - 1970) + leaps_through(y - 1) - leaps_through(1969)
}

/// Days in the months of a common year before month `m`.
pub open spec fn days_before_month_common(m: int) -> int {
    if m <= 1 {
        0
    } else if m == 2 {
        31
    } else if m == 3 {
        59
    } else if m == 4 {
        90
    } else if m == 5 {
        120
    } else if m == 6 {
        151
    } else if m == 7 {
        181
    } else if m == 8 {
        212
    } else if m == 9 {
        243
    } else if m == 10 {
        273
    } else if m == 11 {
        304
    } else {
        334
    }
}

/// Days from January 1 of year `y` to the first of month `m`.
pub open spec fn days_before_month(y: int, m: int) -> int {
    days_before_month_common(m) + if m > 2 && is_leap(y) {
        1int
    } else {
        0
    }
}

/// The number of days from 1970-01-01 to the date `(y, m, d)`.
pub open spec fn days_from_civil(y: int, m: int, d: int) -> int {
    days_before_year(y) + days_before_month(y, m) + d - 1
}

// ---------------------------------------------------------------------------
// The proof that the era/year-of-era decomposition finds the date.

/// The year of an era (eras are 400 years from March 1 of a year divisible
/// by 400) in which day `doe` of the era falls.
spec fn yoe_of(doe: int) -> int {
    (doe - doe / 1460 + doe / 36524 - doe / 146096) / 365
}

/// The day of the year (from March 1) of day `doe` of the era.
spec fn doy_of(doe: int, yoe: int) -> int {
    doe - (365 * yoe + yoe / 4 - yoe / 100)
}

/// Whether year `yoe` of an era (March to February) holds a February 29.
spec fn holds_leap_day(yoe: int) -> bool {
    is_leap(yoe + 1)
}

proof fn lemma_div_add(a: int, b: int, n: int)
    requires
        n > 0,
    ensures
        (n * a + b) / n == a + b / n,
        (n * a + b) % n == b % n,
{
    assert((n * a + b) / n == a + b / n && (n * a + b) % n == b % n) by (nonlinear_arith)
        requires
            n > 0,
    {
        let q = b / n;
        let r = b % n;
        assert(b == n * q + r);
        assert(n * a + b == n * (a + q) + r);
    }
}

proof fn lemma_year_of_era(doe: int)
    requires
        0 <= doe <= 146096,
    ensures
        0 <= yoe_of(doe) <= 399,
        0 <= doy_of(doe, yoe_of(doe)),
        doy_of(doe, yoe_of(doe)) <= 364 + if holds_leap_day(yoe_of(doe)) {
            1int
        } else {
            0
        },
{
    if doe == 146096 {
        assert(yoe_of(doe) == 399);
        assert(doy_of(doe, 399) == 365);
        assert(holds_leap_day(399));
    } else {
        let c = doe / 36524;
        let r1 = doe % 36524;
        assert(doe == 36524 * c + r1);
        assert(0 <= c <= 3);
        let k = r1 / 1461;
        let r2 = r1 % 1461;
        assert(r1 == 1461 * k + r2);
        assert(0 <= k <= 24);
        assert(k == 24 ==> r2 <= 1459);
        // doe = 1460 * (25c + k) + u
        let u = 24 * c + k + r2;
        assert(doe == 1460 * (25 * c + k) + u);
        lemma_div_add(25 * c + k, u, 1460);
        assert(doe / 1460 == 25 * c + k + u / 1460);
        assert(0 <= u / 1460 <= 1);
        assert(doe / 146096 == 0);
        assert(doe / 36524 == c);
        let j0 = r2 - u / 1460;
        let g = doe - doe / 1460 + doe / 36524 - doe / 146096;
        assert(g == 365 * (100 * c + 4 * k) + j0);
        assert(0 <= j0 <= 1459);
        lemma_div_add(100 * c + 4 * k, j0, 365);
        let j = j0 / 365;
        assert(0 <= j <= 3);
        let yoe = 100 * c + 4 * k + j;
        assert(yoe_of(doe) == yoe);
        // yoe / 4 and yoe / 100
        lemma_div_add(25 * c + k, j, 4);
        assert(yoe / 4 == 25 * c + k);
        assert(yoe / 100 == c);
        let r3 = r2 - 365 * j;
        assert(doy_of(doe, yoe) == r3);
        // j is min(r2 / 365, 3)
        assert(r2 < 1460 - 24 * c - k ==> j0 == r2);
        assert(r2 >= 1460 - 24 * c - k ==> j0 == r2 - 1);
        assert(0 <= r3);
        assert(r3 <= 364 || (j == 3 && r2 == 1460));
        assert(j == 3 ==> (yoe + 1) % 4 == 0);
        assert(r2 == 1460 ==> k <= 23);
        assert(j == 3 && k <= 23 ==> (yoe + 1) % 100 != 0);
    }
}

/// The month (1-12) of month `mp` of a year that starts in March.
spec fn month_of(mp: int) -> int {
    if mp < 10 {
        mp + 3
    } else {
        mp - 9
    }
}

/// Days from March 1 to the first of month `mp` of a March-based year.
spec fn march_offset(mp: int) -> int {
    (153 * mp + 2) / 5
}

proof fn lemma_month(doy: int, leap: bool, y: int)
    requires
        0 <= doy <= 364 + if leap {
            1int
        } else {
            0
        },
        is_leap(y) == leap,
    ensures
        0 <= (5 * doy + 2) / 153 <= 11,
        valid_date(y, month_of((5 * doy + 2) / 153), doy - march_offset((5 * doy + 2) / 153) + 1),
        month_of((5 * doy + 2) / 153) <= 2 ==> (5 * doy + 2) / 153 >= 10,
{
    let mp = (5 * doy + 2) / 153;
    assert(153 * mp <= 5 * doy + 2 < 153 * mp + 153);
    assert(0 <= mp <= 11);
    let t = march_offset(mp);
    let d = doy - t + 1;
    if mp == 0 {
        assert(t == 0);
    } else if mp == 1 {
        assert(t == 31);
    } else if mp == 2 {
        assert(t == 61);
    } else if mp == 3 {
        assert(t == 92);
    } else if mp == 4 {
        assert(t == 122);
    } else if mp == 5 {
        assert(t == 153);
    } else if mp == 6 {
        assert(t == 184);
    } else if mp == 7 {
        assert(t == 214);
    } else if mp == 8 {
        assert(t == 245);
    } else if mp == 9 {
        assert(t == 275);
    } else if mp == 10 {
        assert(t == 306);
    } else {
        assert(t == 337);
    }
}

proof fn lemma_leaps_step(x: int)
    ensures
        leaps_through(x) - leaps_through(x - 1) == if is_leap(x) {
            1int
        } else {
            0
        },
{
    lemma_div_add(x / 4, x % 4, 4);
    lemma_div_add(x / 100, x % 100, 100);
    lemma_div_add(x / 400, x % 400, 400);
    lemma_div_add(x / 4, x % 4 - 1, 4);
    lemma_div_add(x / 100, x % 100 - 1, 100);
    lemma_div_add(x / 400, x % 400 - 1, 400);
}

proof fn lemma_leaps_era(e: int, k: int)
    ensures
        leaps_through(400 * e + k) == 97 * e + leaps_through(k),
        is_leap(400 * e + k) == is_leap(k),
{
    lemma_div_add(100 * e, k, 4);
    lemma_div_add(4 * e, k, 100);
    lemma_div_add(e, k, 400);
    assert(4 * (100 * e) == 400 * e);
    assert(100 * (4 * e) == 400 * e);
}

proof fn lemma_assemble(era: int, yoe: int, doy: int)
    requires
        0 <= yoe <= 399,
        0 <= doy <= 364 + if holds_leap_day(yoe) {
            1int
        } else {
            0
        },
    ensures
        ({
            let mp = (5 * doy + 2) / 153;
            let m = month_of(mp);
            let d = doy - march_offset(mp) + 1;
            let y = 400 * era + yoe + if m <= 2 {
                1int
            } else {
                0
            };
            valid_date(y, m, d) && days_from_civil(y, m, d) + 719468 == 146097 * era + 365 * yoe
                + yoe / 4 - yoe / 100 + doy
        }),
{
    let mp = (5 * doy + 2) / 153;
    let m = month_of(mp);
    let d = doy - march_offset(mp) + 1;
    let y0 = 400 * era + yoe;
    lemma_leaps_era(era, yoe);
    lemma_leaps_era(era, yoe + 1);
    assert(400 * era + (yoe + 1) == y0 + 1);
    lemma_leaps_step(y0);
    lemma_leaps_step(y0 + 1);
    lemma_month(doy, holds_leap_day(yoe), y0 + 1);
    assert(m != 2 ==> month_len(y0, m) == month_len(y0 + 1, m));
    assert(leaps_through(yoe) == yoe / 4 - yoe / 100);
    assert(leaps_through(1969) == 477);
    if m <= 2 {
        assert(mp == 10 || mp == 11);
        if mp == 10 {
            assert(march_offset(mp) == 306);
        } else {
            assert(march_offset(mp) == 337);
        }
    } else {
        assert(mp <= 9);
        if mp == 0 {
            assert(march_offset(mp) == 0);
        } else if mp == 1 {
            assert(march_offset(mp) == 31);
        } else if mp == 2 {
            assert(march_offset(mp) == 61);
        } else if mp == 3 {
            assert(march_offset(mp) == 92);
        } else if mp == 4 {
            assert(march_offset(mp) == 122);
        } else if mp == 5 {
            assert(march_offset(mp) == 153);
        } else if mp == 6 {
            assert(march_offset(mp) == 184);
        } else if mp == 7 {
            assert(march_offset(mp) == 214);
        } else if mp == 8 {
            assert(march_offset(mp) == 245);
        } else {
            assert(march_offset(mp) == 275);
        }
    }
}

proof fn lemma_dby_step(y: int)
    ensures
        days_before_year(y + 1) == days_before_year(y) + 365 + if is_leap(y) {
            1int
        } else {
            0
        },
{
    lemma_leaps_step(y);
}

proof fn lemma_dby_mono(a: int, b: int)
    requires
        a <= b,
    ensures
        days_before_year(a) + 365 * (b - a) <= days_before_year(b),
    decreases b - a,
{
    if a < b {
        lemma_dby_mono(a, b - 1);
        lemma_dby_step(b - 1);
    }
}

proof fn lemma_in_year(y: int, m: int, d: int)
    requires
        valid_date(y, m, d),
    ensures
        days_before_year(y) <= days_from_civil(y, m, d) < days_before_year(y + 1),
{
    lemma_dby_step(y);
}

proof fn lemma_month_mono(y: int, m1: int, m2: int)
    requires
        1 <= m1 < m2 <= 12,
    ensures
        days_before_month(y, m1) + month_len(y, m1) <= days_before_month(y, m2),
{
}

/// Two dates of the calendar with the same day count are the same date:
/// a day count names at most one civil date.
pub proof fn law_days_from_civil_injective(y1: int, m1: int, d1: int, y2: int, m2: int, d2: int)
    requires
        valid_date(y1, m1, d1),
        valid_date(y2, m2, d2),
        days_from_civil(y1, m1, d1) == days_from_civil(y2, m2, d2),
    ensures
        y1 == y2 && m1 == m2 && d1 == d2,
{
    lemma_in_year(y1, m1, d1);
    lemma_in_year(y2, m2, d2);
    if y1 < y2 {
        lemma_dby_mono(y1 + 1, y2);
    } else if y2 < y1 {
        lemma_dby_mono(y2 + 1, y1);
    }
    if m1 < m2 {
        lemma_month_mono(y1, m1, m2);
    } else if m2 < m1 {
        lemma_month_mono(y1, m2, m1);
    }
}

/// The civil date that lies `z` days after 1970-01-01.
pub open spec fn civil_date(z: int) -> (int, int, int) {
    choose|date: (int, int, int)| valid_date(date.0, date.1, date.2) && days_from_civil(date.0, date.1, date.2) == z
}

/// Every day count names a date of the calendar, so `civil_date` is that
/// date.
pub proof fn lemma_civil_date(z: int)
    ensures
        valid_date(civil_date(z).0, civil_date(z).1, civil_date(z).2),
        days_from_civil(civil_date(z).0, civil_date(z).1, civil_date(z).2) == z,
{
    let w = z + 719468;
    let era = w / 146097;
    let doe = w % 146097;
    assert(146097 * era + doe == w && 0 <= doe < 146097) by (nonlinear_arith)
        requires
            era == w / 146097,
            doe == w % 146097,
    ;
    lemma_year_of_era(doe);
    let yoe = yoe_of(doe);
    let doy = doy_of(doe, yoe);
    lemma_assemble(era, yoe, doy);
    let mp = (5 * doy + 2) / 153;
    let m = month_of(mp);
    let d = doy - march_offset(mp) + 1;
    let y = 400 * era + yoe + if m <= 2 {
        1int
    } else {
        0
    };
    assert(valid_date(y, m, d) && days_from_civil(y, m, d) == z);
    let date = (y, m, d);
    assert(valid_date(date.0, date.1, date.2) && days_from_civil(date.0, date.1, date.2) == z);
}

/// The calendar day after `(y, m, d)`.
pub open spec fn next_date(y: int, m: int, d: int) -> (int, int, int) {
    if d < month_len(y, m) {
        (y, m, d + 1)
    } else if m < 12 {
        (y, m + 1, 1)
    } else {
        (y + 1, 1, 1)
    }
}

proof fn lemma_next_date(y: int, m: int, d: int)
    requires
        valid_date(y, m, d),
    ensures
        valid_date(next_date(y, m, d).0, next_date(y, m, d).1, next_date(y, m, d).2),
        days_from_civil(next_date(y, m, d).0, next_date(y, m, d).1, next_date(y, m, d).2)
            == days_from_civil(y, m, d) + 1,
{
    if d < month_len(y, m) {
    } else if m < 12 {
        assert(days_before_month(y, m + 1) == days_before_month(y, m) + month_len(y, m));
    } else {
        lemma_dby_step(y);
    }
}

/// The date of the day after day `z` is the calendar day after the date of
/// day `z`: the day of the month steps by one, or the month (with day 1),
/// or the year (with January 1).
pub proof fn law_civil_next_day(z: int)
    ensures
        valid_date(civil_date(z).0, civil_date(z).1, civil_date(z).2),
        civil_date(z + 1) == next_date(civil_date(z).0, civil_date(z).1, civil_date(z).2),
{
    lemma_civil_date(z);
    lemma_civil_date(z + 1);
    let c = civil_date(z);
    let c1 = civil_date(z + 1);
    lemma_next_date(c.0, c.1, c.2);
    let n = next_date(c.0, c.1, c.2);
    law_days_from_civil_injective(c1.0, c1.1, c1.2, n.0, n.1, n.2);
}

/// The era (400 years from a March 1) holding day `z` of the March-based
/// count, and the day within it.
fn era_and_day(z: i64) -> (r: (i64, i64))
    requires
        z >= i64::MIN + 719_468,
    ensures
        r.0 * 146_097 + r.1 == z,
        0 <= r.1 <= 146_096,
{
    let era: i64 = if z >= 0 {
        z / 146_097
    } else {
        -((146_096 - z) / 146_097)
    };
    assert(0 <= z - era * 146_097 <= 146_096) by (nonlinear_arith)
        requires
            z >= 0 ==> era == z / 146_097,
            z < 0 ==> era == -((146_096 - z) / 146_097),
    ;
    (era, z - era * 146_097)
}

/// The year of the era and the day of that (March-based) year.
fn year_of_era(doe: i64) -> (r: (i64, i64))
    requires
        0 <= doe <= 146_096,
    ensures
        r.0 == yoe_of(doe as int),
        r.1 == doy_of(doe as int, r.0 as int),
        0 <= r.0 <= 399,
        0 <= r.1 <= 364 + if holds_leap_day(r.0 as int) {
            1int
        } else {
            0
        },
{
    proof {
        lemma_year_of_era(doe as int);
    }
    let yoe = (doe - doe / 1460 + doe / 36_524 - doe / 146_096) / 365;
    let doy = doe - (365 * yoe + yoe / 4 - yoe / 100);
    (yoe, doy)
}

/// The month and day of day `doy` of a March-based year.
fn month_and_day(doy: i64) -> (r: (u32, u32))
    requires
        0 <= doy <= 365,
    ensures
        r.0 == month_of((5 * doy + 2) / 153),
        r.1 == doy - march_offset((5 * doy + 2) / 153) + 1,
{
    let mp = (5 * doy + 2) / 153;
    assert(0 <= mp <= 11);
    assert(march_offset(mp as int) <= doy) by {
        lemma_month(doy as int, true, 0);
    }
    let d = (doy - (153 * mp + 2) / 5 + 1) as u32;
    let m = (if mp < 10 {
        mp + 3
    } else {
        mp - 9
    }) as u32;
    (m, d)
}

/// The civil date `(year, month, day)` that lies `z` days after
/// 1970-01-01 (before it for negative `z`), in the proleptic Gregorian
/// calendar. Inputs within 719468 of `i64::MAX` are left out: the shift to
/// the March-based era would overflow.
pub fn civil_from_days(z: i64) -> (r: (i64, u32, u32))
    requires
        z <= i64::MAX - 719_468,
    ensures
        valid_date(r.0 as int, r.1 as int, r.2 as int),
        days_from_civil(r.0 as int, r.1 as int, r.2 as int) == z as int,
        (r.0 as int, r.1 as int, r.2 as int) == civil_date(z as int),
{
    let ghost z0 = z as int;
    let z = z + 719_468;
    let (era, doe) = era_and_day(z);
    let (yoe, doy) = year_of_era(doe);
    proof {
        lemma_assemble(era as int, yoe as int, doy as int);
    }
    let (m, d) = month_and_day(doy);
    assert(-63_200_000_000_000_000 <= era <= 63_200_000_000_000_000) by (nonlinear_arith)
        requires
            era * 146_097 + doe == z,
            0 <= doe <= 146_096,
    ;
    let y = yoe + era * 400;
    let r = (if m <= 2 {
        y + 1
    } else {
        y
    }, m, d);
    proof {
        let date = (r.0 as int, r.1 as int, r.2 as int);
        assert(valid_date(date.0, date.1, date.2) && days_from_civil(date.0, date.1, date.2) == z0);
        let c = civil_date(z0);
        law_days_from_civil_injective(c.0, c.1, c.2, date.0, date.1, date.2);
    }
    r
}

/// `hh:mm` for a time of day given in seconds.
pub open spec fn clock_text(secs: int) -> Seq<char> {
    signed_zero_pad(secs / 3600, 2) + seq![':'] + signed_zero_pad((secs % 3600) / 60, 2)
}

/// A time of day shown as `hh:mm` reads back as that time cut to the
/// minute: two digits, `:`, two digits, the minutes under 60, and the
/// seconds of the day between the shown minute and the next.
pub proof fn law_clock_reads_back(secs: int)
    requires
        0 <= secs <= 86_400,
    ensures
        ({
            let t = clock_text(secs);
            let hh = digits_value(t.take(2), 10);
            let mm = digits_value(t.skip(3), 10);
            &&& t.len() == 5
            &&& t[2] == ':'
            &&& all_digits_in(t.take(2), 10)
            &&& all_digits_in(t.skip(3), 10)
            &&& 0 <= mm < 60
            &&& hh * 3600 + mm * 60 <= secs < hh * 3600 + mm * 60 + 60
        }),
{
    let h = secs / 3600;
    let m = (secs % 3600) / 60;
    assert(0 <= h <= 24 && 0 <= m < 60 && h * 3600 + m * 60 <= secs < h * 3600 + m * 60 + 60)
        by (nonlinear_arith)
        requires
            0 <= secs <= 86_400,
            h == secs / 3600,
            m == (secs % 3600) / 60,
    ;
    lemma_digits_len(h as nat, 10);
    lemma_digits_len(m as nat, 10);
    lemma_zero_pad_reads(h as nat, 10, 2);
    lemma_zero_pad_reads(m as nat, 10, 2);
    let a = signed_zero_pad(h, 2);
    let c = signed_zero_pad(m, 2);
    let t = clock_text(secs);
    assert(t == a + seq![':'] + c);
    assert(t.take(2) =~= a);
    assert(t.skip(3) =~= c);
}

/// What a spreadsheet date cell shows, from the parts of its serial number
/// (days since 1899-12-30): `time_only` when the whole part is below one,
/// the whole part `whole`, and the fraction of the day in seconds `secs`.
/// A time alone reads `hh:mm`; a date reads `YYYY-MM-DD`, followed by
/// ` hh:mm` when the time is not midnight.
pub open spec fn serial_text(time_only: bool, whole: int, secs: int) -> Seq<char> {
    if time_only {
        clock_text(secs)
    } else {
        let date = civil_date(whole - 25569);
        let ymd = signed_zero_pad(date.0, 4) + seq!['-'] + signed_zero_pad(date.1, 2) + seq!['-']
            + signed_zero_pad(date.2, 2);
        if secs > 0 {
            ymd + seq![' '] + clock_text(secs)
        } else {
            ymd
        }
    }
}

fn push_clock(out: &mut Vec<char>, secs: i64)
    requires
        0 <= secs <= 86_400,
    ensures
        final(out)@ == old(out)@ + clock_text(secs as int),
{
    let ghost o = out@;
    push_decimal(out, secs / 3600, 2);
    out.push(':');
    push_decimal(out, (secs % 3600) / 60, 2);
    assert(out@ =~= o + clock_text(secs as int));
}

/// The text of a spreadsheet date cell from the parts of its serial
/// number; see `serial_text`. The seconds of a day lie in `0..=86400`, and
/// the whole part of a date is at least zero; whole parts so large that the
/// day count would overflow are left out.
pub fn serial_parts_to_string(time_only: bool, whole: i64, secs: i64) -> (r: String)
    requires
        0 <= secs <= 86_400,
        !time_only ==> 0 <= whole <= i64::MAX - 719_468 + 25_569,
    ensures
        r@ == serial_text(time_only, whole as int, secs as int),
{
    let mut out: Vec<char> = Vec::new();
    if time_only {
        push_clock(&mut out, secs);
        assert(out@ =~= serial_text(time_only, whole as int, secs as int));
        return string_of(&out);
    }
    let (y, mo, d) = civil_from_days(whole - 25_569);
    push_decimal(&mut out, y, 4);
    out.push('-');
    push_decimal(&mut out, mo as i64, 2);
    out.push('-');
    push_decimal(&mut out, d as i64, 2);
    if secs > 0 {
        out.push(' ');
        push_clock(&mut out, secs);
    }
    assert(out@ =~= serial_text(time_only, whole as int, secs as int));
    string_of(&out)
}

} // verus!
