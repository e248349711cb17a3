//! Days since 1970-01-01 and dates of the Gregorian calendar.

use crate::text::{digits_value, law_decimal_width, law_padded_value, push_padded, zero_padded};
use vstd::prelude::*;
use vstd::string::*;

verus! {

/// Whether year `y` has a 29 February.
pub open spec fn is_leap(y: int) -> bool {
    y % 4 == 0 && (y % 100 != 0 || y % 400 == 0)
}

/// 1 in a leap year, else 0.
pub open spec fn leap_day(y: int) -> int {
    if is_leap(y) {
        1
    } else {
        0
    }
}

/// The number of days of month `m` of year `y`.
pub open spec fn days_in_month(y: int, m: int) -> int {
    if m == 2 {
        28 + leap_day(y)
    } else if m == 4 || m == 6 || m == 9 || m == 11 {
        30
    } else {
        31
    }
}

/// The number of days of year `y` that come before month `m`.
pub open spec fn days_before_month(y: int, m: int) -> int
    decreases m,
{
    if m <= 1 {
        0
    } else {
        days_before_month(y, m - 1) + days_in_month(y, m - 1)
    }
}

/// The number of leap years among the years 1, ..., `y`, going on below year 1.
pub open spec fn leap_years_through(y: int) -> int {
    y / 4 - y / 100 + y / 400
}

/// The number of days from 1970-01-01 to 1 January of year `y`.
pub open spec fn days_before_year(y: int) -> int {
    365 * (y - 1970) + leap_years_through(y - 1) - leap_years_through(1969)
}

/// The number of days from 1970-01-01 to day `d` of month `m` of year `y`.
pub open spec fn day_number(y: int, m: int, d: int) -> int {
    days_before_year(y) + days_before_month(y, m) + d - 1
}

/// Whether there is a day `d` in month `m` of year `y`.
pub open spec fn is_date(y: int, m: int, d: int) -> bool {
    1 <= m <= 12 && 1 <= d <= days_in_month(y, m)
}

/// The days of a year counted from 1 March, before the years `0, ..., n - 1` of a
/// cycle of 400.
spec fn march_years(n: int) -> int {
    365 * n + n / 4 - n / 100
}

proof fn lemma_year_of_cycle(doe: int)
    requires
        0 <= doe < 146097,
    ensures
        ({
            let yoe = (doe - doe / 1460 + doe / 36524 - doe / 146096) / 365;
            &&& 0 <= yoe < 400
            &&& 0 <= doe - march_years(yoe)
            &&& doe - march_years(yoe) <= 364 + leap_day(yoe + 1)
        }),
{
}

proof fn lemma_days_before_month(y: int, m: int)
    requires
        1 <= m <= 12,
    ensures
        days_before_month(y, m) == (if m == 1 {
            0
        } else if m == 2 {
            31
        } else {
            28 + leap_day(y) + (153 * (m - 3) + 2) / 5 + 31
        }),
{
    reveal_with_fuel(days_before_month, 13);
}

/// The count from 1 March of year `400 * era + yoe` agrees with the count from 1 January.
#[verifier::spinoff_prover]
#[verifier::rlimit(50)]
proof fn lemma_march_start(era: int, yoe: int)
    requires
        0 <= yoe < 400,
    ensures
        ({
            let y = 400 * era + yoe;
            &&& days_before_year(y) + 59 + leap_day(y) == 146097 * era + march_years(yoe) - 719468
            &&& days_before_year(y + 1) == 146097 * era + march_years(yoe) + 306 - 719468
            &&& leap_day(y + 1) == leap_day(yoe + 1)
        }),
{
    let y = 400 * era + yoe;
    lemma_leap_years_of_cycle(era, yoe);
    lemma_leap_years_step(y);
    assert(leap_day(y + 1) == leap_day(yoe + 1)) by {
        assert((y + 1) % 4 == (yoe + 1) % 4);
        assert((y + 1) % 100 == (yoe + 1) % 100);
        assert((y + 1) % 400 == (yoe + 1) % 400);
    }
    assert(leap_years_through(1969) == 477);
}

proof fn lemma_leap_years_of_cycle(era: int, yoe: int)
    requires
        0 <= yoe < 400,
    ensures
        leap_years_through(400 * era + yoe) == 97 * era + yoe / 4 - yoe / 100,
{
    let y = 400 * era + yoe;
    assert(y / 4 == 100 * era + yoe / 4);
    assert(y / 100 == 4 * era + yoe / 100);
    assert(y / 400 == era);
}

proof fn lemma_leap_years_step(y: int)
    ensures
        leap_years_through(y) == leap_years_through(y - 1) + leap_day(y),
{
    assert(y / 4 == (y - 1) / 4 + (if y % 4 == 0 { 1int } else { 0 }));
    assert(y / 100 == (y - 1) / 100 + (if y % 100 == 0 { 1int } else { 0 }));
    assert(y / 400 == (y - 1) / 400 + (if y % 400 == 0 { 1int } else { 0 }));
    assert(y % 100 == 0 ==> y % 4 == 0);
    assert(y % 400 == 0 ==> y % 100 == 0);
}

proof fn lemma_month_of_year(doy: int)
    requires
        0 <= doy <= 365,
    ensures
        ({
            let mp = (5 * doy + 2) / 153;
            let d = doy - (153 * mp + 2) / 5 + 1;
            &&& 0 <= mp <= 11
            &&& 1 <= d
            &&& mp == 11 ==> d == doy - 336
            &&& mp == 10 ==> d <= 31
            &&& mp < 10 ==> d <= days_in_month(2001, mp + 3)
        }),
{
    let mp = (5 * doy + 2) / 153;
    assert(0 <= mp <= 11);
    assert(mp == 0 || mp == 1 || mp == 2 || mp == 3 || mp == 4 || mp == 5 || mp == 6 || mp == 7 || mp
        == 8 || mp == 9 || mp == 10 || mp == 11);
}

/// The date that lies `days` days after 1970-01-01.
pub fn days_to_date(days: i64) -> (r: (i64, u32, u32))
    requires
        days <= i64::MAX - 719468,
    ensures
        is_date(r.0 as int, r.1 as int, r.2 as int),
        day_number(r.0 as int, r.1 as int, r.2 as int) == days,
{
    let z: i64 = days + 719468;
    let era: i64 = (if z >= 0 { z } else { z - 146096 }) / 146097;
    assert(146097 * era <= z < 146097 * (era + 1));
    let doe: i64 = z - era * 146097;
    proof {
        lemma_year_of_cycle(doe as int);
    }
    let yoe: i64 = (doe - doe / 1460 + doe / 36524 - doe / 146096) / 365;
    let y: i64 = yoe + era * 400;
    let doy: i64 = doe - (365 * yoe + yoe / 4 - yoe / 100);
    proof {
        assert(doy == doe - march_years(yoe as int));
        lemma_march_start(era as int, yoe as int);
        lemma_month_of_year(doy as int);
    }
    let mp: i64 = (5 * doy + 2) / 153;
    let d: i64 = doy - (153 * mp + 2) / 5 + 1;
    let m: i64 = if mp < 10 {
        mp + 3
    } else {
        mp - 9
    };
    let y: i64 = if m <= 2 {
        y + 1
    } else {
        y
    };
    proof {
        lemma_days_before_month(y as int, m as int);
    }
    (y, m as u32, d as u32)
}

/// Year 1970 starts at day 0, and each year is as long as its days.
pub proof fn law_years_follow(y: int)
    ensures
        days_before_year(1970) == 0,
        days_before_year(y + 1) == days_before_year(y) + 365 + leap_day(y),
        days_before_month(y, 13) == 365 + leap_day(y),
{
    reveal_with_fuel(days_before_month, 14);
    lemma_leap_years_step(y);
}

proof fn lemma_years_ordered(y1: int, y2: int)
    requires
        y1 < y2,
    ensures
        days_before_year(y1 + 1) <= days_before_year(y2),
{
}

proof fn lemma_months_ordered(y: int, m1: int, m2: int)
    requires
        1 <= m1 < m2 <= 13,
    ensures
        days_before_month(y, m1) + days_in_month(y, m1) <= days_before_month(y, m2),
    decreases m2,
{
    if m1 + 1 < m2 {
        lemma_months_ordered(y, m1, m2 - 1);
    }
}

/// Of two dates the one with the smaller day number comes first: by year, then by
/// month, then by day.
pub proof fn law_dates_ordered(y1: int, m1: int, d1: int, y2: int, m2: int, d2: int)
    requires
        is_date(y1, m1, d1),
        is_date(y2, m2, d2),
    ensures
        day_number(y1, m1, d1) < day_number(y2, m2, d2) <==> (y1 < y2 || (y1 == y2 && (m1 < m2 || (m1
            == m2 && d1 < d2)))),
{
    lemma_within_year(y1, m1, d1);
    lemma_within_year(y2, m2, d2);
    if y1 < y2 {
        lemma_years_ordered(y1, y2);
    } else if y2 < y1 {
        lemma_years_ordered(y2, y1);
    } else if m1 < m2 {
        lemma_months_ordered(y1, m1, m2);
    } else if m2 < m1 {
        lemma_months_ordered(y1, m2, m1);
    }
}

proof fn lemma_within_year(y: int, m: int, d: int)
    requires
        is_date(y, m, d),
    ensures
        days_before_year(y) <= day_number(y, m, d) < days_before_year(y + 1),
{
    law_years_follow(y);
    lemma_months_ordered(y, m, 13);
    if m > 1 {
        lemma_months_ordered(y, 1, m);
    }
}

/// No two dates have the same day number: `days_to_date` gives the only date there is.
pub proof fn law_date_unique(y1: int, m1: int, d1: int, y2: int, m2: int, d2: int)
    requires
        is_date(y1, m1, d1),
        is_date(y2, m2, d2),
        day_number(y1, m1, d1) == day_number(y2, m2, d2),
    ensures
        y1 == y2,
        m1 == m2,
        d1 == d2,
{
    law_dates_ordered(y1, m1, d1, y2, m2, d2);
    law_dates_ordered(y2, m2, d2, y1, m1, d1);
}

/// A date and a time of day as `YYYY-MM-DD hh:mm:ss`.
pub open spec fn timestamp_text(y: nat, mo: nat, d: nat, h: nat, mi: nat, s: nat) -> Seq<char> {
    zero_padded(y, 4) + "-"@ + zero_padded(mo, 2) + "-"@ + zero_padded(d, 2) + " "@ + zero_padded(h, 2)
        + ":"@ + zero_padded(mi, 2) + ":"@ + zero_padded(s, 2)
}

/// The moment `secs` seconds after 1970-01-01 00:00:00, as `YYYY-MM-DD hh:mm:ss`.
pub fn format_timestamp(secs: u64) -> (r: String)
    ensures
        ({
            let time = (secs % 86400) as nat;
            exists|y: nat, mo: nat, d: nat|
                is_date(y as int, mo as int, d as int) && day_number(y as int, mo as int, d as int)
                    == secs / 86400 && r@ == #[trigger] timestamp_text(
                    y,
                    mo,
                    d,
                    time / 3600,
                    time % 3600 / 60,
                    time % 60,
                )
        }),
{
    let days: i64 = (secs / 86400) as i64;
    let time: u64 = secs % 86400;
    let hours: u64 = time / 3600;
    let minutes: u64 = (time % 3600) / 60;
    let seconds: u64 = time % 60;
    let date: (i64, u32, u32) = days_to_date(days);
    proof {
        lemma_within_year(date.0 as int, date.1 as int, date.2 as int);
        if date.0 < 1970 {
            lemma_years_ordered(date.0 as int, 1970);
        }
    }
    let mut out: String = String::new();
    push_padded(&mut out, date.0 as u64, 4);
    out.append("-");
    push_padded(&mut out, date.1 as u64, 2);
    out.append("-");
    push_padded(&mut out, date.2 as u64, 2);
    out.append(" ");
    push_padded(&mut out, hours, 2);
    out.append(":");
    push_padded(&mut out, minutes, 2);
    out.append(":");
    push_padded(&mut out, seconds, 2);
    assert(out@ =~= timestamp_text(
        date.0 as nat,
        date.1 as nat,
        date.2 as nat,
        hours as nat,
        minutes as nat,
        seconds as nat,
    ));
    out
}

/// A moment in words can be read back: the year in its first four characters, then month, day,
/// hour, minute and second in two each.
pub proof fn law_timestamps_are_read_back(y: nat, mo: nat, d: nat, h: nat, mi: nat, s: nat)
    requires
        y < 10_000,
        mo < 100,
        d < 100,
        h < 100,
        mi < 100,
        s < 100,
    ensures
        ({
            let t = timestamp_text(y, mo, d, h, mi, s);
            &&& t.len() == 19
            &&& digits_value(t.subrange(0, 4)) == y
            &&& t[4] == '-'
            &&& digits_value(t.subrange(5, 7)) == mo
            &&& t[7] == '-'
            &&& digits_value(t.subrange(8, 10)) == d
            &&& t[10] == ' '
            &&& digits_value(t.subrange(11, 13)) == h
            &&& t[13] == ':'
            &&& digits_value(t.subrange(14, 16)) == mi
            &&& t[16] == ':'
            &&& digits_value(t.subrange(17, 19)) == s
        }),
{
    reveal_strlit("-");
    reveal_strlit(" ");
    reveal_strlit(":");
    lemma_two_digits(mo);
    lemma_two_digits(d);
    lemma_two_digits(h);
    lemma_two_digits(mi);
    lemma_two_digits(s);
    law_padded_value(y, 4);
    law_decimal_width(y, 4);
    law_decimal_width(y / 10, 4);
    law_decimal_width(y / 100, 4);
    law_decimal_width(y / 1000, 4);
    assert(zero_padded(y, 4).len() == 4);
    let t = timestamp_text(y, mo, d, h, mi, s);
    assert(t.subrange(0, 4) =~= zero_padded(y, 4));
    assert(t.subrange(5, 7) =~= zero_padded(mo, 2));
    assert(t.subrange(8, 10) =~= zero_padded(d, 2));
    assert(t.subrange(11, 13) =~= zero_padded(h, 2));
    assert(t.subrange(14, 16) =~= zero_padded(mi, 2));
    assert(t.subrange(17, 19) =~= zero_padded(s, 2));
}

proof fn lemma_two_digits(n: nat)
    requires
        n < 100,
    ensures
        zero_padded(n, 2).len() == 2,
        digits_value(zero_padded(n, 2)) == n,
{
    law_padded_value(n, 2);
    law_decimal_width(n, 2);
    law_decimal_width(n / 10, 2);
}

/// A year has a 29 February where four divides it, but for the full centuries that four hundred
/// does not divide.
pub proof fn law_leap_years(y: int)
    ensures
        y % 4 != 0 ==> !is_leap(y),
        y % 4 == 0 && y % 100 != 0 ==> is_leap(y),
        y % 100 == 0 && y % 400 != 0 ==> !is_leap(y),
        y % 400 == 0 ==> is_leap(y),
        is_leap(y) <==> is_date(y, 2, 29),
{
}

/// Every month has 28 days, all but February have 30, and January, March, May, July, August,
/// October and December have 31.
pub proof fn law_months_have_their_days(y: int, m: int, d: int)
    ensures
        1 <= m <= 12 && 1 <= d <= 28 ==> is_date(y, m, d),
        1 <= m <= 12 && m != 2 && 29 <= d <= 30 ==> is_date(y, m, d),
        m == 1 || m == 3 || m == 5 || m == 7 || m == 8 || m == 10 || m == 12 ==> is_date(y, m, 31),
        m == 4 || m == 6 || m == 9 || m == 11 ==> !is_date(y, m, 31),
        !is_date(y, 2, 30),
        m < 1 || m > 12 || d < 1 || d > 31 ==> !is_date(y, m, d),
        is_date(y, 2, d) ==> d <= 29,
{
}

/// The days follow one another: the number of a day is one more than that of the day before, in
/// the same month, at the end of a month and at the end of a year; and the count starts with the
/// first day of 1970.
pub proof fn law_days_follow(y: int, m: int, d: int)
    requires
        is_date(y, m, d),
    ensures
        is_date(y, m, d + 1) ==> day_number(y, m, d + 1) == day_number(y, m, d) + 1,
        !is_date(y, m, d + 1) && m < 12 ==> is_date(y, m + 1, 1) && day_number(y, m + 1, 1)
            == day_number(y, m, d) + 1,
        !is_date(y, m, d + 1) && m == 12 ==> is_date(y + 1, 1, 1) && day_number(y + 1, 1, 1)
            == day_number(y, m, d) + 1,
        day_number(1970, 1, 1) == 0,
{
    law_years_follow(y);
    reveal_with_fuel(days_before_month, 2);
}

} // verus!
