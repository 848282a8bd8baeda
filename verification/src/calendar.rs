//! Calendar dates: the Gregorian date that lies a given number of days after
//! 1970-01-01, and its `YYYY-MM-DD` text.

use vstd::prelude::*;
use crate::clock::seconds_since_unix_epoch;
use crate::text::{four_digits, push_char, push_four_digits, push_two_digits, two_digits};
use vstd::arithmetic::div_mod::lemma_fundamental_div_mod_converse;

verus! {

/// `year` is a Gregorian leap year.
pub open spec fn is_leap_year(year: int) -> bool {
    year % 4 == 0 && (year % 100 != 0 || year % 400 == 0)
}

/// The number of days in `year`.
pub open spec fn year_length(year: int) -> int {
    if is_leap_year(year) { 366 } else { 365 }
}

/// The number of days in `month` (1 to 12) of `year`.
pub open spec fn days_in_month(year: int, month: int) -> int {
    if month == 2 {
        if is_leap_year(year) { 29 } else { 28 }
    } else if month == 4 || month == 6 || month == 9 || month == 11 {
        30
    } else {
        31
    }
}

/// `year-month-day` names a day of the Gregorian calendar.
pub open spec fn is_valid_date(year: int, month: int, day: int) -> bool {
    1 <= month <= 12 && 1 <= day <= days_in_month(year, month)
}

/// Days from 1970-01-01 to January 1 of `year` (negative for earlier years).
pub open spec fn days_before_year(year: int) -> int
    decreases (if year >= 1970 { year - 1970 } else { 1970 - year }),
{
    if year > 1970 {
        days_before_year(year - 1) + year_length(year - 1)
    } else if year < 1970 {
        days_before_year(year + 1) - year_length(year)
    } else {
        0
    }
}

/// Days from January 1 to the first day of `month` in `year`.
pub open spec fn days_before_month(year: int, month: int) -> int
    decreases month,
{
    if month <= 1 {
        0
    } else {
        days_before_month(year, month - 1) + days_in_month(year, month - 1)
    }
}

/// Days from 1970-01-01 to `year-month-day`.
pub open spec fn day_number(year: int, month: int, day: int) -> int {
    days_before_year(year) + days_before_month(year, month) + day - 1
}

/// Days from 0000-03-01 to March 1 of `year`.
spec fn march_days(year: int) -> int {
    365 * year + year / 4 - year / 100 + year / 400
}

proof fn lemma_march_step(year: int)
    ensures
        march_days(year) == march_days(year - 1) + year_length(year),
{
}

proof fn lemma_days_before_year(year: int)
    ensures
        days_before_year(year) == march_days(year - 1) + 306 - 719468,
    decreases (if year >= 1970 { year - 1970 } else { 1970 - year }),
{
    if year > 1970 {
        lemma_days_before_year(year - 1);
        lemma_march_step(year - 1);
    } else if year < 1970 {
        lemma_days_before_year(year + 1);
        lemma_march_step(year);
    }
}

proof fn lemma_days_before_month(year: int, month: int)
    requires
        1 <= month <= 12,
    ensures
        days_before_month(year, month) == if month >= 3 {
            59 + (if is_leap_year(year) { 1int } else { 0int }) + (153 * (month - 3) + 2) / 5
        } else if month == 2 {
            31
        } else {
            0
        },
{
    reveal_with_fuel(days_before_month, 12);
}

proof fn lemma_year_of_era(doe: u32)
    by (bit_vector)
    requires
        doe < 146097,
    ensures
        ({
            let yoe = (doe - doe / 1460 + doe / 36524 - doe / 146096) / 365;
            let start = 365 * yoe + yoe / 4 - yoe / 100;
            &&& yoe < 400
            &&& start <= doe
            &&& doe - start < 365 + (if (yoe + 1) % 4 == 0 && ((yoe + 1) % 100 != 0 || yoe == 399) { 1u32 } else { 0u32 })
        }),
{
}

proof fn lemma_month_of_year(doy: u32)
    by (bit_vector)
    requires
        doy < 366,
    ensures
        ({
            let mp = (5 * doy + 2) / 153;
            let first = (153 * mp + 2) / 5;
            &&& mp < 12
            &&& first <= doy
            &&& doy - first < (if mp == 11 { 29u32 } else if mp == 1 || mp == 3 || mp == 6 || mp == 8 { 30u32 } else { 31u32 })
            &&& (mp == 11 && doy < 365 ==> doy - first < 28)
        }),
{
}

/// Year `400 * era + k` lies `k` years into a 400-year cycle of the calendar.
proof fn lemma_era_shift(era: int, k: int)
    requires
        era >= 0,
        0 <= k <= 400,
    ensures
        (400 * era + k) / 4 == 100 * era + k / 4,
        (400 * era + k) / 100 == 4 * era + k / 100,
        (400 * era + k) / 400 == era + k / 400,
        (400 * era + k) % 4 == k % 4,
        (400 * era + k) % 100 == k % 100,
        (400 * era + k) % 400 == k % 400,
{
    lemma_fundamental_div_mod_converse(400 * era + k, 4, 100 * era + k / 4, k % 4);
    lemma_fundamental_div_mod_converse(400 * era + k, 100, 4 * era + k / 100, k % 100);
    lemma_fundamental_div_mod_converse(400 * era + k, 400, era + k / 400, k % 400);
}

/// The number of days in the `mp`-th month of a year that starts in March.
spec fn march_month_length(mp: int) -> int {
    if mp == 11 { 29 } else if mp == 1 || mp == 3 || mp == 6 || mp == 8 { 30 } else { 31 }
}

/// The year `yoe` of a 400-year cycle, counted from March, ends with a leap day.
spec fn cycle_year_has_leap_day(yoe: int) -> bool {
    (yoe + 1) % 4 == 0 && ((yoe + 1) % 100 != 0 || yoe == 399)
}

/// The pieces that `days_to_date` computes name the date `days` days after 1970-01-01.
proof fn lemma_date_parts(days: int, era: int, doe: int, yoe: int, doy: int, mp: int, d: int)
    requires
        days >= 0,
        era >= 0,
        days + 719468 == 146097 * era + doe,
        0 <= doe < 146097,
        0 <= yoe < 400,
        doy == doe - (365 * yoe + yoe / 4 - yoe / 100),
        0 <= doy < 365 + (if cycle_year_has_leap_day(yoe) { 1int } else { 0int }),
        0 <= mp < 12,
        (153 * mp + 2) / 5 <= doy,
        d == doy - (153 * mp + 2) / 5 + 1,
        d - 1 < march_month_length(mp),
        mp == 11 && doy < 365 ==> d - 1 < 28,
    ensures
        ({
            let m = if mp < 10 { mp + 3 } else { mp - 9 };
            let year = 400 * era + yoe + (if m <= 2 { 1int } else { 0int });
            &&& year >= 1970
            &&& is_valid_date(year, m, d)
            &&& day_number(year, m, d) == days
        }),
{
    let m = if mp < 10 { mp + 3 } else { mp - 9 };
    let shifted = 400 * era + yoe;
    let year = shifted + (if m <= 2 { 1int } else { 0int });
    lemma_era_shift(era, yoe);
    lemma_era_shift(era, yoe + 1);
    lemma_days_before_year(year);
    lemma_days_before_month(year, m);
    lemma_march_step(shifted);
    assert(march_days(shifted) == 146097 * era + 365 * yoe + yoe / 4 - yoe / 100);
    assert(is_leap_year(shifted + 1) == cycle_year_has_leap_day(yoe));
    if year < 1970 {
        // Every year before 1970 ends before the epoch.
        assert(shifted <= 1969);
        if shifted == 1969 {
            assert(era == 4 && yoe == 369);
        }
        assert(false);
    }
}

/// `date`, as (year, month, day) with the year kept modulo 2^32, is the valid
/// date from 1970 on whose day number is `days`.
pub open spec fn names_day(date: (u32, u32, u32), days: int) -> bool {
    exists|year: int|
        #![trigger is_valid_date(year, date.1 as int, date.2 as int)]
        {
            &&& year >= 1970
            &&& year % 0x1_0000_0000 == date.0 as int
            &&& is_valid_date(year, date.1 as int, date.2 as int)
            &&& day_number(year, date.1 as int, date.2 as int) == days
        }
}

/// The date `days_since_epoch` days after 1970-01-01, as (year, month, day);
/// the year is kept modulo 2^32.
pub fn days_to_date(days_since_epoch: u64) -> (date: (u32, u32, u32))
    requires
        days_since_epoch + 719468 <= u64::MAX,
    ensures
        names_day(date, days_since_epoch as int),
{
    // Days are counted from 0000-03-01, in 400-year eras of 146097 days, and
    // years are taken to start in March so that a leap day ends its year.
    let z = days_since_epoch + 719468;
    let era = z / 146097;
    let doe = z - era * 146097;
    proof { lemma_year_of_era(doe as u32); }
    let yoe = (doe - doe / 1460 + doe / 36524 - doe / 146096) / 365;
    let shifted = yoe + era * 400;
    let doy = doe - (365 * yoe + yoe / 4 - yoe / 100);
    proof { lemma_month_of_year(doy as u32); }
    let mp = (5 * doy + 2) / 153;
    let d = doy - (153 * mp + 2) / 5 + 1;
    let m = if mp < 10 { mp + 3 } else { mp - 9 };
    let y = if m <= 2 { shifted + 1 } else { shifted };
    proof {
        lemma_date_parts(days_since_epoch as int, era as int, doe as int, yoe as int, doy as int, mp as int, d as int);
    }
    let ghost full_year = y as int;
    assert(full_year >= 1970 && is_valid_date(full_year, m as int, d as int)
        && day_number(full_year, m as int, d as int) == days_since_epoch);
    let year = #[verifier::truncate] (y as u32);
    assert(year == y % 0x1_0000_0000) by (bit_vector)
        requires
            year == y as u32,
    ;
    let month = m as u32;
    let day = d as u32;
    assert(month as int == m as int && day as int == d as int);
    assert(year as int == full_year % 0x1_0000_0000);
    assert(is_valid_date(full_year, month as int, day as int));
    assert(day_number(full_year, month as int, day as int) == days_since_epoch);
    let date = (year, month, day);
    assert(is_valid_date(full_year, date.1 as int, date.2 as int));
    assert(exists|yr: int|
            #![trigger is_valid_date(yr, date.1 as int, date.2 as int)]
            {
                &&& yr >= 1970
                &&& yr % 0x1_0000_0000 == date.0 as int
                &&& is_valid_date(yr, date.1 as int, date.2 as int)
                &&& day_number(yr, date.1 as int, date.2 as int) == days_since_epoch
            });
    date
}

/// A valid date lies inside its year: its day number is at least that of
/// January 1 and below that of the next January 1.
proof fn lemma_date_within_year(year: int, month: int, day: int)
    requires
        is_valid_date(year, month, day),
    ensures
        days_before_year(year) <= day_number(year, month, day) < days_before_year(year + 1),
{
    lemma_days_before_month(year, month);
    lemma_days_before_year(year);
    lemma_days_before_year(year + 1);
    lemma_march_step(year);
}

proof fn lemma_days_before_year_grows(a: int, b: int)
    requires
        a <= b,
    ensures
        days_before_year(a) + 365 * (b - a) <= days_before_year(b),
    decreases b - a,
{
    if a < b {
        lemma_days_before_year_grows(a, b - 1);
        lemma_days_before_year(b);
        lemma_days_before_year(b - 1);
        lemma_march_step(b - 1);
    }
}

/// Each day number belongs to one date only: two valid dates with the same
/// day number are the same date.
pub proof fn lemma_day_number_names_one_date(y1: int, m1: int, d1: int, y2: int, m2: int, d2: int)
    requires
        is_valid_date(y1, m1, d1),
        is_valid_date(y2, m2, d2),
        day_number(y1, m1, d1) == day_number(y2, m2, d2),
    ensures
        y1 == y2,
        m1 == m2,
        d1 == d2,
{
    lemma_date_within_year(y1, m1, d1);
    lemma_date_within_year(y2, m2, d2);
    if y1 < y2 {
        lemma_days_before_year_grows(y1 + 1, y2);
    } else if y2 < y1 {
        lemma_days_before_year_grows(y2 + 1, y1);
    }
    lemma_days_before_month(y1, m1);
    lemma_days_before_month(y1, m2);
}

/// The day after `year-month-day`: the next day of the month, else the first
/// of the next month, else January 1 of the next year.
pub open spec fn next_date(year: int, month: int, day: int) -> (int, int, int) {
    if day < days_in_month(year, month) {
        (year, month, day + 1)
    } else if month < 12 {
        (year, month + 1, 1)
    } else {
        (year + 1, 1, 1)
    }
}

/// The day after a valid date is a valid date whose day number is one more.
pub proof fn lemma_next_date(year: int, month: int, day: int)
    requires
        is_valid_date(year, month, day),
    ensures
        is_valid_date(next_date(year, month, day).0, next_date(year, month, day).1, next_date(year, month, day).2),
        day_number(next_date(year, month, day).0, next_date(year, month, day).1, next_date(year, month, day).2)
            == day_number(year, month, day) + 1,
{
    if day < days_in_month(year, month) {
    } else if month < 12 {
        assert(days_before_month(year, month + 1) == days_before_month(year, month) + days_in_month(year, month));
    } else {
        lemma_days_before_month(year, 12);
        lemma_days_before_year(year);
        lemma_days_before_year(year + 1);
        lemma_march_step(year);
        assert(days_before_month(year + 1, 1) == 0);
    }
}

/// Consecutive day numbers name consecutive dates: the valid date whose day
/// number is one more than that of `year-month-day` is the day after it.
pub proof fn lemma_consecutive_days(year: int, month: int, day: int, year2: int, month2: int, day2: int)
    requires
        is_valid_date(year, month, day),
        is_valid_date(year2, month2, day2),
        day_number(year2, month2, day2) == day_number(year, month, day) + 1,
    ensures
        (year2, month2, day2) == next_date(year, month, day),
{
    lemma_next_date(year, month, day);
    let next = next_date(year, month, day);
    lemma_day_number_names_one_date(year2, month2, day2, next.0, next.1, next.2);
}

/// A valid date from 1970 on whose day number is below 10^9 has a year below 2^32.
proof fn lemma_year_fits(year: int, month: int, day: int)
    requires
        year >= 1970,
        is_valid_date(year, month, day),
        day_number(year, month, day) < 1_000_000_001,
    ensures
        year < 0x1_0000_0000 - 1,
{
    lemma_date_within_year(year, month, day);
    lemma_days_before_year_grows(1970, year);
}

/// For day numbers below 10^9, the date named for `n + 1` is the day after the
/// date named for `n`: what `days_to_date` gives for consecutive numbers.
pub proof fn lemma_day_after(n: int, today: (u32, u32, u32), tomorrow: (u32, u32, u32))
    requires
        0 <= n < 1_000_000_000,
        names_day(today, n),
        names_day(tomorrow, n + 1),
    ensures
        is_valid_date(today.0 as int, today.1 as int, today.2 as int),
        (tomorrow.0 as int, tomorrow.1 as int, tomorrow.2 as int)
            == next_date(today.0 as int, today.1 as int, today.2 as int),
{
    let y1 = choose|year: int|
        #![trigger is_valid_date(year, today.1 as int, today.2 as int)]
        {
            &&& year >= 1970
            &&& year % 0x1_0000_0000 == today.0 as int
            &&& is_valid_date(year, today.1 as int, today.2 as int)
            &&& day_number(year, today.1 as int, today.2 as int) == n
        };
    let y2 = choose|year: int|
        #![trigger is_valid_date(year, tomorrow.1 as int, tomorrow.2 as int)]
        {
            &&& year >= 1970
            &&& year % 0x1_0000_0000 == tomorrow.0 as int
            &&& is_valid_date(year, tomorrow.1 as int, tomorrow.2 as int)
            &&& day_number(year, tomorrow.1 as int, tomorrow.2 as int) == n + 1
        };
    lemma_year_fits(y1, today.1 as int, today.2 as int);
    lemma_year_fits(y2, tomorrow.1 as int, tomorrow.2 as int);
    assert(y1 == today.0 as int);
    assert(y2 == tomorrow.0 as int);
    lemma_consecutive_days(y1, today.1 as int, today.2 as int, y2, tomorrow.1 as int, tomorrow.2 as int);
}

/// `year-month-day` written as `YYYY-MM-DD`: the year padded to four digits,
/// month and day to two.
pub open spec fn date_text(year: nat, month: nat, day: nat) -> Seq<char> {
    four_digits(year) + seq!['-'] + two_digits(month) + seq!['-'] + two_digits(day)
}

/// Writes a date as `YYYY-MM-DD`.
pub fn format_date(year: u32, month: u32, day: u32) -> (text: String)
    ensures
        text@ == date_text(year as nat, month as nat, day as nat),
{
    let mut text = String::new();
    push_four_digits(&mut text, year as u64);
    push_char(&mut text, '-');
    push_two_digits(&mut text, month as u64);
    push_char(&mut text, '-');
    push_two_digits(&mut text, day as u64);
    assert(text@ =~= date_text(year as nat, month as nat, day as nat));
    text
}

/// The date, as `YYYY-MM-DD`, of the UTC day that the instant `secs` seconds
/// after 1970-01-01 00:00 UTC falls in: the date whose day number is the
/// number of whole days (86400 seconds each) in `secs`.
pub fn date_string_at(secs: u64) -> (text: String)
    ensures
        exists|date: (u32, u32, u32)|
            #[trigger] names_day(date, secs as int / 86400) && text@ == date_text(date.0 as nat, date.1 as nat, date.2 as nat),
{
    let days = secs / 86400;
    let date = days_to_date(days);
    let text = format_date(date.0, date.1, date.2);
    assert(names_day(date, secs as int / 86400));
    text
}

/// Readings of the clock name dates day by day: two readings in the same
/// 86400-second day name the same date, and a reading one day later names the
/// next date (for day numbers below 10^9).
pub proof fn lemma_readings_name_days(s1: u64, s2: u64, d1: (u32, u32, u32), d2: (u32, u32, u32))
    requires
        names_day(d1, s1 as int / 86400),
        names_day(d2, s2 as int / 86400),
    ensures
        s1 as int / 86400 == s2 as int / 86400 ==> d1 == d2,
        s2 as int / 86400 == s1 as int / 86400 + 1 && s1 as int / 86400 < 1_000_000_000 ==> {
            &&& is_valid_date(d1.0 as int, d1.1 as int, d1.2 as int)
            &&& (d2.0 as int, d2.1 as int, d2.2 as int) == next_date(d1.0 as int, d1.1 as int, d1.2 as int)
        },
{
    let n1 = s1 as int / 86400;
    let n2 = s2 as int / 86400;
    if n1 == n2 {
        let y1 = choose|year: int|
            #![trigger is_valid_date(year, d1.1 as int, d1.2 as int)]
            {
                &&& year >= 1970
                &&& year % 0x1_0000_0000 == d1.0 as int
                &&& is_valid_date(year, d1.1 as int, d1.2 as int)
                &&& day_number(year, d1.1 as int, d1.2 as int) == n1
            };
        let y2 = choose|year: int|
            #![trigger is_valid_date(year, d2.1 as int, d2.2 as int)]
            {
                &&& year >= 1970
                &&& year % 0x1_0000_0000 == d2.0 as int
                &&& is_valid_date(year, d2.1 as int, d2.2 as int)
                &&& day_number(year, d2.1 as int, d2.2 as int) == n2
            };
        lemma_day_number_names_one_date(y1, d1.1 as int, d1.2 as int, y2, d2.1 as int, d2.2 as int);
    }
    if n2 == n1 + 1 && n1 < 1_000_000_000 {
        lemma_day_after(n1, d1, d2);
    }
}

/// Today's date by the system clock (UTC), as `YYYY-MM-DD`: `date_string_at`
/// of the seconds since 1970-01-01 00:00 UTC that the clock reads. Which date
/// that is depends on the clock; it is always a valid date from 1970 on.
pub fn current_date_string() -> (text: String)
    ensures
        exists|year: int, month: int, day: int|
            #![trigger is_valid_date(year, month, day)]
            {
                &&& year >= 1970
                &&& is_valid_date(year, month, day)
                &&& text@ == date_text((year % 0x1_0000_0000) as nat, month as nat, day as nat)
            },
        exists|secs: u64, date: (u32, u32, u32)|
            #[trigger] names_day(date, secs as int / 86400) && text@ == date_text(date.0 as nat, date.1 as nat, date.2 as nat),
{
    let now = seconds_since_unix_epoch();
    let text = date_string_at(now);
    let ghost date = choose|date: (u32, u32, u32)|
        #[trigger] names_day(date, now as int / 86400) && text@ == date_text(date.0 as nat, date.1 as nat, date.2 as nat);
    let ghost full_year = choose|yr: int| #![trigger is_valid_date(yr, date.1 as int, date.2 as int)]
        {
            &&& yr >= 1970
            &&& yr % 0x1_0000_0000 == date.0 as int
            &&& is_valid_date(yr, date.1 as int, date.2 as int)
            &&& day_number(yr, date.1 as int, date.2 as int) == now as int / 86400
        };
    assert(is_valid_date(full_year, date.1 as int, date.2 as int));
    assert(full_year % 0x1_0000_0000 == date.0 as int);
    text
}

} // verus!
