//! The time of day.

use vstd::prelude::*;
use chrono::{Datelike, Timelike};
use crate::number_text;
use crate::number_text::padded_decimal;

verus! {

/// A point in time of the machine's clock.
#[verifier::external_type_specification]
#[verifier::external_body]
pub struct ExSystemTime(std::time::SystemTime);

/// `std::time::SystemTime::now` reads the machine's clock. Nothing is known
/// of the result.
pub assume_specification[ std::time::SystemTime::now ]() -> std::time::SystemTime;

/// `std::time::SystemTime::duration_since` gives the time since the start of
/// 1970, or nothing where the clock stands before it. Nothing is known of the
/// result.
#[verifier::external_body]
fn since_1970(now: std::time::SystemTime) -> Option<std::time::Duration> {
    now.duration_since(std::time::UNIX_EPOCH).ok()
}

/// `std::time::Duration::as_millis` gives a duration in whole milliseconds. A
/// duration holds its seconds in 64 bits and less than a second beside them,
/// which bounds the result; more is not known, for a duration cannot be looked
/// into.
pub assume_specification[ std::time::Duration::as_millis ](d: &std::time::Duration) -> (r: u128)
    ensures
        r <= LAST_MILLISECOND,
;

/// `std::time::Duration::as_secs` gives the whole seconds of a duration.
/// Nothing is known of the result, for a duration cannot be looked into.
pub assume_specification[ std::time::Duration::as_secs ](d: &std::time::Duration) -> u64;

/// `std::time::Duration::subsec_nanos` gives what a duration holds beside its
/// whole seconds, in nanoseconds. It is less than a second.
pub assume_specification[ std::time::Duration::subsec_nanos ](d: &std::time::Duration) -> (r: u32)
    ensures
        r < 1_000_000_000,
;

/// The longest duration, in whole milliseconds: 2^64 - 1 seconds and 999
/// milliseconds.
pub const LAST_MILLISECOND: u128 = 18_446_744_073_709_551_615_999;

/// The milliseconds that the clock shows: those since the start of 1970, and 0
/// where the clock stands before it.
pub fn millis_of(since: Option<u128>) -> (r: u128)
    ensures
        r == (match since {
            Some(millis) => millis,
            None => 0,
        }),
{
    match since {
        Some(millis) => millis,
        None => 0,
    }
}

/// The milliseconds since the start of 1970; 0 where the clock stands before
/// it. The clock decides within the range.
pub fn unix_time_millis() -> (r: u128)
    ensures
        r <= LAST_MILLISECOND,
{
    match since_1970(std::time::SystemTime::now()) {
        Some(d) => millis_of(Some(d.as_millis())),
        None => millis_of(None),
    }
}

/// The whole seconds in a number of milliseconds, in 64 bits.
pub fn seconds_of(millis: u128) -> (secs: u64)
    ensures
        secs == (millis / 1000) as u64,
{
    (millis / 1000) as u64
}

/// The seconds since the start of 1970: those of a clock in milliseconds, and
/// none is lost in 64 bits.
pub fn unix_time_secs() -> (secs: u64)
    ensures
        exists|millis: u128| millis <= LAST_MILLISECOND && secs == #[trigger] (millis / 1000),
{
    let millis: u128 = unix_time_millis();
    let secs: u64 = seconds_of(millis);
    assert(millis / 1000 <= u64::MAX);
    assert(secs == millis / 1000);
    secs
}

/// A time of day and its date, where the machine stands.
#[derive(Debug, Clone, Copy, PartialEq, Eq, Structural)]
pub struct LocalTimeFields {
    pub year: i32,
    pub month: u32,
    pub day: u32,
    /// 0 is Sunday, 6 is Saturday.
    pub weekday_sunday0: u32,
    pub hour: u32,
    pub minute: u32,
    pub second: u32,
    pub millisecond: u32,
}

impl LocalTimeFields {
    /// The fields lie in their ranges.
    pub open spec fn in_range(&self) -> bool {
        &&& 1 <= self.month <= 12
        &&& 1 <= self.day <= days_in_month(self.year as int, self.month as int)
        &&& self.weekday_sunday0 <= 6
        &&& self.hour <= 23
        &&& self.minute <= 59
        &&& self.second <= 59
        &&& self.millisecond <= 999
    }
}

/// Whether a year has 366 days.
pub open spec fn is_leap_year(year: int) -> bool {
    year % 4 == 0 && (year % 100 != 0 || year % 400 == 0)
}

pub open spec fn days_in_month(year: int, month: int) -> int {
    if month == 2 {
        if is_leap_year(year) {
            29
        } else {
            28
        }
    } else if month == 4 || month == 6 || month == 9 || month == 11 {
        30
    } else {
        31
    }
}

/// The days from the start of the year 1 to the start of a year.
pub open spec fn days_before_year(year: int) -> int {
    365 * (year - 1) + (year - 1) / 4 - (year - 1) / 100 + (year - 1) / 400
}

/// The days of a year before a month.
pub open spec fn days_before_month(year: int, month: int) -> int
    decreases month,
{
    if month <= 1 {
        0
    } else {
        days_before_month(year, month - 1) + days_in_month(year, month - 1)
    }
}

/// The days from the start of the year 1 to a date.
pub open spec fn day_number(year: int, month: int, day: int) -> int {
    days_before_year(year) + days_before_month(year, month) + day - 1
}

/// Whether the fields are the date and the time of day of a point in time, in
/// seconds since the start of 1970 and nanoseconds beside them, where clocks are
/// `utc_offset` seconds ahead of UTC. That year began on a Thursday.
pub open spec fn shows(t: LocalTimeFields, secs: int, nanos: int, utc_offset: int) -> bool {
    let days = (secs + utc_offset) / 86_400;
    let rest = (secs + utc_offset) % 86_400;
    &&& t.in_range()
    &&& day_number(t.year as int, t.month as int, t.day as int) == day_number(1970, 1, 1) + days
    &&& t.weekday_sunday0 == (days + 4) % 7
    &&& t.hour == rest / 3_600
    &&& t.minute == rest / 60 % 60
    &&& t.second == rest % 60
    &&& t.millisecond == nanos / 1_000_000
}

/// Whether a zone can be so far ahead of UTC: less than a day, or as much behind
/// it.
pub open spec fn is_zone(utc_offset: int) -> bool {
    -86_400 < utc_offset < 86_400
}

/// The last second that has a date, counted from the start of 1970: the end of
/// the year 262142.
pub const LAST_DATED_SECOND: i64 = 8_210_266_876_799;

/// `chrono::DateTime::from_timestamp` gives the date of a point in time in UTC,
/// and nothing beyond the last second that has one. `chrono::FixedOffset::east_opt`
/// gives a zone, and nothing for one that is a day or more apart from UTC.
/// `chrono::DateTime::with_timezone` moves the date there, and its fields are
/// those of the Gregorian calendar.
#[verifier::external_body]
fn local_date(secs: i64, nanos: u32, utc_offset: i32) -> (r: Option<LocalTimeFields>)
    requires
        0 <= secs,
        nanos < 1_000_000_000,
    ensures
        r is Some <==> (secs <= LAST_DATED_SECOND && is_zone(utc_offset as int)),
        r matches Some(t) ==> shows(t, secs as int, nanos as int, utc_offset as int),
{
    let zone = chrono::FixedOffset::east_opt(utc_offset)?;
    let date = chrono::DateTime::from_timestamp(secs, nanos)?.with_timezone(&zone);
    Some(LocalTimeFields {
        year: date.year(),
        month: date.month(),
        day: date.day(),
        weekday_sunday0: date.weekday().num_days_from_sunday(),
        hour: date.hour(),
        minute: date.minute(),
        second: date.second(),
        millisecond: date.timestamp_subsec_millis(),
    })
}

/// Whether what a clock shows, as seconds since the start of 1970 and
/// nanoseconds beside them, has a date in a zone.
pub open spec fn has_date(since: Option<(u64, u32)>, utc_offset: int) -> bool {
    &&& since matches Some((secs, nanos)) && secs <= LAST_DATED_SECOND && nanos < 1_000_000_000
    &&& is_zone(utc_offset)
}

/// Whether the fields are those of what a clock shows, where it has a date.
pub open spec fn is_date_of(
    t: Option<LocalTimeFields>,
    since: Option<(u64, u32)>,
    utc_offset: int,
) -> bool {
    &&& t is Some <==> has_date(since, utc_offset)
    &&& t matches Some(fields) ==> (since matches Some((secs, nanos)) && shows(
        fields,
        secs as int,
        nanos as int,
        utc_offset,
    ))
}

/// The time of day at what a clock shows, where clocks are `utc_offset` seconds
/// ahead of UTC; nothing where that has no date.
pub fn local_time_at(since: Option<(u64, u32)>, utc_offset: i32) -> (r: Option<LocalTimeFields>)
    ensures
        is_date_of(r, since, utc_offset as int),
{
    match since {
        Some((secs, nanos)) => if secs <= LAST_DATED_SECOND as u64 && nanos < 1_000_000_000 {
            local_date(secs as i64, nanos, utc_offset)
        } else {
            None
        },
        None => None,
    }
}

/// The present time of day, where clocks are `utc_offset` seconds ahead of UTC;
/// nothing where the clock stands before 1970 or beyond the last date.
pub fn local_time_fields(utc_offset: i32) -> (r: Option<LocalTimeFields>)
    ensures
        exists|since: Option<(u64, u32)>| #[trigger] is_date_of(r, since, utc_offset as int),
{
    let since: Option<(u64, u32)> = match since_1970(std::time::SystemTime::now()) {
        Some(d) => Some((d.as_secs(), d.subsec_nanos())),
        None => None,
    };
    let r = local_time_at(since, utc_offset);
    assert(is_date_of(r, since, utc_offset as int));
    r
}

proof fn lemma_next_year(year: int)
    ensures
        days_before_year(year + 1) == days_before_year(year) + if is_leap_year(year) {
            366int
        } else {
            365
        },
{
}

proof fn lemma_years(a: int, b: int)
    requires
        a < b,
    ensures
        days_before_year(a + 1) <= days_before_year(b),
    decreases b - a,
{
    if a + 1 < b {
        lemma_years(a, b - 1);
        lemma_next_year(b - 1);
    }
}

proof fn lemma_months(year: int, a: int, b: int)
    requires
        1 <= a < b <= 13,
    ensures
        days_before_month(year, a) + days_in_month(year, a) <= days_before_month(year, b),
    decreases b - a,
{
    if a + 1 < b {
        lemma_months(year, a, b - 1);
    }
}

proof fn lemma_in_year(year: int, month: int, day: int)
    requires
        1 <= month <= 12,
        1 <= day <= days_in_month(year, month),
    ensures
        days_before_year(year) <= day_number(year, month, day) < days_before_year(year + 1),
{
    reveal_with_fuel(days_before_month, 14);
    lemma_next_year(year);
    lemma_months(year, month, 13);
    if month > 1 {
        lemma_months(year, 1, month);
    }
}

/// Dates with the same number are the same.
pub proof fn dates_have_their_own_numbers(y: int, m: int, d: int, year: int, month: int, day: int)
    requires
        1 <= m <= 12,
        1 <= month <= 12,
        1 <= d <= days_in_month(y, m),
        1 <= day <= days_in_month(year, month),
        day_number(y, m, d) == day_number(year, month, day),
    ensures
        y == year,
        m == month,
        d == day,
{
    lemma_in_year(y, m, d);
    lemma_in_year(year, month, day);
    if y < year {
        lemma_years(y, year);
    } else if year < y {
        lemma_years(year, y);
    }
    if m < month {
        lemma_months(y, m, month);
    } else if month < m {
        lemma_months(y, month, m);
    }
}

/// A point in time has one date and time of day in a zone.
pub proof fn one_time_is_shown(
    t: LocalTimeFields,
    other: LocalTimeFields,
    secs: int,
    nanos: int,
    utc_offset: int,
)
    requires
        shows(t, secs, nanos, utc_offset),
        shows(other, secs, nanos, utc_offset),
    ensures
        t == other,
{
    dates_have_their_own_numbers(
        t.year as int,
        t.month as int,
        t.day as int,
        other.year as int,
        other.month as int,
        other.day as int,
    );
}

/// A time as it stands in a log: `[yyyy-mm-dd hh:mm:ss]`.
pub open spec fn stamp_of(t: LocalTimeFields) -> Seq<char> {
    seq!['['] + number_text::zero_padded(t.year as int, 4) + seq!['-'] + number_text::zero_padded(
        t.month as int,
        2,
    ) + seq!['-'] + number_text::zero_padded(t.day as int, 2) + seq![' ']
        + number_text::zero_padded(t.hour as int, 2) + seq![':'] + number_text::zero_padded(
        t.minute as int,
        2,
    ) + seq![':'] + number_text::zero_padded(t.second as int, 2) + seq![']']
}

/// A time as it stands in a log.
pub fn log_timestamp(t: &LocalTimeFields) -> (s: String)
    ensures
        s@ == stamp_of(*t),
{
    let mut s = String::new();
    s.push('[');
    s.append(padded_decimal(t.year as i64, 4).as_str());
    s.push('-');
    s.append(padded_decimal(t.month as i64, 2).as_str());
    s.push('-');
    s.append(padded_decimal(t.day as i64, 2).as_str());
    s.push(' ');
    s.append(padded_decimal(t.hour as i64, 2).as_str());
    s.push(':');
    s.append(padded_decimal(t.minute as i64, 2).as_str());
    s.push(':');
    s.append(padded_decimal(t.second as i64, 2).as_str());
    s.push(']');
    proof {
        assert(s@ =~= stamp_of(*t));
    }
    s
}

/// A time as it stands in a log, where there is one.
pub fn log_timestamp_of(t: Option<LocalTimeFields>) -> (s: Option<String>)
    ensures
        s is Some <==> t is Some,
        s matches Some(text) ==> text@ == stamp_of(t->0),
{
    match t {
        Some(fields) => Some(log_timestamp(&fields)),
        None => None,
    }
}

/// The present time as it stands in a log, where clocks are `utc_offset` seconds
/// ahead of UTC; nothing where it has no date.
pub fn local_log_timestamp(utc_offset: i32) -> (s: Option<String>)
    ensures
        exists|t: Option<LocalTimeFields>, since: Option<(u64, u32)>|
            #![trigger is_date_of(t, since, utc_offset as int)]
            is_date_of(t, since, utc_offset as int) && match (s, t) {
                (Some(text), Some(fields)) => text@ == stamp_of(fields),
                (None, None) => true,
                _ => false,
            },
{
    let t = local_time_fields(utc_offset);
    log_timestamp_of(t)
}

/// The days follow one another: behind the last day of a month comes the first of the next, and
/// behind the last day of a year the first of the next.
pub proof fn days_follow_one_another(year: int, month: int, day: int)
    requires
        1 <= month <= 12,
    ensures
        day_number(year, month, day + 1) == day_number(year, month, day) + 1,
        month < 12 ==> day_number(year, month + 1, 1) == day_number(
            year,
            month,
            days_in_month(year, month),
        ) + 1,
        day_number(year + 1, 1, 1) == day_number(year, 12, 31) + 1,
{
    reveal_with_fuel(days_before_month, 13);
}

/// A year has 365 days, and one more where it can be divided by four. Of the full hundreds only
/// those that can be divided by four hundred have that day, and it is the 29th of February.
pub proof fn every_fourth_year_has_a_day_more(year: int)
    ensures
        days_before_year(year + 1) - days_before_year(year) == 365 + if year % 400 == 0 {
            1int
        } else if year % 100 == 0 {
            0int
        } else if year % 4 == 0 {
            1int
        } else {
            0int
        },
        days_before_month(year, 13) == days_before_year(year + 1) - days_before_year(year),
        days_in_month(year, 2) == 28 + (days_before_year(year + 1) - days_before_year(year) - 365),
        days_before_year(year + 400) - days_before_year(year) == 146_097,
        days_before_month(year, 2) == 31,
        days_before_month(year, 13) - days_before_month(year, 3) == 306,
{
    reveal_with_fuel(days_before_month, 14);
}

/// A time of day is made of its hours, minutes and seconds.
proof fn lemma_time_of_day(rest: int)
    requires
        0 <= rest < 86_400,
    ensures
        rest == (rest / 3_600) * 3_600 + (rest / 60 % 60) * 60 + rest % 60,
{
    assert(rest / 3_600 == rest / 60 / 60);
}

proof fn lemma_next_second(a: int)
    ensures
        a % 86_400 < 86_399 ==> (a + 1) / 86_400 == a / 86_400 && (a + 1) % 86_400 == a % 86_400
            + 1,
        a % 86_400 == 86_399 ==> (a + 1) / 86_400 == a / 86_400 + 1 && (a + 1) % 86_400 == 0,
{
}

/// A second later the clock shows a second more, and behind the last second of a day the first
/// of the next day.
pub proof fn clocks_go_on_by_seconds(
    t: LocalTimeFields,
    next: LocalTimeFields,
    secs: int,
    nanos: int,
    utc_offset: int,
)
    requires
        shows(t, secs, nanos, utc_offset),
        shows(next, secs + 1, nanos, utc_offset),
    ensures
        ({
            let at = t.hour * 3_600 + t.minute * 60 + t.second;
            let then = next.hour * 3_600 + next.minute * 60 + next.second;
            &&& at < 86_399 ==> then == at + 1 && next.weekday_sunday0 == t.weekday_sunday0
            &&& at == 86_399 ==> then == 0
            &&& at == 86_399 ==> next.weekday_sunday0 == if t.weekday_sunday0 == 6 {
                0int
            } else {
                t.weekday_sunday0 + 1
            }
            &&& next.millisecond == t.millisecond
        }),
{
    let a: int = secs + utc_offset;
    let days: int = a / 86_400;
    lemma_next_second(a);
    lemma_time_of_day(a % 86_400);
    lemma_time_of_day((a + 1) % 86_400);
    assert(secs + 1 + utc_offset == a + 1);
    assert(t.hour * 3_600 + t.minute * 60 + t.second == a % 86_400);
    assert(next.hour * 3_600 + next.minute * 60 + next.second == (a + 1) % 86_400);
    assert((days + 1 + 4) % 7 == if (days + 4) % 7 == 6 {
        0
    } else {
        (days + 4) % 7 + 1
    });
}

/// The clock of the first second shows midnight of Thursday, the first of January 1970, and a
/// place that is ahead of it by an offset shows the time that comes there that much later.
pub proof fn the_first_second_was_a_thursday(t: LocalTimeFields, nanos: int, utc_offset: int)
    requires
        shows(t, -utc_offset, nanos, utc_offset),
    ensures
        t.year == 1970,
        t.month == 1,
        t.day == 1,
        t.weekday_sunday0 == 4,
        t.hour == 0,
        t.minute == 0,
        t.second == 0,
{
    dates_have_their_own_numbers(t.year as int, t.month as int, t.day as int, 1970, 1, 1);
}

} // verus!
