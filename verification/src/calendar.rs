//! Dates, times of day & time zones.

use chrono::TimeZone;
use vstd::prelude::*;

verus! {

/// A date in the proleptic Gregorian calendar & a time of day.
#[derive(Clone, Copy, Debug, PartialEq, Eq, Structural)]
pub struct Moment {
    pub year: i32,
    pub month: u32,
    pub day: u32,
    pub hour: u32,
    pub minute: u32,
    pub second: u32,
}

/// Whether a year is a leap year.
pub open spec fn is_leap(year: int) -> bool {
    year % 4 == 0 && (year % 100 != 0 || year % 400 == 0)
}

/// The number of days in a month.
pub open spec fn days_in_month(year: int, month: int) -> int {
    if month == 2 {
        if is_leap(year) {
            29
        } else {
            28
        }
    } else if month == 4 || month == 6 || month == 9 || month == 11 {
        30
    } else {
        31
    }
}

/// The number of days before a year, counted from the start of the year one.
pub open spec fn days_before_year(year: int) -> int {
    let n = year - 1;
    365 * n + n / 4 - n / 100 + n / 400
}

/// The number of days in a year before a month.
pub open spec fn days_before_month(year: int, month: int) -> int
    decreases month,
{
    if month <= 1 {
        0
    } else {
        days_before_month(year, month - 1) + days_in_month(year, month - 1)
    }
}

/// Whether there is such a date & time of day.
pub open spec fn is_valid(m: Moment) -> bool {
    &&& 1 <= m.month <= 12
    &&& 1 <= m.day <= days_in_month(m.year as int, m.month as int)
    &&& m.hour < 24
    &&& m.minute < 60
    &&& m.second < 60
}

/// The number of days from the first of January, 1970.
pub open spec fn epoch_day(m: Moment) -> int {
    days_before_year(m.year as int) + days_before_month(m.year as int, m.month as int) + m.day - 1
        - days_before_year(1970)
}

/// The number of seconds from midnight of the first of January, 1970.
pub open spec fn epoch_seconds(m: Moment) -> int {
    epoch_day(m) * 86400 + m.hour * 3600 + m.minute * 60 + m.second
}

/// Whether a number of seconds can be the offset of a time zone: less than a day either way.
pub open spec fn is_offset(seconds: int) -> bool {
    -86400 < seconds < 86400
}

/// The timestamp of a moment that is `ahead` seconds ahead of UTC.
pub open spec fn timestamp_spec(m: Moment, ahead: int) -> Option<i64> {
    if is_valid(m) && is_offset(ahead) {
        Some((epoch_seconds(m) - ahead) as i64)
    } else {
        None
    }
}

/// `chrono::Utc.with_ymd_and_hms`, with `single` & `timestamp` on what comes back: the number of
/// seconds from the Unix epoch to the moment, taken to be in UTC, and nothing where there is no such
/// moment.
#[verifier::external_body]
pub(crate) fn utc_timestamp(m: Moment) -> (r: Option<i64>)
    requires
        -9999 <= m.year <= 9999,
    ensures
        r == timestamp_spec(m, 0),
{
    let t = chrono::Utc.with_ymd_and_hms(m.year, m.month, m.day, m.hour, m.minute, m.second);
    Some(t.single()?.timestamp())
}

/// `chrono::FixedOffset::west_opt`, with `with_ymd_and_hms`, `single` & `timestamp` on what comes
/// back: the number of seconds from the Unix epoch to the moment, taken to be in a time zone that is
/// `seconds` behind UTC, and nothing where there is no such moment or no such time zone.
#[verifier::external_body]
pub(crate) fn west_timestamp(m: Moment, seconds: i32) -> (r: Option<i64>)
    requires
        -9999 <= m.year <= 9999,
    ensures
        r == timestamp_spec(m, -seconds),
{
    let zone = chrono::FixedOffset::west_opt(seconds)?;
    let t = zone.with_ymd_and_hms(m.year, m.month, m.day, m.hour, m.minute, m.second);
    Some(t.single()?.timestamp())
}

/// `chrono::FixedOffset::east_opt`, with `with_ymd_and_hms`, `single` & `timestamp` on what comes
/// back: the number of seconds from the Unix epoch to the moment, taken to be in a time zone that is
/// `seconds` ahead of UTC, and nothing where there is no such moment or no such time zone.
#[verifier::external_body]
pub(crate) fn east_timestamp(m: Moment, seconds: i32) -> (r: Option<i64>)
    requires
        -9999 <= m.year <= 9999,
    ensures
        r == timestamp_spec(m, seconds as int),
{
    let zone = chrono::FixedOffset::east_opt(seconds)?;
    let t = zone.with_ymd_and_hms(m.year, m.month, m.day, m.hour, m.minute, m.second);
    Some(t.single()?.timestamp())
}

/// What can be said of the timestamp of a moment in the machine's own time zone: there is none where
/// there is no such moment, and it is less than a day from what it would be in UTC.
pub open spec fn is_local(m: Moment, t: Option<i64>) -> bool {
    match t {
        Some(t) => is_valid(m) && is_offset(epoch_seconds(m) - t),
        None => true,
    }
}

/// `chrono::Local.with_ymd_and_hms`, with `single` & `timestamp` on what comes back: the number of
/// seconds from the Unix epoch to the moment, taken to be in the machine's time zone. Which time zone
/// that is, and hence whether the moment exists there & is unique, depends on the machine; what is
/// claimed is that there is no answer for a moment that does not exist anywhere, and that an answer is
/// less than a day from what it would be in UTC.
#[verifier::external_body]
pub(crate) fn local_timestamp(m: Moment) -> (r: Option<i64>)
    requires
        -9999 <= m.year <= 9999,
    ensures
        is_local(m, r),
{
    let t = chrono::Local.with_ymd_and_hms(m.year, m.month, m.day, m.hour, m.minute, m.second);
    Some(t.single()?.timestamp())
}

// ---------------------------------------------------------------------------------------------
// Laws
// ---------------------------------------------------------------------------------------------

/// The days of a year before its last month.
proof fn lemma_before_december(year: int)
    ensures
        days_before_month(year, 12) == (if is_leap(year) {
            335int
        } else {
            334
        }),
{
    reveal_with_fuel(days_before_month, 12);
}

/// Days are counted one by one: the day after one, be it in the same month, the first of the next month or
/// the first of the next year, is one more. The first of January, 1970, is day zero, & four centuries have
/// as many days as any others.
pub proof fn law_days(m: Moment, next: Moment)
    requires
        is_valid(m),
        is_valid(next),
        -9999 <= m.year <= 9999,
        ({
            ||| next.year == m.year && next.month == m.month && next.day == m.day + 1
            ||| next.year == m.year && next.month == m.month + 1 && next.day == 1 && m.day
                == days_in_month(m.year as int, m.month as int)
            ||| next.year == m.year + 1 && next.month == 1 && next.day == 1 && m.month == 12 && m.day
                == 31
        }),
    ensures
        epoch_day(next) == epoch_day(m) + 1,
        epoch_day(Moment { year: 1970, month: 1, day: 1, ..m }) == 0,
        epoch_day(Moment { year: (m.year + 400) as i32, ..m }) == epoch_day(m) + 146097,
{
    let year = m.year as int;
    assert(epoch_day(next) == epoch_day(m) + 1) by {
        if next.year == m.year + 1 {
            lemma_before_december(year);
            law_years(year);
            assert(days_before_month(year + 1, 1) == 0);
        } else if next.month == m.month + 1 {
            assert(days_before_month(year, next.month as int) == days_before_month(
                year,
                m.month as int,
            ) + days_in_month(year, m.month as int));
        }
    }
    assert(epoch_day(Moment { year: 1970, month: 1, day: 1, ..m }) == 0) by {
        assert(days_before_month(1970, 1) == 0);
    }
    lemma_cycle(year, m.month as int);
    lemma_centuries(year);
}

proof fn lemma_centuries(year: int)
    ensures
        days_before_year(year + 400) == days_before_year(year) + 146097,
{
    let n = year - 1;
    assert((n + 400) / 4 == n / 4 + 100);
    assert((n + 400) / 100 == n / 100 + 4);
    assert((n + 400) / 400 == n / 400 + 1);
}

proof fn lemma_cycle(year: int, month: int)
    ensures
        days_before_month(year + 400, month) == days_before_month(year, month),
    decreases month,
{
    if month > 1 {
        lemma_cycle(year, month - 1);
    }
}

/// A year has three hundred & sixty five days, & one more if it is a leap year, which those are that four
/// divides, except for those that a hundred does & four hundred does not.
pub proof fn law_years(year: int)
    ensures
        days_before_year(year + 1) - days_before_year(year) == (if year % 400 == 0 {
            366int
        } else if year % 100 == 0 {
            365
        } else if year % 4 == 0 {
            366
        } else {
            365
        }),
        days_in_month(year, 1) + days_in_month(year, 2) + days_in_month(year, 3) + days_in_month(
            year,
            4,
        ) + days_in_month(year, 5) + days_in_month(year, 6) + days_in_month(year, 7)
            + days_in_month(year, 8) + days_in_month(year, 9) + days_in_month(year, 10)
            + days_in_month(year, 11) + days_in_month(year, 12) == days_before_year(year + 1)
            - days_before_year(year),
        forall|month: int|
            month == 4 || month == 6 || month == 9 || month == 11 ==> #[trigger] days_in_month(
                year,
                month,
            ) == 30,
        forall|month: int|
            month == 1 || month == 3 || month == 5 || month == 7 || month == 8 || month == 10 || month
                == 12 ==> #[trigger] days_in_month(year, month) == 31,
{
}

/// Within a day, an hour is sixty minutes, & a minute sixty seconds; & a clock that is ahead of UTC shows a
/// time that is so much earlier in fact.
pub proof fn law_clock(m: Moment, ahead: int)
    requires
        is_valid(m),
        -9999 <= m.year <= 9999,
        -86400 < ahead < 86400,
    ensures
        ({
            let midnight = Moment { hour: 0, minute: 0, second: 0, ..m };
            &&& epoch_seconds(midnight) == epoch_day(m) * (24 * 60 * 60)
            &&& epoch_seconds(m) - epoch_seconds(midnight) == (m.hour * 60 + m.minute) * 60 + m.second
            &&& timestamp_spec(m, 0) == Some(epoch_seconds(m) as i64)
            &&& timestamp_spec(m, ahead) is Some
            &&& timestamp_spec(m, ahead)->0 + ahead == epoch_seconds(m)
        }),
{
    lemma_month_bound(m.year as int, m.month as int);
}

proof fn lemma_month_bound(year: int, month: int)
    requires
        month <= 12,
    ensures
        0 <= days_before_month(year, month) <= 31 * 12,
        month >= 1 ==> days_before_month(year, month) <= 31 * (month - 1),
    decreases month,
{
    if month > 1 {
        lemma_month_bound(year, month - 1);
    }
}

/// There is no timestamp for a date or a time of day that does not exist.
pub proof fn law_no_such_moment(m: Moment, ahead: int)
    ensures
        timestamp_spec(m, ahead) is Some ==> {
            &&& 1 <= m.month <= 12
            &&& 1 <= m.day <= 31
            &&& m.month == 2 ==> m.day <= 29
            &&& m.month == 2 && m.day == 29 ==> m.year % 4 == 0
            &&& m.hour <= 23
            &&& m.minute <= 59
            &&& m.second <= 59
        },
{
}

} // verus!
