//! An instant with the offset from UTC that it is written with.

use chrono::{Datelike, TimeZone, Timelike};
use vstd::prelude::*;
use vstd::std_specs::cmp::PartialEqSpecImpl;
use crate::text::{all_in, CharClass};

verus! {

/// An instant, held as its calendar date and time of day in UTC, together
/// with the offset from UTC, in seconds east, that it is written with.
///
/// A leap second is held as second 59 with a nanosecond count of a thousand
/// million or more.
#[derive(Clone, Copy, Debug, Eq)]
pub struct Timestamp {
    year: i32,
    month: u32,
    day: u32,
    hour: u32,
    minute: u32,
    second: u32,
    nanosecond: u32,
    offset: i32,
}

/// Whether `year` has a 29th of February in the Gregorian calendar, extended
/// to the years before its introduction.
pub open spec fn is_leap_year(year: int) -> bool {
    year % 4 == 0 && (year % 100 != 0 || year % 400 == 0)
}

/// The number of days of a month.
pub open spec fn days_in_month(year: int, month: int) -> int {
    if month == 2 {
        if is_leap_year(year) {
            29
        } else {
            28
        }
    } else if month == 4 || month == 6 || month == 9 || month == 11 {
        30
    } else {
        31
    }
}

/// The calendar dates that a timestamp can hold: the days that exist, in the
/// years from -262143 to 262142.
pub open spec fn date_exists(year: int, month: int, day: int) -> bool {
    &&& -262143 <= year <= 262142
    &&& 1 <= month <= 12
    &&& 1 <= day <= days_in_month(year, month)
}

/// The times of day that a timestamp can hold.
pub open spec fn time_exists(hour: int, minute: int, second: int, nanosecond: int) -> bool {
    &&& 0 <= hour < 24
    &&& 0 <= minute < 60
    &&& 0 <= second < 60
    &&& 0 <= nanosecond < 2_000_000_000
    &&& nanosecond >= 1_000_000_000 ==> second == 59
}

/// What a timestamp holds: a date and a time of day in UTC, and the offset
/// from UTC, in seconds east, that it is written with.
pub struct Instant {
    pub year: int,
    pub month: int,
    pub day: int,
    pub hour: int,
    pub minute: int,
    pub second: int,
    pub nanosecond: int,
    pub offset: int,
}

impl Instant {
    /// The instants that a timestamp can hold.
    pub open spec fn is_valid(self) -> bool {
        &&& date_exists(self.year, self.month, self.day)
        &&& time_exists(self.hour, self.minute, self.second, self.nanosecond)
        &&& -86_400 < self.offset < 86_400
    }

    /// Two values are the same instant when their dates and times in UTC
    /// agree, whatever offset each is written with.
    pub open spec fn same_instant(self, other: Instant) -> bool {
        self == (Instant { offset: self.offset, ..other })
    }
}

/// The text that writes an instant in the Internet date and time format,
/// such as `2019-10-11T22:14:15+00:00`.
pub uninterp spec fn rfc3339_text(at: Instant) -> Seq<char>;

/// The instant that a text in the Internet date and time format writes, if
/// it writes one.
pub uninterp spec fn rfc3339_parsed(text: Seq<char>) -> Option<Instant>;

impl View for Timestamp {
    type V = Instant;

    closed spec fn view(&self) -> Instant {
        Instant {
            year: self.year as int,
            month: self.month as int,
            day: self.day as int,
            hour: self.hour as int,
            minute: self.minute as int,
            second: self.second as int,
            nanosecond: self.nanosecond as int,
            offset: self.offset as int,
        }
    }
}

/// The view of an optional timestamp.
pub open spec fn instant_of(ts: Option<Timestamp>) -> Option<Instant> {
    match ts {
        Some(t) => Some(t@),
        None => None,
    }
}

impl Timestamp {
    #[verifier::type_invariant]
    spec fn inv(self) -> bool {
        self@.is_valid()
    }

    /// The timestamp of a date and time of day in UTC, written with `offset`
    /// seconds east of UTC; `None` where the date or the time does not exist
    /// or the offset is a day or more.
    pub fn new(
        year: i32,
        month: u32,
        day: u32,
        hour: u32,
        minute: u32,
        second: u32,
        nanosecond: u32,
        offset: i32,
    ) -> (r: Option<Timestamp>)
        ensures
            r is Some <==> (Instant {
                year: year as int,
                month: month as int,
                day: day as int,
                hour: hour as int,
                minute: minute as int,
                second: second as int,
                nanosecond: nanosecond as int,
                offset: offset as int,
            }).is_valid(),
            r matches Some(ts) ==> ts@ == (Instant {
                year: year as int,
                month: month as int,
                day: day as int,
                hour: hour as int,
                minute: minute as int,
                second: second as int,
                nanosecond: nanosecond as int,
                offset: offset as int,
            }),
    {
        if !calendar_has(year, month, day) {
            return None;
        }
        if hour >= 24 || minute >= 60 || second >= 60 || nanosecond >= 2_000_000_000 {
            return None;
        }
        if nanosecond >= 1_000_000_000 && second != 59 {
            return None;
        }
        if offset <= -86_400 || offset >= 86_400 {
            return None;
        }
        Some(Timestamp { year, month, day, hour, minute, second, nanosecond, offset })
    }

    pub fn year(&self) -> (r: i32)
        ensures
            r == self@.year,
    {
        self.year
    }

    pub fn month(&self) -> (r: u32)
        ensures
            r == self@.month,
    {
        self.month
    }

    pub fn day(&self) -> (r: u32)
        ensures
            r == self@.day,
    {
        self.day
    }

    pub fn hour(&self) -> (r: u32)
        ensures
            r == self@.hour,
    {
        self.hour
    }

    pub fn minute(&self) -> (r: u32)
        ensures
            r == self@.minute,
    {
        self.minute
    }

    pub fn second(&self) -> (r: u32)
        ensures
            r == self@.second,
    {
        self.second
    }

    pub fn nanosecond(&self) -> (r: u32)
        ensures
            r == self@.nanosecond,
    {
        self.nanosecond
    }

    pub fn offset(&self) -> (r: i32)
        ensures
            r == self@.offset,
    {
        self.offset
    }

    /// The timestamp in the Internet date and time format: a text of more
    /// than one character, none of them a space.
    pub fn to_rfc3339(&self) -> (text: String)
        ensures
            text@ == rfc3339_text(self@),
            text@.len() > 1,
            all_in(text@, CharClass::Field),
    {
        proof {
            use_type_invariant(self);
        }
        format_rfc3339(self)
    }

    /// Reads a timestamp in the Internet date and time format;
    /// `None` where `text` is not one.
    pub fn parse_from_rfc3339(text: &str) -> (r: Option<Timestamp>)
        ensures
            instant_of(r) == rfc3339_parsed(text@),
    {
        parse_rfc3339(text)
    }

    /// The time at which it is called, written as UTC.
    pub fn now() -> (r: Timestamp)
        ensures
            r@.is_valid(),
    {
        current_time()
    }
}

impl PartialEq for Timestamp {
    fn eq(&self, other: &Self) -> (r: bool) {
        self.year == other.year && self.month == other.month && self.day == other.day && self.hour
            == other.hour && self.minute == other.minute && self.second == other.second
            && self.nanosecond == other.nanosecond
    }
}

impl PartialEqSpecImpl for Timestamp {
    open spec fn obeys_eq_spec() -> bool {
        true
    }

    open spec fn eq_spec(&self, other: &Self) -> bool {
        self@.same_instant(other@)
    }
}

/// `chrono::NaiveDate::from_ymd_opt`: whether chrono has the calendar date.
/// It has the days that exist in the Gregorian calendar, February 29 in leap
/// years only, for the years from -262143 to 262142.
#[verifier::external_body]
fn calendar_has(year: i32, month: u32, day: u32) -> (r: bool)
    ensures
        r == date_exists(year as int, month as int, day as int),
{
    chrono::NaiveDate::from_ymd_opt(year, month, day).is_some()
}

/// `chrono::DateTime::to_rfc3339`, on the instant and the offset that `ts`
/// holds. The text is a function of these alone. It is made of digits, `-`,
/// `:`, `T`, `.` and `+`, and holds at least a date, a time and an offset.
#[verifier::external_body]
fn format_rfc3339(ts: &Timestamp) -> (text: String)
    requires
        ts@.is_valid(),
    ensures
        text@ == rfc3339_text(ts@),
        text@.len() > 1,
        all_in(text@, CharClass::Field),
{
    let date = chrono::NaiveDate::from_ymd_opt(ts.year, ts.month, ts.day).unwrap();
    let utc = date.and_hms_nano_opt(ts.hour, ts.minute, ts.second, ts.nanosecond).unwrap();
    let zone = chrono::FixedOffset::east_opt(ts.offset).unwrap();
    zone.from_utc_datetime(&utc).to_rfc3339()
}

/// `chrono::DateTime::parse_from_rfc3339`: the instant and the offset that
/// `text` writes, or `None` where chrono rejects it. The outcome is a function
/// of the text alone. What chrono accepts is a date and a time that exist,
/// with an offset of less than a day.
#[verifier::external_body]
fn parse_rfc3339(text: &str) -> (r: Option<Timestamp>)
    ensures
        instant_of(r) == rfc3339_parsed(text@),
        r matches Some(at) ==> at@.is_valid(),
{
    let at = chrono::DateTime::parse_from_rfc3339(text).ok()?;
    let utc = at.naive_utc();
    let offset = at.offset().local_minus_utc();
    let (year, month, day) = (utc.year(), utc.month(), utc.day());
    let (hour, minute, second) = (utc.hour(), utc.minute(), utc.second());
    let nanosecond = utc.nanosecond();
    Some(Timestamp { year, month, day, hour, minute, second, nanosecond, offset })
}

/// `chrono::Utc::now`: the time of the call, of which no more is known
/// beforehand than that it is a date and a time that exist.
#[verifier::external_body]
fn current_time() -> (r: Timestamp)
    ensures
        r@.is_valid(),
{
    let utc = chrono::Utc::now().naive_utc();
    let (year, month, day) = (utc.year(), utc.month(), utc.day());
    let (hour, minute, second) = (utc.hour(), utc.minute(), utc.second());
    let nanosecond = utc.nanosecond();
    Timestamp { year, month, day, hour, minute, second, nanosecond, offset: 0 }
}

} // verus!
