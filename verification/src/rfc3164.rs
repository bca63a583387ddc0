//! The header of the BSD format: a priority, a timestamp without a year,
//! and perhaps the names of the host and of the application.

use vstd::prelude::*;
use vstd::string::StrSliceExecFns;
use crate::error::{HeaderField, HeaderParseFailed, ParseError};
use crate::header::{outcome, Header, HeaderView};
use crate::pri::{pri_at, priority, SyslogFacility, SyslogSeverity};
use crate::text::{
    after, chars_of, number, range_text, range_within, read_number, run, run_end, slice, CharClass,
};
use crate::timestamp::{instant_of, Instant, Timestamp};

verus! {

/// A date without its year: the month, the day, the hour, the minute and the second.
pub type IncompleteDate = (u32, u32, u32, u32, u32);

/// The number of the month that three characters abbreviate.
pub open spec fn month_of(a: char, b: char, c: char) -> Option<u32> {
    if a == 'J' && b == 'a' && c == 'n' {
        Some(1)
    } else if a == 'F' && b == 'e' && c == 'b' {
        Some(2)
    } else if a == 'M' && b == 'a' && c == 'r' {
        Some(3)
    } else if a == 'A' && b == 'p' && c == 'r' {
        Some(4)
    } else if a == 'M' && b == 'a' && c == 'y' {
        Some(5)
    } else if a == 'J' && b == 'u' && c == 'n' {
        Some(6)
    } else if a == 'J' && b == 'u' && c == 'l' {
        Some(7)
    } else if a == 'A' && b == 'u' && c == 'g' {
        Some(8)
    } else if a == 'S' && b == 'e' && c == 'p' {
        Some(9)
    } else if a == 'O' && b == 'c' && c == 't' {
        Some(10)
    } else if a == 'N' && b == 'o' && c == 'v' {
        Some(11)
    } else if a == 'D' && b == 'e' && c == 'c' {
        Some(12)
    } else {
        None
    }
}

/// The number of the month that `s` abbreviates: `Jan` is 1 and `Dec` is 12.
pub open spec fn month_number(s: Seq<char>) -> Option<u32> {
    if s.len() == 3 {
        month_of(s[0], s[1], s[2])
    } else {
        None
    }
}

/// A time of day, `HH:MM:SS`: three numbers with colons between them.
pub open spec fn time_of_day(s: Seq<char>) -> Option<((u32, u32, u32), Seq<char>)> {
    match number(s) {
        Some((hour, s1)) => match after(s1, ':') {
            Some(s2) => match number(s2) {
                Some((minute, s3)) => match after(s3, ':') {
                    Some(s4) => match number(s4) {
                        Some((second, rest)) => Some(((hour, minute, second), rest)),
                        None => None,
                    },
                    None => None,
                },
                None => None,
            },
            None => None,
        },
        None => None,
    }
}

/// What follows a month: blanks, the day, blanks, and the time of day.
pub open spec fn day_and_time(s: Seq<char>) -> Option<((u32, u32, u32, u32), Seq<char>)> {
    let b1 = run(s, CharClass::Blank) as int;
    match number(s.skip(b1)) {
        Some((day, s1)) => {
            let b2 = run(s1, CharClass::Blank) as int;
            match time_of_day(s1.skip(b2)) {
                Some(((hour, minute, second), rest)) => if b1 > 0 && b2 > 0 {
                    Some(((day, hour, minute, second), rest))
                } else {
                    None
                },
                None => None,
            }
        },
        None => None,
    }
}

/// The timestamp of the BSD format, `Mon DD HH:MM:SS`, with one blank or
/// more where the spaces stand. `InvalidMonth` where the first three
/// characters are no month, `InvalidTimestamp` where the rest does not follow.
pub open spec fn legacy_timestamp(s: Seq<char>) -> Result<(IncompleteDate, Seq<char>), ParseError> {
    if s.len() < 3 {
        Err(ParseError::InvalidMonth)
    } else {
        match month_number(s.take(3)) {
            Some(month) => match day_and_time(s.skip(3)) {
                Some(((day, hour, minute, second), rest)) => Ok(
                    ((month, day, hour, minute, second), rest),
                ),
                None => Err(ParseError::InvalidTimestamp),
            },
            None => Err(ParseError::InvalidMonth),
        }
    }
}

/// The instant of an incomplete date in a year, in UTC; `None` where the
/// year has no such day or the day no such time.
pub open spec fn legacy_instant(date: IncompleteDate, year: i32) -> Option<Instant> {
    let at = Instant {
        year: year as int,
        month: date.0 as int,
        day: date.1 as int,
        hour: date.2 as int,
        minute: date.3 as int,
        second: date.4 as int,
        nanosecond: 0,
        offset: 0,
    };
    if at.is_valid() {
        Some(at)
    } else {
        None
    }
}

/// A name of the BSD format: one blank or more, and then one character or
/// more that are neither blanks nor colons.
pub open spec fn word(s: Seq<char>) -> Option<(Seq<char>, Seq<char>)> {
    let b = run(s, CharClass::Blank) as int;
    let w = run(s.skip(b), CharClass::Word) as int;
    if b > 0 && w > 0 {
        Some((s.subrange(b, b + w), s.skip(b + w)))
    } else {
        None
    }
}

/// A name that may be missing. Where there is none the text is left as it
/// is; the name `-` is read and stands for none.
pub open spec fn optional_word(s: Seq<char>) -> (Option<Seq<char>>, Seq<char>) {
    match word(s) {
        Some((w, rest)) => (
            if w == seq!['-'] {
                None
            } else {
                Some(w)
            },
            rest,
        ),
        None => (None, s),
    }
}

/// What is left once a colon, if there is one, and the blanks behind it are dropped.
pub open spec fn after_separator(s: Seq<char>) -> Seq<char> {
    let s1 = match after(s, ':') {
        Some(rest) => rest,
        None => s,
    };
    s1.skip(run(s1, CharClass::Blank) as int)
}

/// What the header of a line in the BSD format holds before a year is chosen.
pub struct LegacyFields {
    pub facility: SyslogFacility,
    pub severity: SyslogSeverity,
    pub date: IncompleteDate,
    /// The number of characters that precede the timestamp.
    pub date_position: int,
    pub hostname: Option<Seq<char>>,
    pub appname: Option<Seq<char>>,
    /// What follows the header.
    pub rest: Seq<char>,
}

/// The fields of a header in the BSD format: the priority, blanks if there
/// are any, the timestamp, then the host name and the application name as
/// far as they are there, a colon if there is one, and blanks.
pub open spec fn legacy_fields(s: Seq<char>) -> Result<LegacyFields, HeaderParseFailed> {
    match priority(s) {
        Some(((facility, severity), s1)) => {
            let s2 = s1.skip(run(s1, CharClass::Blank) as int);
            let date_position = s.len() - s2.len();
            match legacy_timestamp(s2) {
                Ok((date, s3)) => {
                    let (hostname, s4) = optional_word(s3);
                    let (appname, s5) = optional_word(s4);
                    Ok(
                        LegacyFields {
                            facility,
                            severity,
                            date,
                            date_position,
                            hostname,
                            appname,
                            rest: after_separator(s5),
                        },
                    )
                },
                Err(cause) => Err(
                    HeaderParseFailed {
                        field: HeaderField::Timestamp,
                        position: date_position as usize,
                        cause,
                    },
                ),
            }
        },
        None => Err(
            HeaderParseFailed {
                field: HeaderField::Priority,
                position: 0,
                cause: ParseError::MalformedPriority,
            },
        ),
    }
}

/// The header of a line in the BSD format whose timestamp is of `year`, and
/// what follows the header. The timestamp is in UTC; there is no version,
/// process or message identifier.
pub open spec fn legacy_header(s: Seq<char>, year: i32) -> Result<
    (Seq<char>, HeaderView),
    HeaderParseFailed,
> {
    match legacy_fields(s) {
        Ok(fields) => match legacy_instant(fields.date, year) {
            Some(at) => Ok(
                (
                    fields.rest,
                    HeaderView {
                        facility: Some(fields.facility),
                        severity: Some(fields.severity),
                        timestamp: Some(at),
                        hostname: fields.hostname,
                        version: None,
                        appname: fields.appname,
                        procid: None,
                        msgid: None,
                    },
                ),
            ),
            None => Err(
                HeaderParseFailed {
                    field: HeaderField::Timestamp,
                    position: fields.date_position as usize,
                    cause: ParseError::InvalidTimestamp,
                },
            ),
        },
        Err(e) => Err(e),
    }
}

/// The number of a month from its three-letter abbreviation.
pub fn parse_month(s: &str) -> (r: Result<u32, ParseError>)
    ensures
        r == match month_number(s@) {
            Some(month) => Ok::<u32, ParseError>(month),
            None => Err::<u32, ParseError>(ParseError::InvalidMonth),
        },
{
    let chars = chars_of(s);
    if chars.len() != 3 {
        return Err(ParseError::InvalidMonth);
    }
    match month_from(chars[0], chars[1], chars[2]) {
        Some(month) => Ok(month),
        None => Err(ParseError::InvalidMonth),
    }
}

fn month_from(a: char, b: char, c: char) -> (r: Option<u32>)
    ensures
        r == month_of(a, b, c),
{
    if a == 'J' && b == 'a' && c == 'n' {
        Some(1)
    } else if a == 'F' && b == 'e' && c == 'b' {
        Some(2)
    } else if a == 'M' && b == 'a' && c == 'r' {
        Some(3)
    } else if a == 'A' && b == 'p' && c == 'r' {
        Some(4)
    } else if a == 'M' && b == 'a' && c == 'y' {
        Some(5)
    } else if a == 'J' && b == 'u' && c == 'n' {
        Some(6)
    } else if a == 'J' && b == 'u' && c == 'l' {
        Some(7)
    } else if a == 'A' && b == 'u' && c == 'g' {
        Some(8)
    } else if a == 'S' && b == 'e' && c == 'p' {
        Some(9)
    } else if a == 'O' && b == 'c' && c == 't' {
        Some(10)
    } else if a == 'N' && b == 'o' && c == 'v' {
        Some(11)
    } else if a == 'D' && b == 'e' && c == 'c' {
        Some(12)
    } else {
        None
    }
}

/// Reads a time of day from `pos`.
fn read_time_of_day(chars: &Vec<char>, pos: usize) -> (r: Option<((u32, u32, u32), usize)>)
    requires
        pos <= chars.len(),
    ensures
        match time_of_day(chars@.skip(pos as int)) {
            Some((time, rest)) => r matches Some((t, end)) && t == time && pos < end <= chars.len()
                && rest == chars@.skip(end as int),
            None => r is None,
        },
{
    let (hour, hour_end) = match read_number(chars, pos) {
        Some(x) => x,
        None => {
            return None;
        },
    };
    if hour_end >= chars.len() || chars[hour_end] != ':' {
        return None;
    }
    proof {
        assert(chars@.skip(hour_end as int).skip(1) =~= chars@.skip(hour_end + 1));
    }
    let (minute, minute_end) = match read_number(chars, hour_end + 1) {
        Some(x) => x,
        None => {
            return None;
        },
    };
    if minute_end >= chars.len() || chars[minute_end] != ':' {
        return None;
    }
    proof {
        assert(chars@.skip(minute_end as int).skip(1) =~= chars@.skip(minute_end + 1));
    }
    match read_number(chars, minute_end + 1) {
        Some((second, end)) => Some(((hour, minute, second), end)),
        None => None,
    }
}

/// Reads the timestamp of the BSD format from `pos`.
fn read_legacy_timestamp(chars: &Vec<char>, pos: usize) -> (r: Result<
    (IncompleteDate, usize),
    ParseError,
>)
    requires
        pos <= chars.len(),
    ensures
        match legacy_timestamp(chars@.skip(pos as int)) {
            Ok((date, rest)) => r matches Ok((d, end)) && d == date && pos < end <= chars.len()
                && rest == chars@.skip(end as int),
            Err(e) => r == Err::<(IncompleteDate, usize), ParseError>(e),
        },
{
    let ghost s = chars@.skip(pos as int);
    if chars.len() - pos < 3 {
        return Err(ParseError::InvalidMonth);
    }
    let month = match month_from(chars[pos], chars[pos + 1], chars[pos + 2]) {
        Some(m) => m,
        None => {
            return Err(ParseError::InvalidMonth);
        },
    };
    let day_start = run_end(chars, pos + 3, CharClass::Blank);
    proof {
        assert(s.skip(3) =~= chars@.skip(pos + 3));
        assert(s.skip(3).skip(day_start - pos - 3) =~= chars@.skip(day_start as int));
    }
    let (day, day_end) = match read_number(chars, day_start) {
        Some(x) => x,
        None => {
            return Err(ParseError::InvalidTimestamp);
        },
    };
    let time_start = run_end(chars, day_end, CharClass::Blank);
    proof {
        assert(chars@.skip(day_end as int).skip(time_start - day_end) =~= chars@.skip(
            time_start as int,
        ));
    }
    match read_time_of_day(chars, time_start) {
        Some(((hour, minute, second), end)) => {
            if day_start == pos + 3 || time_start == day_end {
                return Err(ParseError::InvalidTimestamp);
            }
            Ok(((month, day, hour, minute, second), end))
        },
        None => Err(ParseError::InvalidTimestamp),
    }
}

/// Reads the timestamp of the BSD format, `Mon DD HH:MM:SS`, from the start
/// of `input`; gives what follows it, and the month, day, hour, minute and
/// second.
pub fn timestamp(input: &str) -> (r: Result<(&str, IncompleteDate), ParseError>)
    ensures
        match legacy_timestamp(input@) {
            Ok((date, rest)) => r matches Ok((left, d)) && left@ == rest && d == date,
            Err(e) => r matches Err(err) && err == e,
        },
{
    let chars = chars_of(input);
    proof {
        assert(chars@.skip(0) =~= input@);
    }
    match read_legacy_timestamp(&chars, 0) {
        Ok((date, end)) => {
            let left = input.substring_char(end, chars.len());
            proof {
                assert(input@.subrange(end as int, chars.len() as int) =~= input@.skip(end as int));
            }
            Ok((left, date))
        },
        Err(e) => Err(e),
    }
}

/// The timestamp of an incomplete date in `year`, in UTC; `None` where the
/// year has no such day or the day no such time.
pub fn timestamp_in_year(date: IncompleteDate, year: i32) -> (r: Option<Timestamp>)
    ensures
        instant_of(r) == legacy_instant(date, year),
{
    Timestamp::new(year, date.0, date.1, date.2, date.3, date.4, 0, 0)
}

/// The timestamp of an incomplete date in the year that `get_year` gives for it.
pub fn make_timestamp<F>(date: IncompleteDate, get_year: F) -> (r: Option<Timestamp>) where
    F: FnOnce(IncompleteDate) -> i32,

    requires
        call_requires(get_year, (date,)),
    ensures
        exists|year: i32| #[trigger]
            call_ensures(get_year, (date,), year) && instant_of(r) == legacy_instant(date, year),
{
    let year = get_year(date);
    timestamp_in_year(date, year)
}

/// Reads a name from `pos`; gives where the name starts and where it ends.
fn read_word(chars: &Vec<char>, pos: usize) -> (r: Option<(usize, usize)>)
    requires
        pos <= chars.len(),
    ensures
        match word(chars@.skip(pos as int)) {
            Some((w, rest)) => r matches Some((from, to)) && pos < from < to <= chars.len() && w
                == chars@.subrange(from as int, to as int) && rest == chars@.skip(to as int),
            None => r is None,
        },
{
    let ghost s = chars@.skip(pos as int);
    let from = run_end(chars, pos, CharClass::Blank);
    let to = run_end(chars, from, CharClass::Word);
    proof {
        assert(s.skip(from - pos) =~= chars@.skip(from as int));
        assert(s.subrange(from - pos, to - pos) =~= chars@.subrange(from as int, to as int));
        assert(s.skip(to - pos) =~= chars@.skip(to as int));
    }
    if from == pos || to == from {
        None
    } else {
        Some((from, to))
    }
}

/// Reads a name that may be missing from `pos`; gives the range of the name,
/// if there is one other than `-`, and where the text behind it starts.
fn read_optional_word(chars: &Vec<char>, pos: usize) -> (r: (Option<(usize, usize)>, usize))
    requires
        pos <= chars.len(),
    ensures
        range_text(chars@, r.0) == optional_word(chars@.skip(pos as int)).0,
        range_within(chars@.len(), r.0),
        chars@.skip(r.1 as int) == optional_word(chars@.skip(pos as int)).1,
        pos <= r.1 <= chars.len(),
{
    match read_word(chars, pos) {
        Some((from, to)) => {
            let ghost w = chars@.subrange(from as int, to as int);
            if to - from == 1 && chars[from] == '-' {
                proof {
                    assert(w =~= seq!['-']);
                }
                (None, to)
            } else {
                proof {
                    if w == seq!['-'] {
                        assert(w.len() == 1);
                        assert(w[0] == '-');
                    }
                }
                (Some((from, to)), to)
            }
        },
        None => (None, pos),
    }
}

/// Where the fields of a header stand in the line it was read from.
struct Fields {
    facility: SyslogFacility,
    severity: SyslogSeverity,
    date: IncompleteDate,
    date_position: usize,
    hostname: Option<(usize, usize)>,
    appname: Option<(usize, usize)>,
    rest: usize,
}

impl Fields {
    spec fn of(self, s: Seq<char>) -> LegacyFields {
        LegacyFields {
            facility: self.facility,
            severity: self.severity,
            date: self.date,
            date_position: self.date_position as int,
            hostname: range_text(s, self.hostname),
            appname: range_text(s, self.appname),
            rest: s.skip(self.rest as int),
        }
    }

    spec fn within(self, len: nat) -> bool {
        &&& range_within(len, self.hostname)
        &&& range_within(len, self.appname)
        &&& self.date_position <= len
        &&& self.rest <= len
    }
}

fn read_fields(chars: &Vec<char>) -> (r: Result<Fields, HeaderParseFailed>)
    ensures
        match legacy_fields(chars@) {
            Ok(fields) => r matches Ok(f) && f.of(chars@) == fields && f.within(chars@.len()),
            Err(e) => r matches Err(err) && err == e,
        },
{
    proof {
        assert(chars@.skip(0) =~= chars@);
    }
    let (pri_end, facility, severity) = match pri_at(chars, 0) {
        Ok(x) => x,
        Err(cause) => {
            return Err(HeaderParseFailed { field: HeaderField::Priority, position: 0, cause });
        },
    };
    let date_start = run_end(chars, pri_end, CharClass::Blank);
    proof {
        assert(chars@.skip(pri_end as int).skip(date_start - pri_end) =~= chars@.skip(
            date_start as int,
        ));
    }
    let (date, date_end) = match read_legacy_timestamp(chars, date_start) {
        Ok(x) => x,
        Err(cause) => {
            return Err(
                HeaderParseFailed { field: HeaderField::Timestamp, position: date_start, cause },
            );
        },
    };
    let (hostname, appname, rest) = read_names(chars, date_end);
    Ok(Fields { facility, severity, date, date_position: date_start, hostname, appname, rest })
}

/// Drops a colon, if there is one at `pos`, and the blanks behind it.
fn skip_separator(chars: &Vec<char>, pos: usize) -> (end: usize)
    requires
        pos <= chars.len(),
    ensures
        pos <= end <= chars.len(),
        chars@.skip(end as int) == after_separator(chars@.skip(pos as int)),
{
    let from = if pos < chars.len() && chars[pos] == ':' {
        pos + 1
    } else {
        pos
    };
    let end = run_end(chars, from, CharClass::Blank);
    proof {
        if pos < chars.len() {
            assert(chars@.skip(pos as int).skip(1) =~= chars@.skip(pos + 1));
        }
        assert(chars@.skip(from as int).skip(end - from) =~= chars@.skip(end as int));
    }
    end
}

/// Reads the names behind the timestamp, and the separator behind them.
fn read_names(chars: &Vec<char>, pos: usize) -> (r: (
    Option<(usize, usize)>,
    Option<(usize, usize)>,
    usize,
))
    requires
        pos <= chars.len(),
    ensures
        ({
            let s = chars@.skip(pos as int);
            let (hostname, s1) = optional_word(s);
            let (appname, s2) = optional_word(s1);
            &&& range_text(chars@, r.0) == hostname
            &&& range_text(chars@, r.1) == appname
            &&& chars@.skip(r.2 as int) == after_separator(s2)
        }),
        range_within(chars@.len(), r.0),
        range_within(chars@.len(), r.1),
        r.2 <= chars.len(),
{
    let (hostname, host_end) = read_optional_word(chars, pos);
    let (appname, app_end) = read_optional_word(chars, host_end);
    let rest = skip_separator(chars, app_end);
    (hostname, appname, rest)
}

fn finish<'a>(input: &'a str, fields: Fields, year: i32) -> (r: Result<
    (&'a str, Header<'a>),
    HeaderParseFailed,
>)
    requires
        legacy_fields(input@) == Ok::<LegacyFields, HeaderParseFailed>(fields.of(input@)),
        fields.within(input@.len()),
    ensures
        outcome(r) == legacy_header(input@, year),
{
    let timestamp = match timestamp_in_year(fields.date, year) {
        Some(t) => t,
        None => {
            return Err(
                HeaderParseFailed {
                    field: HeaderField::Timestamp,
                    position: fields.date_position,
                    cause: ParseError::InvalidTimestamp,
                },
            );
        },
    };
    let len = input.unicode_len();
    let left = input.substring_char(fields.rest, len);
    proof {
        assert(input@.subrange(fields.rest as int, len as int) =~= input@.skip(fields.rest as int));
    }
    Ok(
        (
            left,
            Header {
                facility: Some(fields.facility),
                severity: Some(fields.severity),
                timestamp: Some(timestamp),
                hostname: slice(input, fields.hostname),
                version: None,
                appname: slice(input, fields.appname),
                procid: None,
                msgid: None,
            },
        ),
    )
}

/// Reads the header of a line in the BSD format whose timestamp is of
/// `year`; gives what follows the header, and the header. Where the
/// priority or the timestamp cannot be read, or the year has no such day,
/// the failure names the field and the number of characters before it. The
/// names of the host and of the application are read as far as they are
/// there, and their absence is no failure.
pub fn header_in_year<'a>(input: &'a str, year: i32) -> (r: Result<
    (&'a str, Header<'a>),
    HeaderParseFailed,
>)
    ensures
        outcome(r) == legacy_header(input@, year),
{
    let chars = chars_of(input);
    match read_fields(&chars) {
        Ok(fields) => finish(input, fields, year),
        Err(e) => Err(e),
    }
}

/// Reads the header of a line in the BSD format, with the year of its
/// timestamp given by `get_year` from the month, day, hour, minute and
/// second. `get_year` is called once, and only where the priority and the
/// timestamp could be read.
pub fn header<'a, F>(input: &'a str, get_year: F) -> (r: Result<
    (&'a str, Header<'a>),
    HeaderParseFailed,
>) where F: FnOnce(IncompleteDate) -> i32
    requires
        forall|date: IncompleteDate| call_requires(get_year, (date,)),
    ensures
        match legacy_fields(input@) {
            Ok(fields) => exists|year: i32| #[trigger]
                call_ensures(get_year, (fields.date,), year) && outcome(r) == legacy_header(
                    input@,
                    year,
                ),
            Err(e) => outcome(r) == Err::<(Seq<char>, HeaderView), HeaderParseFailed>(e),
        },
{
    let chars = chars_of(input);
    match read_fields(&chars) {
        Ok(fields) => {
            let year = get_year(fields.date);
            finish(input, fields, year)
        },
        Err(e) => Err(e),
    }
}

} // verus!
