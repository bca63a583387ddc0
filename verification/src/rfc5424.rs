//! The structured format: a header whose fields each have their place, then
//! structured data and the text of the message.

use vstd::prelude::*;
use vstd::string::StrSliceExecFns;
use crate::error::{HeaderField, HeaderParseFailed, ParseError};
use crate::header::{outcome, Header, HeaderView};
use crate::message::{
    data_text, field_text, head_text, line, message_of, names_text, own, Message, MessageView,
    Protocol,
};
use crate::pri::{
    lemma_priority_text, pri_at, pri_text, priority, SyslogFacility, SyslogSeverity,
};
use crate::structured_data::{
    element_text, elements_text, elements_view, lemma_element_text, lemma_elements_text,
    read_structured_data, structured_data, ElementView, StructuredElement,
};
use crate::text::{
    after, all_in, chars_of, copy_range, decimal_text, lemma_number_text, lemma_run_before, number,
    range_text, range_within, read_number, run, run_end, same_text, slice, CharClass,
};
use crate::timestamp::{instant_of, rfc3339_parsed, Instant, Timestamp};

verus! {

/// A field of the header: one character or more, as many as there are, that
/// are no spaces.
pub open spec fn field(s: Seq<char>) -> Option<(Seq<char>, Seq<char>)> {
    let n = run(s, CharClass::Field) as int;
    if n > 0 {
        Some((s.take(n), s.skip(n)))
    } else {
        None
    }
}

/// A field behind the one space that separates it from what stands before it.
pub open spec fn separated(s: Seq<char>) -> Option<(Seq<char>, Seq<char>)> {
    match after(s, ' ') {
        Some(s1) => field(s1),
        None => None,
    }
}

/// The number of characters of `total` that precede the field that `s`, the
/// end of `total`, starts with behind its separating space.
pub open spec fn position_behind(total: Seq<char>, s: Seq<char>) -> usize {
    if s.len() > 0 && s[0] == ' ' {
        (total.len() - s.len() + 1) as usize
    } else {
        (total.len() - s.len()) as usize
    }
}

/// What a field holds: nothing where it is written as `-`.
pub open spec fn optional(text: Seq<char>) -> Option<Seq<char>> {
    if text == seq!['-'] {
        None
    } else {
        Some(text)
    }
}

/// The failure of a field.
pub open spec fn failed(
    field: HeaderField,
    position: usize,
    cause: ParseError,
) -> HeaderParseFailed {
    HeaderParseFailed { field, position, cause }
}

/// The start of a structured header: the priority, the version, and the
/// timestamp as it is written.
pub struct Prefix {
    pub facility: SyslogFacility,
    pub severity: SyslogSeverity,
    pub version: u32,
    pub stamp: Seq<char>,
    /// The number of characters that precede the timestamp.
    pub stamp_position: usize,
    /// What follows the timestamp.
    pub rest: Seq<char>,
}

/// The start of a structured header: the priority, the version right behind
/// it, and behind a space the timestamp.
pub open spec fn structured_prefix(s: Seq<char>) -> Result<Prefix, HeaderParseFailed> {
    match priority(s) {
        Some(((facility, severity), s1)) => match number(s1) {
            Some((version, s2)) => match separated(s2) {
                Some((stamp, rest)) => Ok(
                    Prefix {
                        facility,
                        severity,
                        version,
                        stamp,
                        stamp_position: position_behind(s, s2),
                        rest,
                    },
                ),
                None => Err(
                    failed(
                        HeaderField::Timestamp,
                        position_behind(s, s2),
                        ParseError::MissingField,
                    ),
                ),
            },
            None => Err(
                failed(
                    HeaderField::Version,
                    (s.len() - s1.len()) as usize,
                    ParseError::MissingField,
                ),
            ),
        },
        None => Err(failed(HeaderField::Priority, 0, ParseError::MalformedPriority)),
    }
}

/// The timestamp of a line as it is written, where the line has one.
pub open spec fn stamp_token(s: Seq<char>) -> Option<Seq<char>> {
    match structured_prefix(s) {
        Ok(prefix) => optional(prefix.stamp),
        Err(_) => None,
    }
}

/// The timestamp of the structured format: `-` for none, or else a text
/// that writes an instant. `parsed` is the instant that the text writes, if
/// it writes one.
pub open spec fn structured_timestamp(text: Seq<char>, parsed: Option<Instant>) -> Result<
    Option<Instant>,
    ParseError,
> {
    if text == seq!['-'] {
        Ok(None)
    } else {
        match parsed {
            Some(at) => Ok(Some(at)),
            None => Err(ParseError::InvalidTimestamp),
        }
    }
}

/// The names of a structured header.
pub struct Names {
    pub hostname: Option<Seq<char>>,
    pub appname: Option<Seq<char>>,
    pub procid: Option<Seq<char>>,
    pub msgid: Option<Seq<char>>,
}

/// The names of a structured header, each behind one space: those of the
/// host, the application, the process and the kind of message. `total` is
/// the line and `s` its end behind the timestamp.
pub open spec fn structured_names(total: Seq<char>, s: Seq<char>) -> Result<
    (Names, Seq<char>),
    HeaderParseFailed,
> {
    match separated(s) {
        Some((hostname, s1)) => match separated(s1) {
            Some((appname, s2)) => match separated(s2) {
                Some((procid, s3)) => match separated(s3) {
                    Some((msgid, rest)) => Ok(
                        (
                            Names {
                                hostname: optional(hostname),
                                appname: optional(appname),
                                procid: optional(procid),
                                msgid: optional(msgid),
                            },
                            rest,
                        ),
                    ),
                    None => Err(
                        failed(
                            HeaderField::MsgId,
                            position_behind(total, s3),
                            ParseError::MissingField,
                        ),
                    ),
                },
                None => Err(
                    failed(
                        HeaderField::ProcId,
                        position_behind(total, s2),
                        ParseError::MissingField,
                    ),
                ),
            },
            None => Err(
                failed(HeaderField::AppName, position_behind(total, s1), ParseError::MissingField),
            ),
        },
        None => Err(
            failed(HeaderField::Hostname, position_behind(total, s), ParseError::MissingField),
        ),
    }
}

/// The header of a line in the structured format, and what follows it.
/// `parsed` is the instant that the timestamp of the line writes, if it
/// writes one; a timestamp written as `-` is none, and so is each name that
/// is written as `-`.
pub open spec fn structured_header(s: Seq<char>, parsed: Option<Instant>) -> Result<
    (Seq<char>, HeaderView),
    HeaderParseFailed,
> {
    match structured_prefix(s) {
        Ok(prefix) => match structured_timestamp(prefix.stamp, parsed) {
            Ok(timestamp) => match structured_names(s, prefix.rest) {
                Ok((names, rest)) => Ok(
                    (
                        rest,
                        HeaderView {
                            facility: Some(prefix.facility),
                            severity: Some(prefix.severity),
                            timestamp,
                            hostname: names.hostname,
                            version: Some(prefix.version),
                            appname: names.appname,
                            procid: names.procid,
                            msgid: names.msgid,
                        },
                    ),
                ),
                Err(e) => Err(e),
            },
            Err(cause) => Err(failed(HeaderField::Timestamp, prefix.stamp_position, cause)),
        },
        Err(e) => Err(e),
    }
}

/// What follows the header of a line: behind a space the structured data,
/// and then either nothing or a space and the text of the message.
pub open spec fn data_and_text(total: Seq<char>, s: Seq<char>) -> Result<
    (Seq<ElementView>, Seq<char>),
    HeaderParseFailed,
> {
    let failure = failed(
        HeaderField::StructuredData,
        position_behind(total, s),
        ParseError::MalformedStructuredData,
    );
    match after(s, ' ') {
        Some(s1) => match structured_data(s1) {
            Some((data, s2)) => if s2.len() == 0 {
                Ok((data, s2))
            } else {
                match after(s2, ' ') {
                    Some(msg) => Ok((data, msg)),
                    None => Err(failure),
                }
            },
            None => Err(failure),
        },
        None => Err(failure),
    }
}

/// The message that a line in the structured format writes.
pub open spec fn structured_message(s: Seq<char>, parsed: Option<Instant>) -> Result<
    MessageView,
    HeaderParseFailed,
> {
    match structured_header(s, parsed) {
        Ok((s1, header)) => match data_and_text(s, s1) {
            Ok((data, msg)) => Ok(message_of(header, data, msg)),
            Err(e) => Err(e),
        },
        Err(e) => Err(e),
    }
}

/// The instant that the timestamp of a line writes, if the line has a
/// timestamp and it writes one.
pub open spec fn stamp_parsed(s: Seq<char>) -> Option<Instant> {
    match stamp_token(s) {
        Some(stamp) => rfc3339_parsed(stamp),
        None => None,
    }
}

/// A text that can stand for itself in a field of the header: one character
/// or more, none of them a space, and not `-` alone.
pub open spec fn is_field(text: Seq<char>) -> bool {
    text.len() > 0 && all_in(text, CharClass::Field) && text != seq!['-']
}

/// A field that can be written and read back: none, or one that can stand for itself.
pub open spec fn is_writable(field: Option<Seq<char>>) -> bool {
    match field {
        Some(text) => is_field(text),
        None => true,
    }
}

/// The messages that a line in the structured format holds as they are:
/// of that format, with names that can stand in their fields, and with
/// elements whose identifiers and parameter names are names.
pub open spec fn is_structured(m: MessageView) -> bool {
    &&& m.protocol is RFC5424
    &&& is_writable(m.hostname)
    &&& is_writable(m.appname)
    &&& is_writable(m.procid)
    &&& is_writable(m.msgid)
    &&& forall|i: int|
        0 <= i < m.structured_data.len() ==> (#[trigger] m.structured_data[i]).is_valid()
}

/// A message as it comes back from its line: with the facility and the
/// severity that were written for it, and with `parsed` for its timestamp.
pub open spec fn as_read(m: MessageView, parsed: Option<Instant>) -> MessageView {
    MessageView {
        facility: Some(m.written_facility()),
        severity: Some(m.written_severity()),
        timestamp: parsed,
        ..m
    }
}

/// A written field is read back from behind its space, where the end of the
/// line or a space follows it.
pub proof fn lemma_separated_text(text: Seq<char>, tail: Seq<char>)
    requires
        text.len() > 0,
        all_in(text, CharClass::Field),
        tail.len() > 0 ==> tail[0] == ' ',
    ensures
        separated(seq![' '] + text + tail) == Some((text, tail)),
{
    let s = seq![' '] + text + tail;
    assert(s.skip(1) =~= text + tail);
    lemma_run_before(text, tail, CharClass::Field);
    assert((text + tail).take(text.len() as int) =~= text);
    assert((text + tail).skip(text.len() as int) =~= tail);
}

/// A field as it is written is made of one character or more, none of them
/// a space, and holds what it was written for.
pub proof fn lemma_field_text(field: Option<Seq<char>>)
    requires
        is_writable(field),
    ensures
        field_text(field).len() > 0,
        all_in(field_text(field), CharClass::Field),
        optional(field_text(field)) == field,
{
}

/// Written names are read back from behind the timestamp.
pub proof fn lemma_names_text(total: Seq<char>, m: MessageView, tail: Seq<char>)
    requires
        is_writable(m.hostname),
        is_writable(m.appname),
        is_writable(m.procid),
        is_writable(m.msgid),
    ensures
        structured_names(total, seq![' '] + names_text(m) + tail) == Ok::<
            (Names, Seq<char>),
            HeaderParseFailed,
        >(
            (
                Names {
                    hostname: m.hostname,
                    appname: m.appname,
                    procid: m.procid,
                    msgid: m.msgid,
                },
                seq![' '] + tail,
            ),
        ),
{
    let t4 = seq![' '] + tail;
    let t3 = seq![' '] + field_text(m.msgid) + t4;
    let t2 = seq![' '] + field_text(m.procid) + t3;
    let t1 = seq![' '] + field_text(m.appname) + t2;
    let t0 = seq![' '] + field_text(m.hostname) + t1;
    assert(seq![' '] + names_text(m) + tail =~= t0);
    lemma_field_text(m.hostname);
    lemma_field_text(m.appname);
    lemma_field_text(m.procid);
    lemma_field_text(m.msgid);
    lemma_separated_text(field_text(m.hostname), t1);
    lemma_separated_text(field_text(m.appname), t2);
    lemma_separated_text(field_text(m.procid), t3);
    lemma_separated_text(field_text(m.msgid), t4);
}

/// Written structured data and the text behind it are read back from
/// behind the header.
pub proof fn lemma_data_text(total: Seq<char>, version: u32, data: Seq<ElementView>, msg: Seq<char>)
    requires
        forall|i: int| 0 <= i < data.len() ==> (#[trigger] data[i]).is_valid(),
    ensures
        data_and_text(
            total,
            seq![' '] + data_text(Protocol::RFC5424(version), data) + seq![' '] + msg,
        ) == Ok::<(Seq<ElementView>, Seq<char>), HeaderParseFailed>((data, msg)),
{
    let written = data_text(Protocol::RFC5424(version), data);
    let t6 = seq![' '] + msg;
    let s = seq![' '] + written + seq![' '] + msg;
    assert(s.skip(1) =~= written + t6);
    assert(t6.skip(1) =~= msg);
    if data.len() == 0 {
        assert((written + t6).skip(1) =~= t6);
        assert(data =~= Seq::empty());
    } else {
        assert(written =~= element_text(data[0]) + elements_text(data.skip(1)));
        lemma_element_text(data[0], elements_text(data.skip(1)) + t6);
        assert(written + t6 =~= element_text(data[0]) + (elements_text(data.skip(1)) + t6));
        lemma_elements_text(data, t6);
    }
}

/// The start of a written line is read back.
pub proof fn lemma_head_text(m: MessageView, stamp: Seq<char>, tail: Seq<char>)
    requires
        m.protocol is RFC5424,
        stamp.len() > 0,
        all_in(stamp, CharClass::Field),
    ensures
        structured_prefix(head_text(m, stamp) + tail) == Ok::<Prefix, HeaderParseFailed>(
            Prefix {
                facility: m.written_facility(),
                severity: m.written_severity(),
                version: m.protocol->0,
                stamp,
                stamp_position: (head_text(m, stamp).len() - stamp.len() - 1) as usize,
                rest: seq![' '] + tail,
            },
        ),
{
    let facility = m.written_facility();
    let severity = m.written_severity();
    let version = m.protocol->0;
    let total = head_text(m, stamp) + tail;
    let rest = seq![' '] + tail;
    let s2 = seq![' '] + stamp + rest;
    let s1 = decimal_text(version as nat) + s2;
    assert(total =~= pri_text(facility, severity) + s1);
    lemma_priority_text(facility, severity, s1);
    lemma_number_text(version, s2);
    lemma_separated_text(stamp, rest);
}

/// A written line is read back. Reading finds the timestamp as it was
/// written. Where that text writes the instant `parsed`, the message comes
/// back with that instant, with the facility and the severity that were
/// written for it, and otherwise as it was; where that text writes no
/// instant, the timestamp fails the parse.
pub proof fn lemma_line_is_read(m: MessageView, stamp: Seq<char>, parsed: Option<Instant>)
    requires
        is_structured(m),
        is_field(stamp),
    ensures
        stamp_token(line(m, stamp)) == Some(stamp),
        structured_message(line(m, stamp), parsed) == (if parsed is Some {
            Ok::<MessageView, HeaderParseFailed>(as_read(m, parsed))
        } else {
            Err::<MessageView, HeaderParseFailed>(
                failed(
                    HeaderField::Timestamp,
                    (head_text(m, stamp).len() - stamp.len() - 1) as usize,
                    ParseError::InvalidTimestamp,
                ),
            )
        }),
{
    let total = line(m, stamp);
    let after_names = data_text(m.protocol, m.structured_data) + seq![' '] + m.msg;
    let tail = names_text(m) + after_names;
    assert(total =~= head_text(m, stamp) + tail);
    lemma_head_text(m, stamp, tail);
    assert(seq![' '] + tail =~= seq![' '] + names_text(m) + after_names);
    lemma_names_text(total, m, after_names);
    assert(seq![' '] + after_names =~= seq![' '] + data_text(m.protocol, m.structured_data)
        + seq![' '] + m.msg);
    lemma_data_text(total, m.protocol->0, m.structured_data, m.msg);
}

/// A message of the structured format that has a facility, a severity and a
/// timestamp is read back from its line as it was, where the text that
/// writes its timestamp is read back as that timestamp.
pub proof fn lemma_round_trip(m: MessageView, stamp: Seq<char>)
    requires
        is_structured(m),
        m.facility is Some,
        m.severity is Some,
        m.timestamp is Some,
        is_field(stamp),
    ensures
        structured_message(line(m, stamp), m.timestamp) == Ok::<MessageView, HeaderParseFailed>(m),
{
    lemma_line_is_read(m, stamp, m.timestamp);
}

/// Reads a field behind its separating space; gives where the field starts
/// and where it ends.
fn read_field(chars: &Vec<char>, pos: usize) -> (r: Option<(usize, usize)>)
    requires
        pos <= chars.len(),
    ensures
        match separated(chars@.skip(pos as int)) {
            Some((text, rest)) => r matches Some((from, to)) && from == pos + 1 && from < to
                <= chars.len() && text == chars@.subrange(from as int, to as int) && rest
                == chars@.skip(to as int),
            None => r is None,
        },
{
    if pos >= chars.len() || chars[pos] != ' ' {
        return None;
    }
    let to = run_end(chars, pos + 1, CharClass::Field);
    proof {
        let s1 = chars@.skip(pos as int).skip(1);
        assert(s1 =~= chars@.skip(pos + 1));
        assert(s1.take(to - pos - 1) =~= chars@.subrange(pos + 1, to as int));
        assert(s1.skip(to - pos - 1) =~= chars@.skip(to as int));
    }
    if to == pos + 1 {
        None
    } else {
        Some((pos + 1, to))
    }
}

/// Where the field that should stand behind `pos` would start.
fn field_position(chars: &Vec<char>, pos: usize) -> (r: usize)
    requires
        pos <= chars.len(),
    ensures
        r == position_behind(chars@, chars@.skip(pos as int)),
{
    if pos < chars.len() && chars[pos] == ' ' {
        pos + 1
    } else {
        pos
    }
}

/// The range of a field, unless the field is `-`.
fn unless_dash(chars: &Vec<char>, from: usize, to: usize) -> (r: Option<(usize, usize)>)
    requires
        from < to <= chars.len(),
    ensures
        range_text(chars@, r) == optional(chars@.subrange(from as int, to as int)),
        range_within(chars@.len(), r),
{
    let ghost text = chars@.subrange(from as int, to as int);
    if to - from == 1 && chars[from] == '-' {
        proof {
            assert(text =~= seq!['-']);
        }
        None
    } else {
        proof {
            if text == seq!['-'] {
                assert(text.len() == 1);
                assert(text[0] == '-');
            }
        }
        Some((from, to))
    }
}

/// Where the start of a header stands in its line.
struct PrefixRanges {
    facility: SyslogFacility,
    severity: SyslogSeverity,
    version: u32,
    stamp: (usize, usize),
    stamp_position: usize,
}

impl PrefixRanges {
    spec fn of(self, s: Seq<char>) -> Prefix {
        Prefix {
            facility: self.facility,
            severity: self.severity,
            version: self.version,
            stamp: s.subrange(self.stamp.0 as int, self.stamp.1 as int),
            stamp_position: self.stamp_position,
            rest: s.skip(self.stamp.1 as int),
        }
    }
}

fn read_prefix(chars: &Vec<char>) -> (r: Result<PrefixRanges, HeaderParseFailed>)
    ensures
        match structured_prefix(chars@) {
            Ok(prefix) => r matches Ok(p) && p.of(chars@) == prefix && p.stamp.0 < p.stamp.1
                <= chars.len(),
            Err(e) => r matches Err(err) && err == e,
        },
{
    proof {
        assert(chars@.skip(0) =~= chars@);
    }
    let (pri_end, facility, severity) = match pri_at(chars, 0) {
        Ok(x) => x,
        Err(cause) => {
            return Err(HeaderParseFailed { field: HeaderField::Priority, position: 0, cause });
        },
    };
    let (version, version_end) = match read_number(chars, pri_end) {
        Some(x) => x,
        None => {
            return Err(
                HeaderParseFailed {
                    field: HeaderField::Version,
                    position: pri_end,
                    cause: ParseError::MissingField,
                },
            );
        },
    };
    let stamp_position = field_position(chars, version_end);
    match read_field(chars, version_end) {
        Some(stamp) => Ok(PrefixRanges { facility, severity, version, stamp, stamp_position }),
        None => Err(
            HeaderParseFailed {
                field: HeaderField::Timestamp,
                position: stamp_position,
                cause: ParseError::MissingField,
            },
        ),
    }
}

/// Where the names of a header stand in its line.
struct NameRanges {
    hostname: Option<(usize, usize)>,
    appname: Option<(usize, usize)>,
    procid: Option<(usize, usize)>,
    msgid: Option<(usize, usize)>,
    rest: usize,
}

impl NameRanges {
    spec fn of(self, s: Seq<char>) -> (Names, Seq<char>) {
        (
            Names {
                hostname: range_text(s, self.hostname),
                appname: range_text(s, self.appname),
                procid: range_text(s, self.procid),
                msgid: range_text(s, self.msgid),
            },
            s.skip(self.rest as int),
        )
    }

    spec fn within(self, len: nat) -> bool {
        &&& range_within(len, self.hostname)
        &&& range_within(len, self.appname)
        &&& range_within(len, self.procid)
        &&& range_within(len, self.msgid)
        &&& self.rest <= len
    }
}

fn read_names(chars: &Vec<char>, pos: usize) -> (r: Result<NameRanges, HeaderParseFailed>)
    requires
        pos <= chars.len(),
    ensures
        match structured_names(chars@, chars@.skip(pos as int)) {
            Ok(names) => r matches Ok(n) && n.of(chars@) == names && n.within(chars@.len()),
            Err(e) => r matches Err(err) && err == e,
        },
{
    let (host_start, host_end) = match read_field(chars, pos) {
        Some(x) => x,
        None => {
            return Err(
                HeaderParseFailed {
                    field: HeaderField::Hostname,
                    position: field_position(chars, pos),
                    cause: ParseError::MissingField,
                },
            );
        },
    };
    let (app_start, app_end) = match read_field(chars, host_end) {
        Some(x) => x,
        None => {
            return Err(
                HeaderParseFailed {
                    field: HeaderField::AppName,
                    position: field_position(chars, host_end),
                    cause: ParseError::MissingField,
                },
            );
        },
    };
    let (proc_start, proc_end) = match read_field(chars, app_end) {
        Some(x) => x,
        None => {
            return Err(
                HeaderParseFailed {
                    field: HeaderField::ProcId,
                    position: field_position(chars, app_end),
                    cause: ParseError::MissingField,
                },
            );
        },
    };
    let (msgid_start, msgid_end) = match read_field(chars, proc_end) {
        Some(x) => x,
        None => {
            return Err(
                HeaderParseFailed {
                    field: HeaderField::MsgId,
                    position: field_position(chars, proc_end),
                    cause: ParseError::MissingField,
                },
            );
        },
    };
    Ok(
        NameRanges {
            hostname: unless_dash(chars, host_start, host_end),
            appname: unless_dash(chars, app_start, app_end),
            procid: unless_dash(chars, proc_start, proc_end),
            msgid: unless_dash(chars, msgid_start, msgid_end),
            rest: msgid_end,
        },
    )
}

/// Reads the header behind its start, which `prefix` holds; gives the
/// header and where the text behind it starts.
fn read_header<'a>(
    input: &'a str,
    chars: &Vec<char>,
    prefix: PrefixRanges,
    parsed: Option<Timestamp>,
) -> (r: Result<(usize, Header<'a>), HeaderParseFailed>)
    requires
        chars@ == input@,
        structured_prefix(chars@) == Ok::<Prefix, HeaderParseFailed>(prefix.of(chars@)),
        prefix.stamp.0 < prefix.stamp.1 <= chars.len(),
    ensures
        match structured_header(input@, instant_of(parsed)) {
            Ok((rest, header)) => r matches Ok((end, h)) && h@ == header && rest == chars@.skip(
                end as int,
            ) && end <= chars.len(),
            Err(e) => r matches Err(err) && err == e,
        },
{
    let stamp = unless_dash(chars, prefix.stamp.0, prefix.stamp.1);
    let timestamp = match stamp {
        Some(_) => {
            if parsed.is_none() {
                return Err(
                    HeaderParseFailed {
                        field: HeaderField::Timestamp,
                        position: prefix.stamp_position,
                        cause: ParseError::InvalidTimestamp,
                    },
                );
            }
            parsed
        },
        None => None,
    };
    let names = match read_names(chars, prefix.stamp.1) {
        Ok(n) => n,
        Err(e) => {
            return Err(e);
        },
    };
    Ok(
        (
            names.rest,
            Header {
                facility: Some(prefix.facility),
                severity: Some(prefix.severity),
                timestamp,
                hostname: slice(input, names.hostname),
                version: Some(prefix.version),
                appname: slice(input, names.appname),
                procid: slice(input, names.procid),
                msgid: slice(input, names.msgid),
            },
        ),
    )
}

/// Reads the timestamp of the line whose start `prefix` holds, unless it is
/// written as `-`.
fn read_stamp(input: &str, chars: &Vec<char>, prefix: &PrefixRanges) -> (r: Option<Timestamp>)
    requires
        chars@ == input@,
        structured_prefix(chars@) == Ok::<Prefix, HeaderParseFailed>(prefix.of(chars@)),
        prefix.stamp.0 < prefix.stamp.1 <= chars.len(),
    ensures
        instant_of(r) == stamp_parsed(input@),
{
    match unless_dash(chars, prefix.stamp.0, prefix.stamp.1) {
        Some((from, to)) => Timestamp::parse_from_rfc3339(input.substring_char(from, to)),
        None => None,
    }
}

/// Reads the timestamp of the structured format, given what its text
/// writes: `parsed` is the timestamp, or `None` where the text writes none.
/// `-` is no timestamp, whatever `parsed` is; any other text is `parsed`,
/// and fails with `InvalidTimestamp` where `parsed` is `None`.
pub fn timestamp_with(text: &str, parsed: Option<Timestamp>) -> (r: Result<
    Option<Timestamp>,
    ParseError,
>)
    ensures
        match structured_timestamp(text@, instant_of(parsed)) {
            Ok(at) => r matches Ok(t) && instant_of(t) == at,
            Err(e) => r matches Err(err) && err == e,
        },
{
    proof {
        reveal_strlit("-");
        assert("-"@ =~= seq!['-']);
    }
    if same_text(text, "-") {
        return Ok(None);
    }
    match parsed {
        Some(t) => Ok(Some(t)),
        None => Err(ParseError::InvalidTimestamp),
    }
}

/// Reads the timestamp of the structured format: `-` for none, or else a
/// timestamp in the Internet date and time format, with its fraction of a
/// second if it has one and with its offset from UTC. `InvalidTimestamp`
/// where `text` is neither.
pub fn timestamp(text: &str) -> (r: Result<Option<Timestamp>, ParseError>)
    ensures
        match structured_timestamp(text@, rfc3339_parsed(text@)) {
            Ok(at) => r matches Ok(t) && instant_of(t) == at,
            Err(e) => r matches Err(err) && err == e,
        },
{
    timestamp_with(text, Timestamp::parse_from_rfc3339(text))
}

/// Reads the header of a line in the structured format, given what its
/// timestamp writes: `parsed` is the timestamp, or `None` where the text in
/// its place writes none. Gives what follows the header, and the header.
///
/// The priority is followed at once by the version; the timestamp, the
/// host name, the application name, the process identifier and the message
/// identifier follow, each behind one space, each of one character or more.
/// A timestamp or a name that is written as `-` is absent. The first field
/// that is not there fails the parse, and a timestamp other than `-` with
/// `parsed` at `None` does so with `InvalidTimestamp`.
pub fn header_with<'a>(input: &'a str, parsed: Option<Timestamp>) -> (r: Result<
    (&'a str, Header<'a>),
    HeaderParseFailed,
>)
    ensures
        outcome(r) == structured_header(input@, instant_of(parsed)),
{
    let chars = chars_of(input);
    let prefix = match read_prefix(&chars) {
        Ok(p) => p,
        Err(e) => {
            return Err(e);
        },
    };
    match read_header(input, &chars, prefix, parsed) {
        Ok((end, header)) => {
            let left = input.substring_char(end, chars.len());
            proof {
                assert(input@.subrange(end as int, chars.len() as int) =~= input@.skip(end as int));
            }
            Ok((left, header))
        },
        Err(e) => Err(e),
    }
}

/// Reads the header of a line in the structured format; gives what follows
/// the header, and the header. The timestamp is read in the Internet date
/// and time format.
pub fn header<'a>(input: &'a str) -> (r: Result<(&'a str, Header<'a>), HeaderParseFailed>)
    ensures
        outcome(r) == structured_header(input@, stamp_parsed(input@)),
{
    let chars = chars_of(input);
    let prefix = match read_prefix(&chars) {
        Ok(p) => p,
        Err(e) => {
            return Err(e);
        },
    };
    let parsed = read_stamp(input, &chars, &prefix);
    match read_header(input, &chars, prefix, parsed) {
        Ok((end, header)) => {
            let left = input.substring_char(end, chars.len());
            proof {
                assert(input@.subrange(end as int, chars.len() as int) =~= input@.skip(end as int));
            }
            Ok((left, header))
        },
        Err(e) => Err(e),
    }
}

/// Reads what follows the header from `pos`; gives the structured data and
/// where the text of the message starts.
fn read_data_and_text(chars: &Vec<char>, pos: usize) -> (r: Result<
    (Vec<StructuredElement<String>>, usize),
    HeaderParseFailed,
>)
    requires
        pos <= chars.len(),
    ensures
        match data_and_text(chars@, chars@.skip(pos as int)) {
            Ok((data, msg)) => r matches Ok((v, start)) && elements_view(v@) == data && msg
                == chars@.skip(start as int) && start <= chars.len(),
            Err(e) => r matches Err(err) && err == e,
        },
{
    let failure = HeaderParseFailed {
        field: HeaderField::StructuredData,
        position: field_position(chars, pos),
        cause: ParseError::MalformedStructuredData,
    };
    if pos >= chars.len() || chars[pos] != ' ' {
        return Err(failure);
    }
    proof {
        assert(chars@.skip(pos as int).skip(1) =~= chars@.skip(pos + 1));
    }
    let (data, end) = match read_structured_data(chars, pos + 1) {
        Some(x) => x,
        None => {
            return Err(failure);
        },
    };
    if end == chars.len() {
        return Ok((data, end));
    }
    if chars[end] != ' ' {
        return Err(failure);
    }
    proof {
        assert(chars@.skip(end as int).skip(1) =~= chars@.skip(end + 1));
    }
    Ok((data, end + 1))
}

/// Reads the message behind the start of its line, which `prefix` holds.
fn read_message(
    input: &str,
    chars: &Vec<char>,
    prefix: PrefixRanges,
    parsed: Option<Timestamp>,
) -> (r: Result<Message<String>, HeaderParseFailed>)
    requires
        chars@ == input@,
        structured_prefix(chars@) == Ok::<Prefix, HeaderParseFailed>(prefix.of(chars@)),
        prefix.stamp.0 < prefix.stamp.1 <= chars.len(),
    ensures
        match structured_message(input@, instant_of(parsed)) {
            Ok(m) => r matches Ok(v) && v@ == m,
            Err(e) => r matches Err(err) && err == e,
        },
{
    let version = prefix.version;
    let (end, header) = match read_header(input, chars, prefix, parsed) {
        Ok(x) => x,
        Err(e) => {
            return Err(e);
        },
    };
    let (structured_data, start) = match read_data_and_text(chars, end) {
        Ok(x) => x,
        Err(e) => {
            return Err(e);
        },
    };
    let msg = copy_range(chars, start, chars.len());
    proof {
        assert(chars@.subrange(start as int, chars.len() as int) =~= chars@.skip(start as int));
    }
    Ok(
        Message {
            protocol: Protocol::RFC5424(version),
            facility: header.facility,
            severity: header.severity,
            timestamp: header.timestamp,
            hostname: own(header.hostname),
            appname: own(header.appname),
            procid: own(header.procid),
            msgid: own(header.msgid),
            structured_data,
            msg,
        },
    )
}

/// Reads a line in the structured format, given what its timestamp writes:
/// `parsed` is the timestamp, or `None` where the text in its place writes
/// none. Behind the header stand, after one space, the structured data, `-`
/// or elements, and then either nothing or one space and the text of the
/// message.
pub fn parse_structured_with(input: &str, parsed: Option<Timestamp>) -> (r: Result<
    Message<String>,
    HeaderParseFailed,
>)
    ensures
        match structured_message(input@, instant_of(parsed)) {
            Ok(m) => r matches Ok(v) && v@ == m,
            Err(e) => r matches Err(err) && err == e,
        },
{
    let chars = chars_of(input);
    let prefix = match read_prefix(&chars) {
        Ok(p) => p,
        Err(e) => {
            return Err(e);
        },
    };
    read_message(input, &chars, prefix, parsed)
}

/// Reads a line in the structured format. The timestamp is read in the
/// Internet date and time format.
pub fn parse_structured(input: &str) -> (r: Result<Message<String>, HeaderParseFailed>)
    ensures
        match structured_message(input@, stamp_parsed(input@)) {
            Ok(m) => r matches Ok(v) && v@ == m,
            Err(e) => r matches Err(err) && err == e,
        },
{
    let chars = chars_of(input);
    let prefix = match read_prefix(&chars) {
        Ok(p) => p,
        Err(e) => {
            return Err(e);
        },
    };
    let parsed = read_stamp(input, &chars, &prefix);
    read_message(input, &chars, prefix, parsed)
}

} // verus!
