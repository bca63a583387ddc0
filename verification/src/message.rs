//! A message of either format, its line on the wire, and when two messages
//! are equal.

use vstd::prelude::*;
use vstd::std_specs::cmp::PartialEqSpecImpl;
use vstd::std_specs::convert::FromSpecImpl;
use vstd::string::StringExecFns;
use crate::header::{Header, HeaderView};
use crate::pri::{pri_text, push_pri, SyslogFacility, SyslogSeverity};
use crate::structured_data::{
    elements_text, elements_view, ElementView, StructuredElement,
};
use crate::text::{
    all_in, decimal_text, push_char, push_decimal, same_text, text_of, CharClass, Text,
};
use crate::timestamp::{instant_of, rfc3339_text, Instant, Timestamp};

verus! {

/// The format of a message: that of BSD syslog, or the structured format
/// with its version.
#[derive(Clone, Copy, Debug, PartialEq, Eq, Structural)]
pub enum Protocol {
    RFC3164,
    RFC5424(u32),
}

/// A message: the fields of its header, its structured data and its text.
/// `S` is the kind of text that it holds: `&str` for parts of a line that
/// was read, `String` for texts of its own.
#[derive(Clone, Debug)]
pub struct Message<S> {
    pub protocol: Protocol,
    pub facility: Option<SyslogFacility>,
    pub severity: Option<SyslogSeverity>,
    pub timestamp: Option<Timestamp>,
    pub hostname: Option<S>,
    pub appname: Option<S>,
    pub procid: Option<S>,
    pub msgid: Option<S>,
    pub structured_data: Vec<StructuredElement<S>>,
    pub msg: S,
}

/// What a message holds.
pub struct MessageView {
    pub protocol: Protocol,
    pub facility: Option<SyslogFacility>,
    pub severity: Option<SyslogSeverity>,
    pub timestamp: Option<Instant>,
    pub hostname: Option<Seq<char>>,
    pub appname: Option<Seq<char>>,
    pub procid: Option<Seq<char>>,
    pub msgid: Option<Seq<char>>,
    pub structured_data: Seq<ElementView>,
    pub msg: Seq<char>,
}

impl<S: Text> View for Message<S> {
    type V = MessageView;

    open spec fn view(&self) -> MessageView {
        MessageView {
            protocol: self.protocol,
            facility: self.facility,
            severity: self.severity,
            timestamp: instant_of(self.timestamp),
            hostname: text_of(self.hostname),
            appname: text_of(self.appname),
            procid: text_of(self.procid),
            msgid: text_of(self.msgid),
            structured_data: elements_view(self.structured_data@),
            msg: self.msg.text(),
        }
    }
}

/// The format that a header is of: the structured one where it has a version.
pub open spec fn protocol_of(version: Option<u32>) -> Protocol {
    match version {
        Some(v) => Protocol::RFC5424(v),
        None => Protocol::RFC3164,
    }
}

/// The message that a header, structured data and a text make.
pub open spec fn message_of(
    header: HeaderView,
    data: Seq<ElementView>,
    msg: Seq<char>,
) -> MessageView {
    MessageView {
        protocol: protocol_of(header.version),
        facility: header.facility,
        severity: header.severity,
        timestamp: header.timestamp,
        hostname: header.hostname,
        appname: header.appname,
        procid: header.procid,
        msgid: header.msgid,
        structured_data: data,
        msg,
    }
}

/// A header field as it is written: `-` where there is none.
pub open spec fn field_text(field: Option<Seq<char>>) -> Seq<char> {
    match field {
        Some(text) => text,
        None => seq!['-'],
    }
}

/// The version as it is written: nothing in the BSD format.
pub open spec fn version_text(protocol: Protocol) -> Seq<char> {
    match protocol {
        Protocol::RFC3164 => Seq::empty(),
        Protocol::RFC5424(version) => decimal_text(version as nat),
    }
}

/// Structured data as it is written: the elements one behind the other;
/// without elements `-` in the structured format and nothing in the BSD format.
pub open spec fn data_text(protocol: Protocol, data: Seq<ElementView>) -> Seq<char> {
    if data.len() > 0 {
        elements_text(data)
    } else {
        match protocol {
            Protocol::RFC3164 => Seq::empty(),
            Protocol::RFC5424(_) => seq!['-'],
        }
    }
}

impl MessageView {
    /// The facility that is written: that of syslog itself where the
    /// message has none.
    pub open spec fn written_facility(self) -> SyslogFacility {
        match self.facility {
            Some(f) => f,
            None => SyslogFacility::LOG_SYSLOG,
        }
    }

    /// The severity that is written: debug where the message has none.
    pub open spec fn written_severity(self) -> SyslogSeverity {
        match self.severity {
            Some(s) => s,
            None => SyslogSeverity::SEV_DEBUG,
        }
    }

    /// The instant that is written: that of the message, or `now` where it has none.
    pub open spec fn written_instant(self, now: Instant) -> Instant {
        match self.timestamp {
            Some(at) => at,
            None => now,
        }
    }

    /// Whether two messages hold the same fields, their formats left aside:
    /// the timestamps the same instant, the elements and their parameters in
    /// the same order.
    pub open spec fn same_fields(self, other: MessageView) -> bool {
        &&& self.facility == other.facility
        &&& self.severity == other.severity
        &&& match (self.timestamp, other.timestamp) {
            (Some(a), Some(b)) => a.same_instant(b),
            (None, None) => true,
            _ => false,
        }
        &&& self.hostname == other.hostname
        &&& self.appname == other.appname
        &&& self.procid == other.procid
        &&& self.msgid == other.msgid
        &&& self.structured_data == other.structured_data
        &&& self.msg == other.msg
    }
}

/// The start of a line: the priority token, the version, and the timestamp
/// between two spaces.
pub open spec fn head_text(m: MessageView, stamp: Seq<char>) -> Seq<char> {
    pri_text(m.written_facility(), m.written_severity()) + version_text(m.protocol) + seq![' ']
        + stamp + seq![' ']
}

/// The names of a line: those of the host, the application, the process
/// and the kind of message, with a space behind each.
pub open spec fn names_text(m: MessageView) -> Seq<char> {
    field_text(m.hostname) + seq![' '] + field_text(m.appname) + seq![' '] + field_text(m.procid)
        + seq![' '] + field_text(m.msgid) + seq![' ']
}

/// The line of a message whose timestamp is written as `stamp`: the start,
/// the names, the structured data, a space and the text.
pub open spec fn line(m: MessageView, stamp: Seq<char>) -> Seq<char> {
    head_text(m, stamp) + names_text(m) + data_text(m.protocol, m.structured_data) + seq![' ']
        + m.msg
}

/// Messages that differ in their format alone hold the same fields.
pub proof fn lemma_format_left_aside(a: MessageView, b: MessageView)
    requires
        a == (MessageView { protocol: a.protocol, ..b }),
    ensures
        a.same_fields(b),
{
}

/// A message without elements is written with `-` in their place in the
/// structured format, and with nothing there in the BSD format.
pub proof fn lemma_line_without_elements(m: MessageView, stamp: Seq<char>)
    requires
        m.structured_data.len() == 0,
    ensures
        m.protocol is RFC5424 ==> line(m, stamp) == head_text(m, stamp) + names_text(m) + seq!['-']
            + seq![' '] + m.msg,
        m.protocol is RFC3164 ==> line(m, stamp) == head_text(m, stamp) + names_text(m) + seq![' ']
            + m.msg,
{
    if m.protocol is RFC3164 {
        assert(head_text(m, stamp) + names_text(m) + Seq::<char>::empty() =~= head_text(m, stamp)
            + names_text(m));
    }
}

/// Appends a header field as it is written.
fn push_field<S: Text>(out: &mut String, field: &Option<S>)
    ensures
        final(out)@ == old(out)@ + field_text(text_of(*field)),
{
    match field {
        Some(text) => {
            out.append(text.as_text());
        },
        None => {
            push_char(out, '-');
            proof {
                assert(out@ =~= old(out)@ + seq!['-']);
            }
        },
    }
}

/// Whether two optional texts hold the same characters, or both none.
fn same_field<S: Text>(a: &Option<S>, b: &Option<S>) -> (r: bool)
    ensures
        r == (text_of(*a) == text_of(*b)),
{
    match (a, b) {
        (Some(x), Some(y)) => same_text(x.as_text(), y.as_text()),
        (None, None) => true,
        _ => false,
    }
}

impl<S: Text> Message<S> {
    /// The line of the message, with `now` written where the message has no
    /// timestamp. The timestamp is written in the Internet date and time
    /// format, in more than one character and without a space.
    pub fn render_at(&self, now: &Timestamp) -> (r: String)
        ensures
            r@ == line(self@, rfc3339_text(self@.written_instant(now@))),
            rfc3339_text(self@.written_instant(now@)).len() > 1,
            all_in(rfc3339_text(self@.written_instant(now@)), CharClass::Field),
    {
        let stamp = match &self.timestamp {
            Some(at) => at.to_rfc3339(),
            None => now.to_rfc3339(),
        };
        let mut out = String::new();
        self.push_head(&mut out, stamp.as_str());
        self.push_names(&mut out);
        self.push_data(&mut out);
        push_char(&mut out, ' ');
        out.append(self.msg.as_text());
        proof {
            assert(out@ =~= line(self@, stamp@));
        }
        out
    }

    fn push_head(&self, out: &mut String, stamp: &str)
        ensures
            final(out)@ == old(out)@ + head_text(self@, stamp@),
    {
        let facility = match self.facility {
            Some(f) => f,
            None => SyslogFacility::LOG_SYSLOG,
        };
        let severity = match self.severity {
            Some(s) => s,
            None => SyslogSeverity::SEV_DEBUG,
        };
        push_pri(out, facility, severity);
        let ghost before = out@;
        match self.protocol {
            Protocol::RFC3164 => {},
            Protocol::RFC5424(version) => {
                push_decimal(out, version);
            },
        }
        proof {
            assert(out@ =~= before + version_text(self.protocol));
        }
        push_char(out, ' ');
        out.append(stamp);
        push_char(out, ' ');
        proof {
            assert(out@ =~= old(out)@ + head_text(self@, stamp@));
        }
    }

    fn push_names(&self, out: &mut String)
        ensures
            final(out)@ == old(out)@ + names_text(self@),
    {
        push_field(out, &self.hostname);
        push_char(out, ' ');
        push_field(out, &self.appname);
        push_char(out, ' ');
        push_field(out, &self.procid);
        push_char(out, ' ');
        push_field(out, &self.msgid);
        push_char(out, ' ');
        proof {
            assert(out@ =~= old(out)@ + names_text(self@));
        }
    }

    fn push_data(&self, out: &mut String)
        ensures
            final(out)@ == old(out)@ + data_text(
                self.protocol,
                elements_view(self.structured_data@),
            ),
    {
        let ghost data = elements_view(self.structured_data@);
        if self.structured_data.len() == 0 {
            match self.protocol {
                Protocol::RFC3164 => {
                    proof {
                        assert(out@ =~= old(out)@ + Seq::<char>::empty());
                    }
                },
                Protocol::RFC5424(_) => {
                    push_char(out, '-');
                    proof {
                        assert(out@ =~= old(out)@ + seq!['-']);
                    }
                },
            }
        } else {
            let mut i: usize = 0;
            proof {
                assert(data.skip(0) =~= data);
            }
            while i < self.structured_data.len()
                invariant
                    i <= self.structured_data.len(),
                    data == elements_view(self.structured_data@),
                    out@ + elements_text(data.skip(i as int)) == old(out)@ + elements_text(data),
                decreases self.structured_data.len() - i,
            {
                let ghost before = out@;
                let ghost left = data.skip(i as int);
                self.structured_data[i].render_into(out);
                proof {
                    assert(left[0] == self.structured_data@[i as int]@);
                    assert(left.skip(1) =~= data.skip(i + 1));
                    assert(out@ + elements_text(left.skip(1)) =~= before + elements_text(left));
                }
                i += 1;
            }
            proof {
                assert(data.skip(i as int) =~= Seq::empty());
                assert(out@ =~= old(out)@ + elements_text(data));
            }
        }
    }

    /// The line of the message, with the time of the call written where the
    /// message has no timestamp.
    pub fn render(&self) -> (r: String)
        ensures
            exists|now: Instant|
                now.is_valid() && r@ == line(
                    self@,
                    #[trigger] rfc3339_text(self@.written_instant(now)),
                ),
            self.timestamp matches Some(at) ==> r@ == line(self@, rfc3339_text(at@)),
    {
        let now = Timestamp::now();
        self.render_at(&now)
    }
}

impl<'a> Message<&'a str> {
    /// The message that a header, structured data and a text make. It is of
    /// the structured format where the header has a version.
    pub fn from_parts(
        header: Header<'a>,
        structured_data: Vec<StructuredElement<&'a str>>,
        msg: &'a str,
    ) -> (r: Self)
        ensures
            r@ == message_of(header@, elements_view(structured_data@), msg@),
    {
        Message {
            protocol: match header.version {
                Some(v) => Protocol::RFC5424(v),
                None => Protocol::RFC3164,
            },
            facility: header.facility,
            severity: header.severity,
            timestamp: header.timestamp,
            hostname: header.hostname,
            appname: header.appname,
            procid: header.procid,
            msgid: header.msgid,
            structured_data,
            msg,
        }
    }
}

impl<S: Text> PartialEq for Message<S> {
    /// Two messages are equal when they hold the same fields; their formats
    /// are not compared.
    fn eq(&self, other: &Self) -> (r: bool) {
        let same_time = match (&self.timestamp, &other.timestamp) {
            (Some(a), Some(b)) => *a == *b,
            (None, None) => true,
            _ => false,
        };
        if !(self.facility == other.facility && self.severity == other.severity && same_time) {
            return false;
        }
        if !(same_field(&self.hostname, &other.hostname) && same_field(
            &self.appname,
            &other.appname,
        ) && same_field(&self.procid, &other.procid) && same_field(&self.msgid, &other.msgid)
            && same_text(self.msg.as_text(), other.msg.as_text())) {
            return false;
        }
        let ghost a = elements_view(self.structured_data@);
        let ghost b = elements_view(other.structured_data@);
        if self.structured_data.len() != other.structured_data.len() {
            proof {
                assert(a.len() != b.len());
            }
            return false;
        }
        let mut i: usize = 0;
        while i < self.structured_data.len()
            invariant
                i <= self.structured_data.len() == other.structured_data.len(),
                a == elements_view(self.structured_data@),
                b == elements_view(other.structured_data@),
                forall|k: int| 0 <= k < i ==> a[k] == b[k],
            decreases self.structured_data.len() - i,
        {
            if !(self.structured_data[i] == other.structured_data[i]) {
                proof {
                    assert(a[i as int] != b[i as int]);
                }
                return false;
            }
            i += 1;
        }
        proof {
            assert(a =~= b);
        }
        true
    }
}

impl<S: Text> PartialEqSpecImpl for Message<S> {
    open spec fn obeys_eq_spec() -> bool {
        true
    }

    open spec fn eq_spec(&self, other: &Self) -> bool {
        self@.same_fields(other@)
    }
}

impl<'a> From<Message<&'a str>> for Message<String> {
    /// The message with every text copied into a text of its own.
    fn from(message: Message<&'a str>) -> (r: Self)
        ensures
            r@ == message@,
    {
        let mut structured_data: Vec<StructuredElement<String>> = Vec::new();
        let ghost all = elements_view(message.structured_data@);
        let mut i: usize = 0;
        while i < message.structured_data.len()
            invariant
                i <= message.structured_data.len(),
                all == elements_view(message.structured_data@),
                elements_view(structured_data@) == all.take(i as int),
            decreases message.structured_data.len() - i,
        {
            let ghost before = elements_view(structured_data@);
            structured_data.push(message.structured_data[i].owned());
            proof {
                assert(elements_view(structured_data@) =~= before.push(all[i as int]));
                assert(all.take(i + 1) =~= all.take(i as int).push(all[i as int]));
            }
            i += 1;
        }
        proof {
            assert(all.take(i as int) =~= all);
        }
        Message {
            protocol: message.protocol,
            facility: message.facility,
            severity: message.severity,
            timestamp: message.timestamp,
            hostname: own(message.hostname),
            appname: own(message.appname),
            procid: own(message.procid),
            msgid: own(message.msgid),
            structured_data,
            msg: String::from_str(message.msg),
        }
    }
}

impl<'a> FromSpecImpl<Message<&'a str>> for Message<String> {
    open spec fn obeys_from_spec() -> bool {
        false
    }

    open spec fn from_spec(message: Message<&'a str>) -> Self {
        arbitrary()
    }
}

/// An optional text copied into a text of its own.
pub(crate) fn own(text: Option<&str>) -> (r: Option<String>)
    ensures
        text_of(r) == text_of(text),
{
    match text {
        Some(t) => Some(String::from_str(t)),
        None => None,
    }
}

} // verus!
