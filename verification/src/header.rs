//! The header of a line: what stands before the message.

use vstd::prelude::*;
use crate::pri::{SyslogFacility, SyslogSeverity};
use crate::text::text_of;
use crate::timestamp::{instant_of, Instant, Timestamp};

verus! {

/// The fields of a header, each of them optional. The texts are parts of
/// the line that was read. `version` is there in the structured format
/// only, `procid` and `msgid` too.
#[derive(Clone, Copy, Debug, PartialEq)]
pub struct Header<'a> {
    pub facility: Option<SyslogFacility>,
    pub severity: Option<SyslogSeverity>,
    pub timestamp: Option<Timestamp>,
    pub hostname: Option<&'a str>,
    pub version: Option<u32>,
    pub appname: Option<&'a str>,
    pub procid: Option<&'a str>,
    pub msgid: Option<&'a str>,
}

/// What a header holds.
pub struct HeaderView {
    pub facility: Option<SyslogFacility>,
    pub severity: Option<SyslogSeverity>,
    pub timestamp: Option<Instant>,
    pub hostname: Option<Seq<char>>,
    pub version: Option<u32>,
    pub appname: Option<Seq<char>>,
    pub procid: Option<Seq<char>>,
    pub msgid: Option<Seq<char>>,
}

impl<'a> View for Header<'a> {
    type V = HeaderView;

    open spec fn view(&self) -> HeaderView {
        HeaderView {
            facility: self.facility,
            severity: self.severity,
            timestamp: instant_of(self.timestamp),
            hostname: text_of(self.hostname),
            version: self.version,
            appname: text_of(self.appname),
            procid: text_of(self.procid),
            msgid: text_of(self.msgid),
        }
    }
}

/// What a header parse gives: the text that is left and the header, or the
/// field that failed.
pub open spec fn outcome<'a, E>(r: Result<(&'a str, Header<'a>), E>) -> Result<
    (Seq<char>, HeaderView),
    E,
> {
    match r {
        Ok((left, header)) => Ok((left@, header@)),
        Err(e) => Err(e),
    }
}

} // verus!
