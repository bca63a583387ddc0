//! The priority value: a facility and a severity in one number.

use vstd::prelude::*;
use vstd::string::StrSliceExecFns;
use crate::error::ParseError;
use crate::text::{
    chars_of, decimal, decimal_text, lemma_decimal_text, lemma_run_before, push_char,
    push_decimal, read_decimal, run, run_end, CharClass,
};

verus! {

/// Where a message comes from: one of 24 numbered origins.
#[allow(non_camel_case_types)]
#[derive(Clone, Copy, Debug, PartialEq, Eq, Structural)]
pub enum SyslogFacility {
    LOG_KERN,
    LOG_USER,
    LOG_MAIL,
    LOG_DAEMON,
    LOG_AUTH,
    LOG_SYSLOG,
    LOG_LPR,
    LOG_NEWS,
    LOG_UUCP,
    LOG_CRON,
    LOG_AUTHPRIV,
    LOG_FTP,
    LOG_NTP,
    LOG_AUDIT,
    LOG_ALERT,
    LOG_CLOCKD,
    LOG_LOCAL0,
    LOG_LOCAL1,
    LOG_LOCAL2,
    LOG_LOCAL3,
    LOG_LOCAL4,
    LOG_LOCAL5,
    LOG_LOCAL6,
    LOG_LOCAL7,
}

impl SyslogFacility {
    /// The number that stands for this value on the wire.
    pub open spec fn code(self) -> int {
        match self {
            SyslogFacility::LOG_KERN => 0,
            SyslogFacility::LOG_USER => 1,
            SyslogFacility::LOG_MAIL => 2,
            SyslogFacility::LOG_DAEMON => 3,
            SyslogFacility::LOG_AUTH => 4,
            SyslogFacility::LOG_SYSLOG => 5,
            SyslogFacility::LOG_LPR => 6,
            SyslogFacility::LOG_NEWS => 7,
            SyslogFacility::LOG_UUCP => 8,
            SyslogFacility::LOG_CRON => 9,
            SyslogFacility::LOG_AUTHPRIV => 10,
            SyslogFacility::LOG_FTP => 11,
            SyslogFacility::LOG_NTP => 12,
            SyslogFacility::LOG_AUDIT => 13,
            SyslogFacility::LOG_ALERT => 14,
            SyslogFacility::LOG_CLOCKD => 15,
            SyslogFacility::LOG_LOCAL0 => 16,
            SyslogFacility::LOG_LOCAL1 => 17,
            SyslogFacility::LOG_LOCAL2 => 18,
            SyslogFacility::LOG_LOCAL3 => 19,
            SyslogFacility::LOG_LOCAL4 => 20,
            SyslogFacility::LOG_LOCAL5 => 21,
            SyslogFacility::LOG_LOCAL6 => 22,
            SyslogFacility::LOG_LOCAL7 => 23,
        }
    }

    /// The value that `code` stands for, if any does.
    pub open spec fn of_code(code: int) -> Option<SyslogFacility> {
        if code == 0 {
            Some(SyslogFacility::LOG_KERN)
        } else if code == 1 {
            Some(SyslogFacility::LOG_USER)
        } else if code == 2 {
            Some(SyslogFacility::LOG_MAIL)
        } else if code == 3 {
            Some(SyslogFacility::LOG_DAEMON)
        } else if code == 4 {
            Some(SyslogFacility::LOG_AUTH)
        } else if code == 5 {
            Some(SyslogFacility::LOG_SYSLOG)
        } else if code == 6 {
            Some(SyslogFacility::LOG_LPR)
        } else if code == 7 {
            Some(SyslogFacility::LOG_NEWS)
        } else if code == 8 {
            Some(SyslogFacility::LOG_UUCP)
        } else if code == 9 {
            Some(SyslogFacility::LOG_CRON)
        } else if code == 10 {
            Some(SyslogFacility::LOG_AUTHPRIV)
        } else if code == 11 {
            Some(SyslogFacility::LOG_FTP)
        } else if code == 12 {
            Some(SyslogFacility::LOG_NTP)
        } else if code == 13 {
            Some(SyslogFacility::LOG_AUDIT)
        } else if code == 14 {
            Some(SyslogFacility::LOG_ALERT)
        } else if code == 15 {
            Some(SyslogFacility::LOG_CLOCKD)
        } else if code == 16 {
            Some(SyslogFacility::LOG_LOCAL0)
        } else if code == 17 {
            Some(SyslogFacility::LOG_LOCAL1)
        } else if code == 18 {
            Some(SyslogFacility::LOG_LOCAL2)
        } else if code == 19 {
            Some(SyslogFacility::LOG_LOCAL3)
        } else if code == 20 {
            Some(SyslogFacility::LOG_LOCAL4)
        } else if code == 21 {
            Some(SyslogFacility::LOG_LOCAL5)
        } else if code == 22 {
            Some(SyslogFacility::LOG_LOCAL6)
        } else if code == 23 {
            Some(SyslogFacility::LOG_LOCAL7)
        } else {
            None
        }
    }

    pub fn to_int(self) -> (n: u8)
        ensures
            n == self.code(),
    {
        match self {
            SyslogFacility::LOG_KERN => 0,
            SyslogFacility::LOG_USER => 1,
            SyslogFacility::LOG_MAIL => 2,
            SyslogFacility::LOG_DAEMON => 3,
            SyslogFacility::LOG_AUTH => 4,
            SyslogFacility::LOG_SYSLOG => 5,
            SyslogFacility::LOG_LPR => 6,
            SyslogFacility::LOG_NEWS => 7,
            SyslogFacility::LOG_UUCP => 8,
            SyslogFacility::LOG_CRON => 9,
            SyslogFacility::LOG_AUTHPRIV => 10,
            SyslogFacility::LOG_FTP => 11,
            SyslogFacility::LOG_NTP => 12,
            SyslogFacility::LOG_AUDIT => 13,
            SyslogFacility::LOG_ALERT => 14,
            SyslogFacility::LOG_CLOCKD => 15,
            SyslogFacility::LOG_LOCAL0 => 16,
            SyslogFacility::LOG_LOCAL1 => 17,
            SyslogFacility::LOG_LOCAL2 => 18,
            SyslogFacility::LOG_LOCAL3 => 19,
            SyslogFacility::LOG_LOCAL4 => 20,
            SyslogFacility::LOG_LOCAL5 => 21,
            SyslogFacility::LOG_LOCAL6 => 22,
            SyslogFacility::LOG_LOCAL7 => 23,
        }
    }

    pub fn from_int(n: u8) -> (r: Option<SyslogFacility>)
        ensures
            r == Self::of_code(n as int),
    {
        match n {
            0 => Some(SyslogFacility::LOG_KERN),
            1 => Some(SyslogFacility::LOG_USER),
            2 => Some(SyslogFacility::LOG_MAIL),
            3 => Some(SyslogFacility::LOG_DAEMON),
            4 => Some(SyslogFacility::LOG_AUTH),
            5 => Some(SyslogFacility::LOG_SYSLOG),
            6 => Some(SyslogFacility::LOG_LPR),
            7 => Some(SyslogFacility::LOG_NEWS),
            8 => Some(SyslogFacility::LOG_UUCP),
            9 => Some(SyslogFacility::LOG_CRON),
            10 => Some(SyslogFacility::LOG_AUTHPRIV),
            11 => Some(SyslogFacility::LOG_FTP),
            12 => Some(SyslogFacility::LOG_NTP),
            13 => Some(SyslogFacility::LOG_AUDIT),
            14 => Some(SyslogFacility::LOG_ALERT),
            15 => Some(SyslogFacility::LOG_CLOCKD),
            16 => Some(SyslogFacility::LOG_LOCAL0),
            17 => Some(SyslogFacility::LOG_LOCAL1),
            18 => Some(SyslogFacility::LOG_LOCAL2),
            19 => Some(SyslogFacility::LOG_LOCAL3),
            20 => Some(SyslogFacility::LOG_LOCAL4),
            21 => Some(SyslogFacility::LOG_LOCAL5),
            22 => Some(SyslogFacility::LOG_LOCAL6),
            23 => Some(SyslogFacility::LOG_LOCAL7),
            _ => None,
        }
    }
}

/// How urgent a message is: 0 for an emergency, 7 for debugging.
#[allow(non_camel_case_types)]
#[derive(Clone, Copy, Debug, PartialEq, Eq, Structural)]
pub enum SyslogSeverity {
    SEV_EMERG,
    SEV_ALERT,
    SEV_CRIT,
    SEV_ERR,
    SEV_WARNING,
    SEV_NOTICE,
    SEV_INFO,
    SEV_DEBUG,
}

impl SyslogSeverity {
    /// The number that stands for this value on the wire.
    pub open spec fn code(self) -> int {
        match self {
            SyslogSeverity::SEV_EMERG => 0,
            SyslogSeverity::SEV_ALERT => 1,
            SyslogSeverity::SEV_CRIT => 2,
            SyslogSeverity::SEV_ERR => 3,
            SyslogSeverity::SEV_WARNING => 4,
            SyslogSeverity::SEV_NOTICE => 5,
            SyslogSeverity::SEV_INFO => 6,
            SyslogSeverity::SEV_DEBUG => 7,
        }
    }

    /// The value that `code` stands for, if any does.
    pub open spec fn of_code(code: int) -> Option<SyslogSeverity> {
        if code == 0 {
            Some(SyslogSeverity::SEV_EMERG)
        } else if code == 1 {
            Some(SyslogSeverity::SEV_ALERT)
        } else if code == 2 {
            Some(SyslogSeverity::SEV_CRIT)
        } else if code == 3 {
            Some(SyslogSeverity::SEV_ERR)
        } else if code == 4 {
            Some(SyslogSeverity::SEV_WARNING)
        } else if code == 5 {
            Some(SyslogSeverity::SEV_NOTICE)
        } else if code == 6 {
            Some(SyslogSeverity::SEV_INFO)
        } else if code == 7 {
            Some(SyslogSeverity::SEV_DEBUG)
        } else {
            None
        }
    }

    pub fn to_int(self) -> (n: u8)
        ensures
            n == self.code(),
    {
        match self {
            SyslogSeverity::SEV_EMERG => 0,
            SyslogSeverity::SEV_ALERT => 1,
            SyslogSeverity::SEV_CRIT => 2,
            SyslogSeverity::SEV_ERR => 3,
            SyslogSeverity::SEV_WARNING => 4,
            SyslogSeverity::SEV_NOTICE => 5,
            SyslogSeverity::SEV_INFO => 6,
            SyslogSeverity::SEV_DEBUG => 7,
        }
    }

    pub fn from_int(n: u8) -> (r: Option<SyslogSeverity>)
        ensures
            r == Self::of_code(n as int),
    {
        match n {
            0 => Some(SyslogSeverity::SEV_EMERG),
            1 => Some(SyslogSeverity::SEV_ALERT),
            2 => Some(SyslogSeverity::SEV_CRIT),
            3 => Some(SyslogSeverity::SEV_ERR),
            4 => Some(SyslogSeverity::SEV_WARNING),
            5 => Some(SyslogSeverity::SEV_NOTICE),
            6 => Some(SyslogSeverity::SEV_INFO),
            7 => Some(SyslogSeverity::SEV_DEBUG),
            _ => None,
        }
    }
}

/// The priority value of a facility and a severity.
pub open spec fn pri_value(facility: SyslogFacility, severity: SyslogSeverity) -> int {
    facility.code() * 8 + severity.code()
}

/// The facility and the severity that a priority value holds. Only the values
/// from 0 to 191 hold any.
pub open spec fn pri_parts(pri: int) -> Option<(SyslogFacility, SyslogSeverity)> {
    match (SyslogFacility::of_code(pri / 8), SyslogSeverity::of_code(pri % 8)) {
        (Some(facility), Some(severity)) => Some((facility, severity)),
        _ => None,
    }
}

/// Taking a priority value apart gives back what it was made of.
pub proof fn lemma_parts_of_value(facility: SyslogFacility, severity: SyslogSeverity)
    ensures
        0 <= pri_value(facility, severity) <= 191,
        pri_parts(pri_value(facility, severity)) == Some((facility, severity)),
{
}

/// The values from 0 to 191, and no others, can be taken apart, each into the
/// one pair that makes it.
pub proof fn lemma_value_of_parts(pri: int)
    ensures
        pri_parts(pri) is Some <==> 0 <= pri <= 191,
        pri_parts(pri) matches Some(p) ==> pri_value(p.0, p.1) == pri,
{
}

/// `facility * 8 + severity`.
pub fn compose_pri(facility: SyslogFacility, severity: SyslogSeverity) -> (pri: u8)
    ensures
        pri == pri_value(facility, severity),
        pri <= 191,
        pri_parts(pri as int) == Some((facility, severity)),
{
    facility.to_int() * 8 + severity.to_int()
}

/// The facility `pri / 8` and the severity `pri % 8`, or `OutOfRange` above 191.
pub fn decompose_pri(pri: u8) -> (r: Result<(SyslogFacility, SyslogSeverity), ParseError>)
    ensures
        r is Err <==> pri > 191,
        r matches Err(e) ==> e == ParseError::OutOfRange,
        r matches Ok(p) ==> pri_parts(pri as int) == Some(p) && pri_value(p.0, p.1) == pri,
{
    match (SyslogFacility::from_int(pri / 8), SyslogSeverity::from_int(pri % 8)) {
        (Some(facility), Some(severity)) => Ok((facility, severity)),
        _ => Err(ParseError::OutOfRange),
    }
}

/// The priority token at the start of `s`: `<`, one or more decimal digits
/// that write a number up to 191, and `>`. Gives the number and what follows
/// the token.
pub open spec fn pri_token(s: Seq<char>) -> Option<(int, Seq<char>)> {
    let n = run(s.skip(1), CharClass::Digit) as int;
    let number = decimal(s.subrange(1, 1 + n));
    if s.len() > 0 && s[0] == '<' && n > 0 && 1 + n < s.len() && s[1 + n] == '>' && number <= 191 {
        Some((number as int, s.skip(2 + n)))
    } else {
        None
    }
}

/// The facility and the severity that the priority token at the start of
/// `s` writes, and what follows the token.
pub open spec fn priority(s: Seq<char>) -> Option<((SyslogFacility, SyslogSeverity), Seq<char>)> {
    match pri_token(s) {
        Some((number, rest)) => match pri_parts(number) {
            Some(parts) => Some((parts, rest)),
            None => None,
        },
        None => None,
    }
}

/// The priority token of a facility and a severity: their priority value
/// in decimal between `<` and `>`.
pub open spec fn pri_text(facility: SyslogFacility, severity: SyslogSeverity) -> Seq<char> {
    seq!['<'] + decimal_text(pri_value(facility, severity) as nat) + seq!['>']
}

/// The priority token of a facility and a severity is read back, whatever
/// follows it.
pub proof fn lemma_priority_text(
    facility: SyslogFacility,
    severity: SyslogSeverity,
    tail: Seq<char>,
)
    ensures
        priority(pri_text(facility, severity) + tail) == Some(((facility, severity), tail)),
{
    let value = pri_value(facility, severity) as nat;
    let digits = decimal_text(value);
    let s = pri_text(facility, severity) + tail;
    let n = digits.len() as int;
    lemma_parts_of_value(facility, severity);
    lemma_decimal_text(value);
    assert(s.skip(1) =~= digits + (seq!['>'] + tail));
    lemma_run_before(digits, seq!['>'] + tail, CharClass::Digit);
    assert(s.subrange(1, 1 + n) =~= digits);
    assert(s.skip(2 + n) =~= tail);
}

/// Reads the priority token that starts at `pos`; gives where it ends.
pub(crate) fn pri_at(chars: &Vec<char>, pos: usize) -> (r: Result<
    (usize, SyslogFacility, SyslogSeverity),
    ParseError,
>)
    requires
        pos <= chars.len(),
    ensures
        match priority(chars@.skip(pos as int)) {
            Some((parts, rest)) => r matches Ok((end, facility, severity)) && pos < end
                <= chars.len() && rest == chars@.skip(end as int) && parts == (facility, severity),
            None => r == Err::<(usize, SyslogFacility, SyslogSeverity), ParseError>(
                ParseError::MalformedPriority,
            ),
        },
{
    let ghost s = chars@.skip(pos as int);
    proof {
        if let Some((number, rest)) = pri_token(s) {
            lemma_value_of_parts(number);
        }
    }
    if pos >= chars.len() || chars[pos] != '<' {
        return Err(ParseError::MalformedPriority);
    }
    let end = run_end(chars, pos + 1, CharClass::Digit);
    proof {
        assert(s.skip(1) =~= chars@.skip(pos + 1));
        assert(s.subrange(1, 1 + (end - pos - 1)) =~= chars@.subrange(pos + 1, end as int));
        crate::text::lemma_run(s.skip(1), CharClass::Digit);
        assert(s.skip(1).take(end - pos - 1) =~= chars@.subrange(pos + 1, end as int));
    }
    if end == pos + 1 || end >= chars.len() || chars[end] != '>' {
        return Err(ParseError::MalformedPriority);
    }
    let number = match read_decimal(chars, pos + 1, end) {
        Some(n) => n,
        None => {
            return Err(ParseError::MalformedPriority);
        },
    };
    if number > 191 {
        return Err(ParseError::MalformedPriority);
    }
    proof {
        assert(s.skip(2 + (end - pos - 1)) =~= chars@.skip(end + 1));
        lemma_value_of_parts(number as int);
    }
    match decompose_pri(number as u8) {
        Ok((facility, severity)) => Ok((end + 1, facility, severity)),
        Err(e) => Err(ParseError::MalformedPriority),
    }
}

/// Appends the priority token of a facility and a severity.
pub fn push_pri(out: &mut String, facility: SyslogFacility, severity: SyslogSeverity)
    ensures
        final(out)@ == old(out)@ + pri_text(facility, severity),
{
    push_char(out, '<');
    push_decimal(out, compose_pri(facility, severity) as u32);
    push_char(out, '>');
    proof {
        assert(out@ =~= old(out)@ + pri_text(facility, severity));
    }
}

/// Reads a priority token from the start of `input`. Gives what follows it,
/// the facility and the severity; `MalformedPriority` where `input` does not
/// start with such a token.
pub fn pri(input: &str) -> (r: Result<(&str, (SyslogFacility, SyslogSeverity)), ParseError>)
    ensures
        match priority(input@) {
            Some((parts, rest)) => r matches Ok((left, p)) && left@ == rest && p == parts,
            None => r == Err::<(&str, (SyslogFacility, SyslogSeverity)), ParseError>(
                ParseError::MalformedPriority,
            ),
        },
{
    let chars = chars_of(input);
    proof {
        assert(chars@.skip(0) =~= input@);
    }
    match pri_at(&chars, 0) {
        Ok((end, facility, severity)) => {
            let left = input.substring_char(end, chars.len());
            proof {
                assert(input@.subrange(end as int, chars.len() as int) =~= input@.skip(end as int));
            }
            Ok((left, (facility, severity)))
        },
        Err(e) => Err(ParseError::MalformedPriority),
    }
}

} // verus!
