use syslog_loose::error::{HeaderField, HeaderParseFailed, ParseError};
use syslog_loose::header::Header;
use syslog_loose::pri::{SyslogFacility, SyslogSeverity};
use syslog_loose::rfc3164::{
    header, header_in_year, make_timestamp, parse_month, timestamp, timestamp_in_year,
};
use syslog_loose::timestamp::Timestamp;

#[test]
fn parse_timestamp_3164() {
    assert_eq!(
        timestamp("Dec 28 16:49:07").unwrap(),
        ("", (12, 28, 16, 49, 7))
    );
}

#[test]
fn parse_3164_header_timestamp() {
    assert_eq!(
        header("<34>Oct 11 22:14:15: a message", |_| 2019).unwrap(),
        (
            "a message",
            Header {
                facility: Some(SyslogFacility::LOG_AUTH),
                severity: Some(SyslogSeverity::SEV_CRIT),
                timestamp: Some(Timestamp::new(2019, 10, 11, 22, 14, 15, 0, 0).unwrap()),
                hostname: None,
                version: None,
                appname: None,
                procid: None,
                msgid: None,
            }
        )
    );
}

#[test]
fn parse_3164_header_timestamp_host() {
    assert_eq!(
        header("<34>Oct 11 22:14:15 mymachine: a message", |_| 2019).unwrap(),
        (
            "a message",
            Header {
                facility: Some(SyslogFacility::LOG_AUTH),
                severity: Some(SyslogSeverity::SEV_CRIT),
                timestamp: Some(Timestamp::new(2019, 10, 11, 22, 14, 15, 0, 0).unwrap()),
                hostname: Some("mymachine"),
                version: None,
                appname: None,
                procid: None,
                msgid: None,
            }
        )
    );
}

#[test]
fn every_month_has_its_number() {
    let names = [
        "Jan", "Feb", "Mar", "Apr", "May", "Jun", "Jul", "Aug", "Sep", "Oct", "Nov", "Dec",
    ];
    for (i, name) in names.iter().enumerate() {
        assert_eq!(parse_month(name), Ok(i as u32 + 1));
    }
}

#[test]
fn other_tokens_are_no_month() {
    assert_eq!(parse_month("jan"), Err(ParseError::InvalidMonth));
    assert_eq!(parse_month("JAN"), Err(ParseError::InvalidMonth));
    assert_eq!(parse_month("Ja"), Err(ParseError::InvalidMonth));
    assert_eq!(parse_month("June"), Err(ParseError::InvalidMonth));
    assert_eq!(parse_month(""), Err(ParseError::InvalidMonth));
    assert_eq!(parse_month("Okt"), Err(ParseError::InvalidMonth));
}

#[test]
fn timestamp_takes_any_run_of_blanks() {
    assert_eq!(
        timestamp("Feb  5\t01:02:03 rest"),
        Ok((" rest", (2, 5, 1, 2, 3)))
    );
}

#[test]
fn timestamp_failures() {
    assert_eq!(timestamp("Foo 28 16:49:07"), Err(ParseError::InvalidMonth));
    assert_eq!(timestamp("De"), Err(ParseError::InvalidMonth));
    assert_eq!(timestamp("Dec28 16:49:07"), Err(ParseError::InvalidTimestamp));
    assert_eq!(timestamp("Dec 28 16:49"), Err(ParseError::InvalidTimestamp));
    assert_eq!(timestamp("Dec 28 16-49-07"), Err(ParseError::InvalidTimestamp));
    assert_eq!(timestamp("Dec 28  :49:07"), Err(ParseError::InvalidTimestamp));
    assert_eq!(
        timestamp("Dec 99999999999 16:49:07"),
        Err(ParseError::InvalidTimestamp)
    );
}

#[test]
fn the_grammar_does_not_judge_the_numbers() {
    assert_eq!(timestamp("Feb 31 25:61:99"), Ok(("", (2, 31, 25, 61, 99))));
}

#[test]
fn year_makes_the_timestamp() {
    let ts = timestamp_in_year((2, 29, 12, 0, 0), 2020).unwrap();
    assert_eq!(ts, Timestamp::new(2020, 2, 29, 12, 0, 0, 0, 0).unwrap());
    assert_eq!(ts.offset(), 0);
    assert_eq!(timestamp_in_year((2, 29, 12, 0, 0), 2019), None);
    assert_eq!(timestamp_in_year((2, 28, 24, 0, 0), 2019), None);
    assert_eq!(timestamp_in_year((2, 28, 23, 60, 0), 2019), None);
    assert_eq!(timestamp_in_year((2, 28, 23, 59, 60), 2019), None);
}

#[test]
fn year_strategy_sees_the_date() {
    let ts = make_timestamp((12, 28, 16, 49, 7), |(month, _, _, _, _)| {
        if month > 6 {
            2018
        } else {
            2019
        }
    });
    assert_eq!(ts, Timestamp::new(2018, 12, 28, 16, 49, 7, 0, 0));
}

#[test]
fn header_with_host_and_application() {
    let (rest, h) = header_in_year("<13>Feb  5 17:32:18 10.0.0.99 su: 'su root' failed", 2021)
        .unwrap();
    assert_eq!(rest, "'su root' failed");
    assert_eq!(h.facility, Some(SyslogFacility::LOG_USER));
    assert_eq!(h.severity, Some(SyslogSeverity::SEV_NOTICE));
    assert_eq!(h.hostname, Some("10.0.0.99"));
    assert_eq!(h.appname, Some("su"));
    assert_eq!(h.procid, None);
    assert_eq!(h.msgid, None);
    assert_eq!(h.version, None);
}

#[test]
fn without_a_colon_two_words_are_taken_for_names() {
    let (rest, h) = header_in_year("<34>Oct 11 22:14:15 a message", 2019).unwrap();
    assert_eq!(h.hostname, Some("a"));
    assert_eq!(h.appname, Some("message"));
    assert_eq!(rest, "");
}

#[test]
fn a_dash_is_a_missing_name() {
    let (rest, h) = header_in_year("<34>Oct 11 22:14:15 - app: text", 2019).unwrap();
    assert_eq!(h.hostname, None);
    assert_eq!(h.appname, Some("app"));
    assert_eq!(rest, "text");
}

#[test]
fn blanks_before_a_colon_stay_with_the_message() {
    let (rest, h) = header_in_year("<34>Oct 11 22:14:15  : text", 2019).unwrap();
    assert_eq!(h.hostname, None);
    assert_eq!(h.appname, None);
    assert_eq!(rest, ": text");
}

#[test]
fn header_failures_name_the_field() {
    assert_eq!(
        header_in_year("34>Oct 11 22:14:15: a message", 2019),
        Err(HeaderParseFailed {
            field: HeaderField::Priority,
            position: 0,
            cause: ParseError::MalformedPriority
        })
    );
    assert_eq!(
        header_in_year("<34> Okt 11 22:14:15: a message", 2019),
        Err(HeaderParseFailed {
            field: HeaderField::Timestamp,
            position: 5,
            cause: ParseError::InvalidMonth
        })
    );
    assert_eq!(
        header_in_year("<34>Oct 11 22:14: a message", 2019),
        Err(HeaderParseFailed {
            field: HeaderField::Timestamp,
            position: 4,
            cause: ParseError::InvalidTimestamp
        })
    );
    assert_eq!(
        header_in_year("<34>Feb 29 22:14:15: a message", 2019),
        Err(HeaderParseFailed {
            field: HeaderField::Timestamp,
            position: 4,
            cause: ParseError::InvalidTimestamp
        })
    );
}

#[test]
fn text_beyond_ascii_is_kept() {
    let (rest, h) = header_in_year("<34>Oct 11 22:14:15 höst äpp: grüße", 2019).unwrap();
    assert_eq!(h.hostname, Some("höst"));
    assert_eq!(h.appname, Some("äpp"));
    assert_eq!(rest, "grüße");
}
