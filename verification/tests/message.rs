use syslog_loose::header::Header;
use syslog_loose::message::{Message, Protocol};
use syslog_loose::pri::{SyslogFacility, SyslogSeverity};
use syslog_loose::rfc3164;
use syslog_loose::rfc5424::parse_structured;
use syslog_loose::structured_data::StructuredElement;
use syslog_loose::timestamp::Timestamp;

fn sample() -> Message<String> {
    Message {
        protocol: Protocol::RFC5424(1),
        facility: Some(SyslogFacility::LOG_LOCAL4),
        severity: Some(SyslogSeverity::SEV_NOTICE),
        timestamp: Some(Timestamp::new(2003, 10, 11, 22, 14, 15, 3_000_000, 0).unwrap()),
        hostname: Some("mymachine.example.com".to_string()),
        appname: Some("evntslog".to_string()),
        procid: None,
        msgid: Some("ID47".to_string()),
        structured_data: vec![StructuredElement {
            id: "exampleSDID@32473".to_string(),
            params: vec![
                ("iut".to_string(), "3".to_string()),
                ("note".to_string(), "a \"b\" [c] \\d".to_string()),
            ],
        }],
        msg: "An application event log entry".to_string(),
    }
}

fn epoch() -> Timestamp {
    Timestamp::new(1970, 1, 1, 0, 0, 0, 0, 0).unwrap()
}

#[test]
fn line_of_a_structured_message() {
    assert_eq!(
        sample().render(),
        "<165>1 2003-10-11T22:14:15.003+00:00 mymachine.example.com evntslog - ID47 [exampleSDID@32473 iut=\"3\" note=\"a \\\"b\\\" [c\\] \\\\d\"] An application event log entry"
    );
}

#[test]
fn line_without_elements_has_a_dash_in_the_structured_format() {
    let mut m = sample();
    m.structured_data.clear();
    assert_eq!(
        m.render(),
        "<165>1 2003-10-11T22:14:15.003+00:00 mymachine.example.com evntslog - ID47 - An application event log entry"
    );
}

#[test]
fn line_without_elements_has_nothing_there_in_the_bsd_format() {
    let mut m = sample();
    m.structured_data.clear();
    m.protocol = Protocol::RFC3164;
    assert_eq!(
        m.render(),
        "<165> 2003-10-11T22:14:15.003+00:00 mymachine.example.com evntslog - ID47  An application event log entry"
    );
}

#[test]
fn line_of_a_message_with_nothing_in_it() {
    let m = Message {
        protocol: Protocol::RFC5424(1),
        facility: None,
        severity: None,
        timestamp: None,
        hostname: None,
        appname: None,
        procid: None,
        msgid: None,
        structured_data: vec![],
        msg: "",
    };
    assert_eq!(m.render_at(&epoch()), "<47>1 1970-01-01T00:00:00+00:00 - - - - - ");
    assert_eq!(m.facility, None);
    assert_eq!(m.severity, None);
    assert_eq!(m.timestamp, None);
}

#[test]
fn line_without_a_timestamp_carries_the_time_of_the_call() {
    let mut m = sample();
    m.timestamp = None;
    let before = Timestamp::now();
    let line = m.render();
    let after = Timestamp::now();
    let back = parse_structured(&line).unwrap();
    let at = back.timestamp.unwrap();
    let key = |t: &Timestamp| {
        (t.year(), t.month(), t.day(), t.hour(), t.minute(), t.second(), t.nanosecond())
    };
    assert!(key(&before) <= key(&at) && key(&at) <= key(&after));
    assert_eq!(at.offset(), 0);
}

#[test]
fn the_given_time_is_written_only_where_the_message_has_none() {
    let m = sample();
    assert_eq!(m.render_at(&epoch()), m.render());
}

#[test]
fn version_and_offset_are_written() {
    let mut m = sample();
    m.protocol = Protocol::RFC5424(4_294_967_295);
    m.timestamp = Some(Timestamp::new(2019, 12, 31, 23, 30, 0, 0, 3600).unwrap());
    m.structured_data.clear();
    m.msg = String::new();
    assert_eq!(
        m.render(),
        "<165>4294967295 2020-01-01T00:30:00+01:00 mymachine.example.com evntslog - ID47 - "
    );
}

#[test]
fn structured_line_is_read_back() {
    let m = sample();
    assert_eq!(parse_structured(&m.render()), Ok(m));
}

#[test]
fn structured_lines_are_read_back() {
    let texts = ["", " ", "[x] y", "- -", "text with  spaces ", "ünï cödé"];
    let names = [None, Some("a"), Some("--"), Some("[x]"), Some("a:b=c\"d]")];
    let data = [
        vec![],
        vec![StructuredElement {
            id: "a".to_string(),
            params: vec![],
        }],
        vec![
            StructuredElement {
                id: "a@1".to_string(),
                params: vec![("k".to_string(), "]\\\"".to_string())],
            },
            StructuredElement {
                id: "b".to_string(),
                params: vec![
                    ("k".to_string(), "".to_string()),
                    ("k".to_string(), " [c d=\"e\"] ".to_string()),
                ],
            },
        ],
    ];
    let stamps = [
        Timestamp::new(2003, 10, 11, 22, 14, 15, 0, 0).unwrap(),
        Timestamp::new(1, 1, 1, 0, 0, 0, 123_456_789, -3600).unwrap(),
        Timestamp::new(9998, 12, 31, 23, 59, 59, 999_000_000, 86_340).unwrap(),
    ];
    let mut count = 0;
    for (i, text) in texts.iter().enumerate() {
        for (j, name) in names.iter().enumerate() {
            for (k, elements) in data.iter().enumerate() {
                let stamp = stamps[(i + j + k) % stamps.len()];
                let m = Message {
                    protocol: Protocol::RFC5424((i * 7 + j) as u32),
                    facility: SyslogFacility::from_int(((i + 5 * j + k) % 24) as u8),
                    severity: SyslogSeverity::from_int(((i + j + 3 * k) % 8) as u8),
                    timestamp: Some(stamp),
                    hostname: name.map(|s| s.to_string()),
                    appname: names[(j + 1) % names.len()].map(|s| s.to_string()),
                    procid: names[(j + 2) % names.len()].map(|s| s.to_string()),
                    msgid: names[(j + 3) % names.len()].map(|s| s.to_string()),
                    structured_data: elements.clone(),
                    msg: text.to_string(),
                };
                let back = parse_structured(&m.render()).unwrap();
                assert_eq!(back, m);
                assert_eq!(back.protocol, m.protocol);
                assert_eq!(back.timestamp.unwrap().offset(), stamp.offset());
                count += 1;
            }
        }
    }
    assert_eq!(count, 90);
}

#[test]
fn defaults_are_what_comes_back_for_a_missing_facility_and_severity() {
    let mut m = sample();
    m.facility = None;
    m.severity = None;
    let back = parse_structured(&m.render()).unwrap();
    assert_eq!(back.facility, Some(SyslogFacility::LOG_SYSLOG));
    assert_eq!(back.severity, Some(SyslogSeverity::SEV_DEBUG));
    assert!(back != m);
    m.facility = back.facility;
    m.severity = back.severity;
    assert!(back == m);
}

#[test]
fn messages_that_differ_in_format_alone_are_equal() {
    let a = sample();
    let mut b = sample();
    b.protocol = Protocol::RFC3164;
    assert!(a == b);
    b.protocol = Protocol::RFC5424(2);
    assert!(a == b);
}

#[test]
fn messages_that_differ_in_a_field_are_not_equal() {
    let a = sample();
    let changes: Vec<fn(&mut Message<String>)> = vec![
        |m| m.facility = None,
        |m| m.facility = Some(SyslogFacility::LOG_USER),
        |m| m.severity = Some(SyslogSeverity::SEV_ERR),
        |m| m.timestamp = None,
        |m| m.timestamp = Timestamp::new(2003, 10, 11, 22, 14, 15, 3_000_001, 0),
        |m| m.hostname = None,
        |m| m.hostname = Some("other".to_string()),
        |m| m.appname = Some("other".to_string()),
        |m| m.procid = Some("1".to_string()),
        |m| m.msgid = None,
        |m| m.msg.push('!'),
        |m| m.structured_data.clear(),
        |m| m.structured_data[0].params.reverse(),
        |m| m.structured_data[0].id.push('!'),
        |m| {
            let e = m.structured_data[0].clone();
            m.structured_data.push(e)
        },
    ];
    for change in changes {
        let mut b = sample();
        change(&mut b);
        assert!(a != b, "{:?}", b);
    }
}

#[test]
fn timestamps_are_compared_as_instants() {
    let a = sample();
    let mut b = sample();
    b.timestamp = Some(Timestamp::new(2003, 10, 11, 22, 14, 15, 3_000_000, -7200).unwrap());
    assert!(a == b);
    assert!(a.render() != b.render());
}

#[test]
fn borrowed_message_is_copied() {
    let line = "<34>Oct 11 22:14:15 mymachine su: 'su root' failed";
    let (rest, header) = rfc3164::header(line, |_| 2019).unwrap();
    let borrowed = Message::from_parts(header, vec![], rest);
    assert_eq!(borrowed.protocol, Protocol::RFC3164);
    assert_eq!(borrowed.hostname, Some("mymachine"));
    assert_eq!(borrowed.appname, Some("su"));
    assert_eq!(borrowed.msg, "'su root' failed");
    let text = borrowed.render();
    let owned: Message<String> = borrowed.into();
    assert_eq!(
        owned,
        Message {
            protocol: Protocol::RFC3164,
            facility: Some(SyslogFacility::LOG_AUTH),
            severity: Some(SyslogSeverity::SEV_CRIT),
            timestamp: Timestamp::new(2019, 10, 11, 22, 14, 15, 0, 0),
            hostname: Some("mymachine".to_string()),
            appname: Some("su".to_string()),
            procid: None,
            msgid: None,
            structured_data: vec![],
            msg: "'su root' failed".to_string(),
        }
    );
    assert_eq!(owned.protocol, Protocol::RFC3164);
    assert_eq!(owned.render(), text);
    assert_eq!(
        text,
        "<34> 2019-10-11T22:14:15+00:00 mymachine su - -  'su root' failed"
    );
}

#[test]
fn borrowed_elements_are_copied_with_their_message() {
    let borrowed = Message {
        protocol: Protocol::RFC5424(1),
        facility: None,
        severity: Some(SyslogSeverity::SEV_INFO),
        timestamp: None,
        hostname: Some("h"),
        appname: None,
        procid: Some("p"),
        msgid: Some("m"),
        structured_data: vec![
            StructuredElement {
                id: "a",
                params: vec![("k", "v"), ("l", "w]")],
            },
            StructuredElement {
                id: "b",
                params: vec![],
            },
        ],
        msg: "text",
    };
    let text = borrowed.render_at(&epoch());
    let owned: Message<String> = borrowed.into();
    assert_eq!(owned.protocol, Protocol::RFC5424(1));
    assert_eq!(owned.facility, None);
    assert_eq!(owned.severity, Some(SyslogSeverity::SEV_INFO));
    assert_eq!(owned.timestamp, None);
    assert_eq!(owned.hostname.as_deref(), Some("h"));
    assert_eq!(owned.appname, None);
    assert_eq!(owned.procid.as_deref(), Some("p"));
    assert_eq!(owned.msgid.as_deref(), Some("m"));
    assert_eq!(owned.structured_data.len(), 2);
    assert_eq!(owned.structured_data[0].id, "a");
    assert_eq!(
        owned.structured_data[0].params,
        vec![
            ("k".to_string(), "v".to_string()),
            ("l".to_string(), "w]".to_string())
        ]
    );
    assert_eq!(owned.structured_data[1].id, "b");
    assert!(owned.structured_data[1].params.is_empty());
    assert_eq!(owned.msg, "text");
    assert_eq!(owned.render_at(&epoch()), text);
    assert_eq!(
        text,
        "<46>1 1970-01-01T00:00:00+00:00 h - p m [a k=\"v\" l=\"w\\]\"][b] text"
    );
}

#[test]
fn a_timestamp_whose_offset_is_no_whole_minute_is_not_read_back() {
    let mut m = sample();
    m.timestamp = Some(Timestamp::new(2019, 1, 1, 0, 0, 0, 0, 30).unwrap());
    let back = parse_structured(&m.render()).unwrap();
    assert!(back != m);
    m.timestamp = Some(Timestamp::new(10_000, 1, 1, 0, 0, 0, 0, 0).unwrap());
    assert!(parse_structured(&m.render()).is_err());
}

#[test]
fn message_of_a_structured_header() {
    let header = Header {
        facility: None,
        severity: None,
        timestamp: None,
        hostname: None,
        version: Some(3),
        appname: None,
        procid: Some("1"),
        msgid: Some("2"),
    };
    let m = Message::from_parts(header, vec![], "text");
    assert_eq!(m.protocol, Protocol::RFC5424(3));
    assert_eq!(m.procid, Some("1"));
    assert_eq!(m.msgid, Some("2"));
    assert_eq!(m.msg, "text");
}
