use syslog_loose::error::ParseError;
use syslog_loose::pri::{
    compose_pri, decompose_pri, pri, push_pri, SyslogFacility, SyslogSeverity,
};

#[test]
fn compose_is_facility_times_eight_plus_severity() {
    assert_eq!(compose_pri(SyslogFacility::LOG_AUTH, SyslogSeverity::SEV_CRIT), 34);
    assert_eq!(compose_pri(SyslogFacility::LOG_KERN, SyslogSeverity::SEV_EMERG), 0);
    assert_eq!(compose_pri(SyslogFacility::LOG_LOCAL7, SyslogSeverity::SEV_DEBUG), 191);
    assert_eq!(compose_pri(SyslogFacility::LOG_SYSLOG, SyslogSeverity::SEV_DEBUG), 47);
    assert_eq!(compose_pri(SyslogFacility::LOG_LOCAL4, SyslogSeverity::SEV_NOTICE), 165);
}

#[test]
fn decompose_gives_back_what_compose_took() {
    for f in 0u8..24 {
        for s in 0u8..8 {
            let facility = SyslogFacility::from_int(f).unwrap();
            let severity = SyslogSeverity::from_int(s).unwrap();
            assert_eq!(facility.to_int(), f);
            assert_eq!(severity.to_int(), s);
            let value = compose_pri(facility, severity);
            assert_eq!(value, f * 8 + s);
            assert_eq!(decompose_pri(value), Ok((facility, severity)));
        }
    }
}

#[test]
fn decompose_refuses_what_is_above_191() {
    for value in 192u8..=255 {
        assert_eq!(decompose_pri(value), Err(ParseError::OutOfRange));
    }
    assert!(decompose_pri(191).is_ok());
    assert_eq!(SyslogFacility::from_int(24), None);
    assert_eq!(SyslogSeverity::from_int(8), None);
}

#[test]
fn pri_token() {
    assert_eq!(
        pri("<34>Oct"),
        Ok(("Oct", (SyslogFacility::LOG_AUTH, SyslogSeverity::SEV_CRIT)))
    );
    assert_eq!(
        pri("<0>"),
        Ok(("", (SyslogFacility::LOG_KERN, SyslogSeverity::SEV_EMERG)))
    );
    assert_eq!(
        pri("<191>1 "),
        Ok(("1 ", (SyslogFacility::LOG_LOCAL7, SyslogSeverity::SEV_DEBUG)))
    );
    assert_eq!(
        pri("<007>x"),
        Ok(("x", (SyslogFacility::LOG_KERN, SyslogSeverity::SEV_DEBUG)))
    );
}

#[test]
fn pri_token_failures() {
    for text in [
        "", "<", "<>", "<34", "34>", "<3a>", "<+34>", "<-1>", "< 34>", "<192>", "<1000>",
        "<99999999999999999999>", " <34>", "<34 >",
    ] {
        assert_eq!(pri(text), Err(ParseError::MalformedPriority), "{}", text);
    }
}

#[test]
fn pri_token_is_written() {
    let mut out = String::from("x");
    push_pri(&mut out, SyslogFacility::LOG_AUTH, SyslogSeverity::SEV_CRIT);
    assert_eq!(out, "x<34>");
    push_pri(&mut out, SyslogFacility::LOG_KERN, SyslogSeverity::SEV_EMERG);
    assert_eq!(out, "x<34><0>");
    push_pri(&mut out, SyslogFacility::LOG_LOCAL7, SyslogSeverity::SEV_DEBUG);
    assert_eq!(out, "x<34><0><191>");
}

#[test]
fn written_pri_token_is_read_back() {
    for f in 0u8..24 {
        for s in 0u8..8 {
            let facility = SyslogFacility::from_int(f).unwrap();
            let severity = SyslogSeverity::from_int(s).unwrap();
            let mut text = String::new();
            push_pri(&mut text, facility, severity);
            text.push_str("1 tail");
            assert_eq!(pri(&text), Ok(("1 tail", (facility, severity))));
        }
    }
}
