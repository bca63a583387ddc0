use syslog_loose::timestamp::Timestamp;

#[test]
fn rfc3339_text_of_a_utc_instant() {
    let ts = Timestamp::new(2019, 10, 11, 22, 14, 15, 0, 0).unwrap();
    assert_eq!(ts.to_rfc3339(), "2019-10-11T22:14:15+00:00");
}

#[test]
fn rfc3339_text_is_read_back() {
    let ts = Timestamp::new(2003, 10, 11, 22, 14, 15, 3_000_000, 3600).unwrap();
    let text = ts.to_rfc3339();
    assert_eq!(text, "2003-10-11T23:14:15.003+01:00");
    let back = Timestamp::parse_from_rfc3339(&text).unwrap();
    assert_eq!(back, ts);
    assert_eq!(back.offset(), 3600);
}

#[test]
fn dates_that_do_not_exist_are_refused() {
    assert!(Timestamp::new(2019, 2, 29, 0, 0, 0, 0, 0).is_none());
    assert!(Timestamp::new(2020, 2, 29, 0, 0, 0, 0, 0).is_some());
    assert!(Timestamp::new(1900, 2, 29, 0, 0, 0, 0, 0).is_none());
    assert!(Timestamp::new(2000, 2, 29, 0, 0, 0, 0, 0).is_some());
    assert!(Timestamp::new(2019, 4, 31, 0, 0, 0, 0, 0).is_none());
    assert!(Timestamp::new(2019, 13, 1, 0, 0, 0, 0, 0).is_none());
    assert!(Timestamp::new(2019, 0, 1, 0, 0, 0, 0, 0).is_none());
    assert!(Timestamp::new(2019, 1, 0, 0, 0, 0, 0, 0).is_none());
    assert!(Timestamp::new(262142, 12, 31, 0, 0, 0, 0, 0).is_some());
    assert!(Timestamp::new(262143, 1, 1, 0, 0, 0, 0, 0).is_none());
    assert!(Timestamp::new(-262143, 1, 1, 0, 0, 0, 0, 0).is_some());
    assert!(Timestamp::new(-262144, 12, 31, 0, 0, 0, 0, 0).is_none());
}
