use syslog_loose::error::ParseError;
use syslog_loose::structured_data::{
    escape, parse_element, parse_structured_data, unescape, StructuredElement,
};

fn element(id: &str, params: &[(&str, &str)]) -> StructuredElement<String> {
    StructuredElement {
        id: id.to_string(),
        params: params
            .iter()
            .map(|(n, v)| (n.to_string(), v.to_string()))
            .collect(),
    }
}

#[test]
fn escape_puts_a_backslash_before_the_three() {
    assert_eq!(escape("plain"), "plain");
    assert_eq!(escape(""), "");
    assert_eq!(escape("a\"b"), "a\\\"b");
    assert_eq!(escape("a\\b"), "a\\\\b");
    assert_eq!(escape("a]b"), "a\\]b");
    assert_eq!(escape("\"\\]"), "\\\"\\\\\\]");
    assert_eq!(escape("[=x "), "[=x ");
}

#[test]
fn escape_is_applied_to_what_is_escaped_already() {
    assert_eq!(escape("\\\""), "\\\\\\\"");
    assert_eq!(unescape(&escape("\\\"")), "\\\"");
}

#[test]
fn unescape_drops_the_escaping_backslashes_only() {
    assert_eq!(unescape("a\\\"b"), "a\"b");
    assert_eq!(unescape("a\\\\b"), "a\\b");
    assert_eq!(unescape("a\\]b"), "a]b");
    assert_eq!(unescape("a\\nb"), "a\\nb");
    assert_eq!(unescape("end\\"), "end\\");
    assert_eq!(unescape("\\\\\\\\"), "\\\\");
    assert_eq!(unescape("\\\\]"), "\\]");
}

#[test]
fn unescape_undoes_escape() {
    for value in [
        "", "\"", "\\", "]", "\"\\]", "]\\\"", "\\\\", "\\]", "a\"b\\c]d", "\\\"\\\\\\]", "ünï]cödé\"",
        "]]]", "\"\"\"", "\\\\\\",
    ] {
        assert_eq!(unescape(&escape(value)), value);
    }
}

#[test]
fn element_is_written_with_its_parameters_in_order() {
    let e = element("exampleSDID@32473", &[("iut", "3"), ("eventSource", "Application")]);
    assert_eq!(
        e.render(),
        "[exampleSDID@32473 iut=\"3\" eventSource=\"Application\"]"
    );
    assert_eq!(element("id", &[]).render(), "[id]");
    assert_eq!(
        element("id", &[("k", "a]b\"c\\d")]).render(),
        "[id k=\"a\\]b\\\"c\\\\d\"]"
    );
    let borrowed = StructuredElement {
        id: "x",
        params: vec![("b", "2"), ("a", "1")],
    };
    assert_eq!(borrowed.render(), "[x b=\"2\" a=\"1\"]");
    let mut out = String::from(">");
    borrowed.render_into(&mut out);
    assert_eq!(out, ">[x b=\"2\" a=\"1\"]");
}

#[test]
fn element_is_read() {
    assert_eq!(
        parse_element("[exampleSDID@32473 iut=\"3\" eventSource=\"Application\" eventID=\"1011\"] rest"),
        Ok((
            " rest",
            element(
                "exampleSDID@32473",
                &[("iut", "3"), ("eventSource", "Application"), ("eventID", "1011")]
            )
        ))
    );
    assert_eq!(parse_element("[id]"), Ok(("", element("id", &[]))));
    assert_eq!(
        parse_element("[id k=\"\"][next]"),
        Ok(("[next]", element("id", &[("k", "")])))
    );
}

#[test]
fn values_are_held_without_their_escapes() {
    assert_eq!(
        parse_element("[id k=\"a\\]b\\\"c\\\\d\" l=\"x\\ny\"]"),
        Ok(("", element("id", &[("k", "a]b\"c\\d"), ("l", "x\\ny")])))
    );
    assert_eq!(
        parse_element("[id k=\"[a b=c\"]"),
        Ok(("", element("id", &[("k", "[a b=c")])))
    );
}

#[test]
fn element_failures() {
    for text in [
        "",
        "id]",
        "[",
        "[]",
        "[ id]",
        "[id",
        "[id k=\"v\"",
        "[id k=\"v]",
        "[id k=\"v\\\"]",
        "[id k=v]",
        "[id k]",
        "[id =\"v\"]",
        "[id k=\"v\" ]",
        "[id  k=\"v\"]",
        "[id k=\"v\"l=\"w\"]",
        "[i=d]",
        "[i\"d]",
        "[id k\"=\"v\"]",
    ] {
        assert_eq!(
            parse_element(text),
            Err(ParseError::MalformedStructuredData),
            "{}",
            text
        );
    }
}

#[test]
fn structured_data_is_a_dash_or_elements() {
    assert_eq!(parse_structured_data("- text"), Ok((" text", vec![])));
    assert_eq!(parse_structured_data("-"), Ok(("", vec![])));
    assert_eq!(
        parse_structured_data("[a x=\"1\"][b] text"),
        Ok((" text", vec![element("a", &[("x", "1")]), element("b", &[])]))
    );
    assert_eq!(
        parse_structured_data("[a] [b]"),
        Ok((" [b]", vec![element("a", &[])]))
    );
}

#[test]
fn structured_data_failures() {
    for text in ["", " -", "text", "[a][b", "[a]["] {
        assert_eq!(
            parse_structured_data(text),
            Err(ParseError::MalformedStructuredData),
            "{}",
            text
        );
    }
}

#[test]
fn written_elements_are_read_back() {
    let all = vec![
        element("a@1", &[("k", "v]\"\\"), ("k", "")]),
        element("b", &[]),
        element("ç", &[("ñ", "[x y=\"z\"]")]),
    ];
    let mut text = String::new();
    for e in &all {
        e.render_into(&mut text);
    }
    text.push_str(" tail");
    assert_eq!(parse_structured_data(&text), Ok((" tail", all)));
}

#[test]
fn elements_are_equal_by_identifier_and_ordered_parameters() {
    let a = element("id", &[("a", "1"), ("b", "2")]);
    assert!(a == element("id", &[("a", "1"), ("b", "2")]));
    assert!(a != element("id", &[("b", "2"), ("a", "1")]));
    assert!(a != element("id", &[("a", "1")]));
    assert!(a != element("id", &[("a", "1"), ("b", "3")]));
    assert!(a != element("id", &[("a", "1"), ("c", "2")]));
    assert!(a != element("other", &[("a", "1"), ("b", "2")]));
}

#[test]
fn borrowed_element_is_copied() {
    let borrowed = StructuredElement {
        id: "id",
        params: vec![("a", "1"), ("b", "2]")],
    };
    assert_eq!(borrowed.owned(), element("id", &[("a", "1"), ("b", "2]")]));
    let owned: StructuredElement<String> = borrowed.into();
    assert_eq!(owned, element("id", &[("a", "1"), ("b", "2]")]));
}
