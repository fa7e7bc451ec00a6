use linkheader::{parse, Encoding, Header, Link, Param, Value};

#[test]
fn single_link() {
    let input = r#"<https://example.org>"#;
    let expected = Header {
        links: vec![Link {
            target: "https://example.org".into(),
            context: None,
            relation: None,
            title: None,
            params: vec![],
        }],
    };

    let actual = parse(input, None).expect("Expect a valid header");

    assert_eq!(actual, expected);
}

#[test]
fn multiple_links() {
    let input =
        r#"<https://example.org/3>; rel="next", <https://example.org/1>; rel="previous""#;
    let expected = Header {
        links: vec![
            Link {
                target: "https://example.org/3".into(),
                context: None,
                relation: Some("next".into()),
                title: None,
                params: vec![],
            },
            Link {
                target: "https://example.org/1".into(),
                context: None,
                relation: Some("previous".into()),
                title: None,
                params: vec![],
            },
        ],
    };

    let actual = parse(input, None).expect("Expect a valid header");

    assert_eq!(actual, expected);
}

#[test]
fn link_header_field_examples_1() {
    let input =
        r#"<http://example.com/TheBook/chapter2>; rel="previous"; title="previous chapter""#;

    let expected = Header {
        links: vec![Link {
            target: "http://example.com/TheBook/chapter2".into(),
            context: None,
            relation: Some("previous".into()),
            title: Some("previous chapter".into()),
            params: vec![],
        }],
    };

    let actual = parse(input, None).expect("Expect a valid header");

    assert_eq!(actual, expected);
}

#[test]
fn link_header_field_examples_2() {
    let input = r#"</>; rel="http://example.net/foo""#;

    let expected = Header {
        links: vec![Link {
            target: "/".into(),
            context: None,
            relation: Some("http://example.net/foo".into()),
            title: None,
            params: vec![],
        }],
    };

    let actual = parse(input, None).expect("Expect a valid header");

    assert_eq!(actual, expected);
}

#[test]
fn link_header_field_examples_3() {
    let input = "</terms>; rel=\"copyright\"; anchor=\"#foo\"";

    let context = url::Url::parse("https://www.example.org/").ok();
    let expected_context = url::Url::parse("https://www.example.org/#foo").ok();

    let expected = Header {
        links: vec![Link {
            target: "/terms".into(),
            context: expected_context,
            relation: Some("copyright".into()),
            title: None,
            params: vec![],
        }],
    };

    let actual = parse(input, context).expect("Expect a valid header");

    assert_eq!(actual, expected);
}

#[test]
fn link_header_field_examples_4() {
    let input = r#"</TheBook/chapter2>; rel="previous"; title*=UTF-8'de'letztes%20Kapitel, </TheBook/chapter4>; rel="next"; title*=UTF-8'de'n%c3%a4chstes%20Kapitel"#;

    let expected = Header {
        links: vec![
            Link {
                target: "/TheBook/chapter2".into(),
                context: None,
                relation: Some("previous".into()),
                title: Some(Value::Compound {
                    value: "letztes Kapitel".into(),
                    encoding: Encoding::Utf8,
                    language: Some("de".into()),
                }),
                params: vec![],
            },
            Link {
                target: "/TheBook/chapter4".into(),
                context: None,
                relation: Some("next".into()),
                title: Some(Value::Compound {
                    value: "nächstes Kapitel".into(),
                    encoding: Encoding::Utf8,
                    language: Some("de".into()),
                }),
                params: vec![],
            },
        ],
    };

    let actual = parse(input, None).expect("Expect a valid header");

    assert_eq!(actual, expected);
}

#[test]
fn link_header_field_examples_5() {
    let input = r#"<http://example.org/>; rel="start http://example.net/relation/other""#;

    let expected = Header {
        links: vec![
            Link {
                target: "http://example.org/".into(),
                context: None,
                relation: Some("start".into()),
                title: None,
                params: vec![],
            },
            Link {
                target: "http://example.org/".into(),
                context: None,
                relation: Some("http://example.net/relation/other".into()),
                title: None,
                params: vec![],
            },
        ],
    };

    let actual = parse(input, None).expect("Expect a valid header");

    assert_eq!(actual, expected);
}

#[test]
fn prefer_star_title() {
    let input = r#"</TheBook/chapter2>; rel="previous"; title="letztes Kapitel"; title*=UTF-8'de'letztes%20Kapitel"#;

    let expected = Header {
        links: vec![Link {
            target: "/TheBook/chapter2".into(),
            context: None,
            relation: Some("previous".into()),
            title: Some(Value::Compound {
                value: "letztes Kapitel".into(),
                encoding: Encoding::Utf8,
                language: Some("de".into()),
            }),
            params: vec![Param::new("title", Some("letztes Kapitel".into()))],
        }],
    };

    let actual = parse(input, None).expect("Expect a valid header");

    assert_eq!(actual, expected);
}

#[test]
fn tolerate_extra_rel() {
    let input = r#"<http://example.org/>; rel="next"; rel="wrong""#;

    let expected = Header {
        links: vec![Link {
            target: "http://example.org/".into(),
            context: None,
            relation: Some("next".into()),
            title: None,
            params: vec![Param::new("rel", Some("wrong".into()))],
        }],
    };

    let actual = parse(input, None).expect("Expect a valid header");

    assert_eq!(actual, expected);
}

#[test]
fn preserve_context() {
    let input = r#"<http://example.org/>; rel="next""#;

    let context = url::Url::parse("https://www.foobar.com").ok();

    let expected = Header {
        links: vec![Link {
            target: "http://example.org/".into(),
            context: context.clone(),
            relation: Some("next".into()),
            title: None,
            params: vec![],
        }],
    };

    let actual = parse(input, context).expect("Expect a valid header");

    assert_eq!(actual, expected);
}

#[test]
fn ignore_anchor_with_no_context() {
    let input = r##"<http://example.org/>; rel="next"; anchor="#foo""##;

    let expected = Header {
        links: vec![Link {
            target: "http://example.org/".into(),
            context: None,
            relation: Some("next".into()),
            title: None,
            params: vec![Param::new("anchor", Some("#foo".into()))],
        }],
    };

    let actual = parse(input, None).expect("Expect a valid header");

    assert_eq!(actual, expected);
}

#[test]
fn tolerate_extra_anchor() {
    let input = "</terms>; rel=\"copyright\"; anchor=\"#foo\"; anchor=\"#bar\"";

    let context = url::Url::parse("https://www.example.org/").ok();
    let expected_context = url::Url::parse("https://www.example.org/#foo").ok();

    let expected = Header {
        links: vec![Link {
            target: "/terms".into(),
            context: expected_context,
            relation: Some("copyright".into()),
            title: None,
            params: vec![Param::new("anchor", Some("#bar".into()))],
        }],
    };

    let actual = parse(input, context).expect("Expect a valid header");

    assert_eq!(actual, expected);
}

#[test]
fn unicode_fest() {
    let input = "<http://example.org/\u{FE0F}>; rel=\"\u{1F383}\"";

    let expected = Header {
        links: vec![Link {
            target: "http://example.org/\u{FE0F}".into(),
            context: None,
            relation: Some("🎃".into()),
            title: None,
            params: vec![],
        }],
    };

    let actual = parse(input, None).expect("Expect a valid header");

    assert_eq!(actual, expected);
}
