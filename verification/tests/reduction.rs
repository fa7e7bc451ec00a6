use linkheader::context::compose_context;
use linkheader::error::ParserError;
use linkheader::grammar::{Pair, Rfc8288Parser, Rule};
use linkheader::parser::{collect_header, collect_links, collect_param, LinkBuilder};
use linkheader::{parse, Encoding, Header, Link, Param, Value};

fn leaf(rule: Rule, text: &str) -> Pair {
    Pair {
        rule,
        text: text.to_string(),
        inner: vec![],
    }
}

fn node(rule: Rule, text: &str, inner: Vec<Pair>) -> Pair {
    Pair {
        rule,
        text: text.to_string(),
        inner,
    }
}

#[test]
fn relation_explosion() {
    let actual = parse("<u>; rel=\"a b\"", None).expect("Expect a valid header");

    let expected = Header {
        links: vec![
            Link {
                target: "u".into(),
                context: None,
                relation: Some("a".into()),
                title: None,
                params: vec![],
            },
            Link {
                target: "u".into(),
                context: None,
                relation: Some("b".into()),
                title: None,
                params: vec![],
            },
        ],
    };

    assert_eq!(actual, expected);
}

#[test]
fn exploded_links_share_context_title_and_params() {
    let context = url::Url::parse("https://www.example.org/a").ok();
    let actual = parse(
        "<u>; rel=\"a b\"; title=T; hreflang=de; anchor=\"#x\"",
        context,
    )
    .expect("Expect a valid header");

    let anchored = url::Url::parse("https://www.example.org/a#x").ok();
    assert_eq!(actual.links.len(), 2);
    assert_eq!(actual.links[0].relation, Some("a".into()));
    assert_eq!(actual.links[1].relation, Some("b".into()));
    for link in actual.links.iter() {
        assert_eq!(link.target, "u".into());
        assert_eq!(link.context, anchored);
        assert_eq!(link.title, Some("T".into()));
        assert_eq!(link.params, vec![Param::new("hreflang", Some("de".into()))]);
    }
}

#[test]
fn empty_relation_tokens_are_dropped() {
    let actual = parse("<u>; rel=\" a  b \"", None).expect("Expect a valid header");

    assert_eq!(actual.links.len(), 2);
    assert_eq!(actual.links[0].relation, Some("a".into()));
    assert_eq!(actual.links[1].relation, Some("b".into()));
}

#[test]
fn rel_without_tokens_gives_one_link_without_relation() {
    let actual = parse("<u>; rel=\"\"; rel=next", None).expect("Expect a valid header");

    let expected = Header {
        links: vec![Link {
            target: "u".into(),
            context: None,
            relation: None,
            title: None,
            params: vec![Param::new("rel", Some("next".into()))],
        }],
    };

    assert_eq!(actual, expected);
}

#[test]
fn rel_without_value_is_an_ordinary_param() {
    let actual = parse("<u>; rel; rel=next", None).expect("Expect a valid header");

    let expected = Header {
        links: vec![Link {
            target: "u".into(),
            context: None,
            relation: Some("next".into()),
            title: None,
            params: vec![Param::new("rel", None)],
        }],
    };

    assert_eq!(actual, expected);
}

#[test]
fn reserved_names_are_read_whatever_their_case() {
    let actual = parse("<u>; REL=next; Title=T", None).expect("Expect a valid header");

    let expected = Header {
        links: vec![Link {
            target: "u".into(),
            context: None,
            relation: Some("next".into()),
            title: Some("T".into()),
            params: vec![],
        }],
    };

    assert_eq!(actual, expected);
}

#[test]
fn other_params_keep_order_and_duplicates() {
    let actual =
        parse("<u>; b=1; a=2; b=1; flag; type=\"text/html\"", None).expect("Expect a valid header");

    let expected = Header {
        links: vec![Link {
            target: "u".into(),
            context: None,
            relation: None,
            title: None,
            params: vec![
                Param::new("b", Some("1".into())),
                Param::new("a", Some("2".into())),
                Param::new("b", Some("1".into())),
                Param::new("flag", None),
                Param::new("type", Some("text/html".into())),
            ],
        }],
    };

    assert_eq!(actual, expected);
}

#[test]
fn title_precedence() {
    let actual = parse(
        "<u>; rel=\"previous\"; title=\"T\"; title*=UTF-8'de'T",
        None,
    )
    .expect("Expect a valid header");

    let expected = Header {
        links: vec![Link {
            target: "u".into(),
            context: None,
            relation: Some("previous".into()),
            title: Some(Value::Compound {
                value: "T".into(),
                encoding: Encoding::Utf8,
                language: Some("de".into()),
            }),
            params: vec![Param::new("title", Some("T".into()))],
        }],
    };

    assert_eq!(actual, expected);
}

#[test]
fn title_after_a_compound_title_is_demoted() {
    let first = Value::Compound {
        value: "A".into(),
        encoding: Encoding::Utf8,
        language: None,
    };
    let second = Value::Compound {
        value: "B".into(),
        encoding: Encoding::Utf8,
        language: Some("en".into()),
    };
    let actual = parse("<u>; title*=utf-8''A; title=T; title*=UTF-8'en'B", None)
        .expect("Expect a valid header");

    assert_eq!(actual.links.len(), 1);
    assert_eq!(actual.links[0].title, Some(first));
    assert_eq!(
        actual.links[0].params,
        vec![
            Param::new("title", Some("T".into())),
            Param::new("title", Some(second)),
        ]
    );
}

#[test]
fn second_simple_title_is_demoted() {
    let actual = parse("<u>; title=A; title=B", None).expect("Expect a valid header");

    assert_eq!(actual.links[0].title, Some("A".into()));
    assert_eq!(
        actual.links[0].params,
        vec![Param::new("title", Some("B".into()))]
    );
}

#[test]
fn anchor_resolution() {
    let context = url::Url::parse("https://www.example.org/").ok();
    let actual = parse("</terms>; rel=\"copyright\"; anchor=\"#foo\"", context)
        .expect("Expect a valid header");

    assert_eq!(actual.links.len(), 1);
    assert_eq!(
        actual.links[0].context,
        url::Url::parse("https://www.example.org/#foo").ok()
    );
    assert_eq!(actual.links[0].params, vec![]);
}

#[test]
fn anchor_fallback() {
    let actual = parse("<u>; anchor=\"#foo\"", None).expect("Expect a valid header");

    let expected = Header {
        links: vec![Link {
            target: "u".into(),
            context: None,
            relation: None,
            title: None,
            params: vec![Param::new("anchor", Some("#foo".into()))],
        }],
    };

    assert_eq!(actual, expected);
}

#[test]
fn absolute_anchor_needs_no_base() {
    let actual =
        parse("<u>; anchor=\"https://a.example/x\"", None).expect("Expect a valid header");

    assert_eq!(
        actual.links[0].context,
        url::Url::parse("https://a.example/x").ok()
    );
    assert_eq!(actual.links[0].params, vec![]);
}

#[test]
fn absolute_anchor_replaces_the_base() {
    let context = url::Url::parse("https://www.example.org/").ok();
    let actual =
        parse("<u>; anchor=\"http://b.example/y\"", context).expect("Expect a valid header");

    assert_eq!(
        actual.links[0].context,
        url::Url::parse("http://b.example/y").ok()
    );
}

#[test]
fn anchor_after_a_failed_anchor_is_kept() {
    let actual = parse("<u>; anchor=\"#foo\"; anchor=\"https://a.example/\"", None)
        .expect("Expect a valid header");

    assert_eq!(actual.links[0].context, None);
    assert_eq!(
        actual.links[0].params,
        vec![
            Param::new("anchor", Some("#foo".into())),
            Param::new("anchor", Some("https://a.example/".into())),
        ]
    );
}

#[test]
fn compose_context_with_and_without_base() {
    let base = url::Url::parse("https://example.net/a/b.html").ok();

    assert_eq!(
        compose_context(&base, "c.png"),
        url::Url::parse("https://example.net/a/c.png").ok()
    );
    assert_eq!(compose_context(&None, "c.png"), None);
    assert_eq!(
        compose_context(&None, "https://example.net/"),
        url::Url::parse("https://example.net/").ok()
    );
    assert_eq!(compose_context(&base, "https://[bad"), None);
}

#[test]
fn extension_value_is_kept_as_written() {
    let actual = parse("<u>; title*=ISO-8859-1'en'%A3%20rates", None)
        .expect("Expect a valid header");

    assert_eq!(
        actual.links[0].title,
        Some(Value::Compound {
            value: "%A3%20rates".into(),
            encoding: Encoding::Extension("iso-8859-1".into()),
            language: Some("en".into()),
        })
    );
}

#[test]
fn extended_value_without_language() {
    let actual = parse("<u>; title*=UTF-8''%e2%82%ac%20rates", None)
        .expect("Expect a valid header");

    assert_eq!(
        actual.links[0].title,
        Some(Value::Compound {
            value: "€ rates".into(),
            encoding: Encoding::Utf8,
            language: None,
        })
    );
}

#[test]
fn stray_percent_sign_is_kept() {
    let actual = parse("<u>; title*=UTF-8''100%25%zz%4", None).expect("Expect a valid header");

    assert_eq!(
        actual.links[0].title,
        Some(Value::Compound {
            value: "100%%zz%4".into(),
            encoding: Encoding::Utf8,
            language: None,
        })
    );
}

#[test]
fn undecodable_value_fails_the_whole_header() {
    assert_eq!(
        parse("<a>; rel=next, <u>; title*=UTF-8''%C0%FF%EE", None),
        Err(ParserError::DecodeError)
    );
}

#[test]
fn malformed_text_is_a_syntax_error() {
    assert_eq!(parse("", None), Err(ParserError::Syntax));
    assert_eq!(parse("https://example.org", None), Err(ParserError::Syntax));
    assert_eq!(parse("<https://example.org", None), Err(ParserError::Syntax));
    assert_eq!(parse("<u>; rel=", None), Err(ParserError::Syntax));
    assert_eq!(parse("<u>; rel=\"next", None), Err(ParserError::Syntax));
    assert_eq!(parse("<u>;", None), Err(ParserError::Syntax));
    assert_eq!(parse("<u>, ", None), Err(ParserError::Syntax));
    assert_eq!(parse("<u> <v>", None), Err(ParserError::Syntax));
    assert_eq!(parse("<u>; title*=UTF-8'en", None), Err(ParserError::Syntax));
    assert_eq!(parse("<u>; title*", None), Err(ParserError::Syntax));
}

#[test]
fn escaped_quote_does_not_close_a_quoted_value() {
    let actual = parse("<u>; title=\"a \\\"b\\\" c\"; rel=next", None)
        .expect("Expect a valid header");

    assert_eq!(actual.links.len(), 1);
    assert_eq!(actual.links[0].title, Some("a \\\"b\\\" c".into()));
    assert_eq!(actual.links[0].relation, Some("next".into()));
    assert_eq!(parse("<u>; title=\"a\\\"", None), Err(ParserError::Syntax));
}

#[test]
fn targets_and_relations_give_their_text() {
    let actual = parse("<http://example.org/>; rel=next", None).expect("Expect a valid header");

    assert_eq!(actual.links[0].target.as_str(), "http://example.org/");
    assert_eq!(
        actual.links[0].relation.as_ref().map(|r| r.as_str()),
        Some("next")
    );
}

#[test]
fn blanks_are_tolerated() {
    let actual = parse(" \t<u> ;rel = next\t,<v>;rel=\"prev\" ", None)
        .expect("Expect a valid header");

    assert_eq!(actual.links.len(), 2);
    assert_eq!(actual.links[0].target, "u".into());
    assert_eq!(actual.links[0].relation, Some("next".into()));
    assert_eq!(actual.links[1].target, "v".into());
    assert_eq!(actual.links[1].relation, Some("prev".into()));
}

#[test]
fn token_tree_of_a_header() {
    let tree = Rfc8288Parser::parse("<u>; rel=next; title*=UTF-8'de'T; flag, <v>; a=\"b c\"")
        .expect("Expect a token tree");

    let expected = node(
        Rule::Header,
        "<u>; rel=next; title*=UTF-8'de'T; flag, <v>; a=\"b c\"",
        vec![
            node(
                Rule::Link,
                "<u>; rel=next; title*=UTF-8'de'T; flag",
                vec![
                    leaf(Rule::Target, "u"),
                    node(
                        Rule::Param,
                        "rel=next",
                        vec![leaf(Rule::Name, "rel"), leaf(Rule::TokenValue, "next")],
                    ),
                    node(
                        Rule::Param,
                        "title*=UTF-8'de'T",
                        vec![
                            leaf(Rule::Name, "title"),
                            leaf(Rule::Encoding, "UTF-8"),
                            leaf(Rule::Language, "de"),
                            leaf(Rule::PctValue, "T"),
                        ],
                    ),
                    node(Rule::Param, "flag", vec![leaf(Rule::Name, "flag")]),
                ],
            ),
            node(
                Rule::Link,
                "<v>; a=\"b c\"",
                vec![
                    leaf(Rule::Target, "v"),
                    node(
                        Rule::Param,
                        "a=\"b c\"",
                        vec![leaf(Rule::Name, "a"), leaf(Rule::QuotedValue, "b c")],
                    ),
                ],
            ),
            leaf(Rule::Eoi, ""),
        ],
    );

    assert_eq!(tree, expected);
}

#[test]
fn invalid_rule_detection() {
    let param = node(
        Rule::Param,
        "rel=next",
        vec![leaf(Rule::Name, "rel"), leaf(Rule::TokenValue, "next")],
    );

    assert_eq!(
        collect_links(&param, None),
        Err(ParserError::InvalidRule(Rule::Link, Rule::Param))
    );
    assert_eq!(
        collect_header(&param, None),
        Err(ParserError::InvalidRule(Rule::Header, Rule::Param))
    );
    assert_eq!(
        collect_param(&leaf(Rule::Target, "u")),
        Err(ParserError::InvalidRule(Rule::Param, Rule::Target))
    );
}

#[test]
fn collect_param_reads_each_form() {
    let bare = node(Rule::Param, "flag", vec![leaf(Rule::Name, "flag")]);
    let quoted = node(
        Rule::Param,
        "a=\"b c\"",
        vec![leaf(Rule::Name, "a"), leaf(Rule::QuotedValue, "b c")],
    );
    let star = node(
        Rule::Param,
        "title*=UTF-8''a%20b",
        vec![
            leaf(Rule::Name, "title"),
            leaf(Rule::Encoding, "UTF-8"),
            leaf(Rule::Language, ""),
            leaf(Rule::PctValue, "a%20b"),
        ],
    );
    let broken = node(
        Rule::Param,
        "title*=UTF-8''%ff",
        vec![
            leaf(Rule::Name, "title"),
            leaf(Rule::Encoding, "UTF-8"),
            leaf(Rule::PctValue, "%ff"),
        ],
    );

    assert_eq!(collect_param(&bare), Ok(Param::new("flag", None)));
    assert_eq!(
        collect_param(&quoted),
        Ok(Param::new("a", Some("b c".into())))
    );
    assert_eq!(
        collect_param(&star),
        Ok(Param::new(
            "title",
            Some(Value::Compound {
                value: "a b".into(),
                encoding: Encoding::Utf8,
                language: None,
            })
        ))
    );
    assert_eq!(collect_param(&broken), Err(ParserError::DecodeError));
}

#[test]
fn collect_header_skips_the_end_marker() {
    let tree = node(
        Rule::Header,
        "<u>",
        vec![
            node(Rule::Link, "<u>", vec![leaf(Rule::Target, "u")]),
            leaf(Rule::Eoi, ""),
        ],
    );

    let expected = Header {
        links: vec![Link {
            target: "u".into(),
            context: None,
            relation: None,
            title: None,
            params: vec![],
        }],
    };

    assert_eq!(collect_header(&tree, None), Ok(expected));
}

#[test]
fn builder_without_relation_builds_one_link() {
    let context = url::Url::parse("https://www.foobar.com").ok();
    let mut builder = LinkBuilder::new(context.clone());
    builder.set_target("/a");
    builder.add_param(Param::new("x", None));

    let links = builder.build();

    assert_eq!(
        links,
        vec![Link {
            target: "/a".into(),
            context,
            relation: None,
            title: None,
            params: vec![Param::new("x", None)],
        }]
    );
}

#[test]
fn builder_setters() {
    let mut builder = LinkBuilder::new(None);
    builder.set_target("/a");
    builder.set_rel("start next".into());
    builder.set_rel("other".into());
    builder.set_title("T".into());
    builder.set_anchor("/relative".into());
    builder.reduce(Param::new("Rel", Some("third".into())));
    builder.reduce(Param::new("media", Some("print".into())));

    let links = builder.build();

    let params = vec![
        Param::new("rel", Some("other".into())),
        Param::new("anchor", Some("/relative".into())),
        Param::new("rel", Some("third".into())),
        Param::new("media", Some("print".into())),
    ];
    assert_eq!(links.len(), 2);
    assert_eq!(links[0].relation, Some("start".into()));
    assert_eq!(links[1].relation, Some("next".into()));
    assert_eq!(links[0].title, Some("T".into()));
    assert_eq!(links[0].params, params);
    assert_eq!(links[1].params, params);
}

#[test]
fn compound_rel_is_split_in_its_wire_form() {
    let mut builder = LinkBuilder::new(None);
    builder.set_rel(Value::Compound {
        value: "a b".into(),
        encoding: Encoding::Extension("x".into()),
        language: None,
    });

    let links = builder.build();

    assert_eq!(links.len(), 2);
    assert_eq!(links[0].relation, Some("x''a".into()));
    assert_eq!(links[1].relation, Some("b".into()));
}
