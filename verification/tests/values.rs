use linkheader::param::{Encoding, Param, Value};
use linkheader::text::{chars_of, split_spaces};

#[test]
fn simple_value_is_its_own_wire_form() {
    let value = Value::Simple("next".into());

    assert_eq!(value.to_string(), "next".to_string());
}

#[test]
fn simple_value_with_reserved_characters_is_not_encoded() {
    let value = Value::Simple("GBP (£) 100%?".into());

    assert_eq!(value.to_string(), "GBP (£) 100%?".to_string());
}

#[test]
fn utf8_compound_value_is_percent_encoded() {
    let value = Value::Compound {
        encoding: Encoding::Utf8,
        language: Some("en".into()),
        value: "GBP (£)".into(),
    };

    assert_eq!(value.to_string(), "UTF-8'en'GBP%20(%C2%A3)".to_string());
}

#[test]
fn utf8_compound_value_encodes_the_whole_set() {
    let value = Value::Compound {
        encoding: Encoding::Utf8,
        language: None,
        value: "a \"#<>`?{}\u{7f}\n~z".into(),
    };

    assert_eq!(
        value.to_string(),
        "UTF-8''a%20%22%23%3C%3E%60%3F%7B%7D%7F%0A~z".to_string()
    );
}

#[test]
fn extension_compound_value_is_passed_through() {
    let value = Value::Compound {
        encoding: Encoding::Extension("GIB".into()),
        language: None,
        value: "%C0%FF%EE".into(),
    };

    assert_eq!(value.to_string(), "GIB''%C0%FF%EE".to_string());
}

#[test]
fn value_text_and_kind() {
    let simple = Value::from("next");
    let compound = Value::Compound {
        encoding: Encoding::Utf8,
        language: None,
        value: "àbac".into(),
    };

    assert_eq!(simple.text(), "next");
    assert!(simple.is_simple());
    assert!(!simple.is_compound());
    assert_eq!(compound.text(), "àbac");
    assert!(compound.is_compound());
    assert!(!compound.is_simple());
    assert_eq!(Value::from("next".to_string()), simple);
    assert_eq!(compound.clone(), compound);
}

#[test]
fn encoding_is_read_whatever_its_case() {
    assert_eq!(Encoding::from("UTF-8"), Encoding::Utf8);
    assert_eq!(Encoding::from("utf-8"), Encoding::Utf8);
    assert_eq!(Encoding::from("Utf-8"), Encoding::Utf8);
    assert_eq!(Encoding::from("GIB"), Encoding::Extension("gib".into()));
    assert_eq!(
        Encoding::from("ISO-8859-1"),
        Encoding::Extension("iso-8859-1".into())
    );
}

#[test]
fn encoding_label() {
    assert_eq!(Encoding::Utf8.to_string(), "UTF-8".to_string());
    assert_eq!(
        Encoding::Extension("gib".into()).to_string(),
        "gib".to_string()
    );
}

#[test]
fn param_accessors() {
    let param = Param::new("rel", Some("next".into()));

    assert_eq!(param.name(), "rel");
    assert_eq!(param.value(), &Some(Value::Simple("next".into())));
    assert!(!param.is_star());
    assert_eq!(param.clone(), param);
    assert_eq!(param.into_value(), Some(Value::Simple("next".into())));
}

#[test]
fn param_without_value() {
    let param = Param::new("crossorigin", None);

    assert_eq!(param.name(), "crossorigin");
    assert_eq!(param.value(), &None);
    assert!(!param.is_star());
    assert_eq!(param.into_value(), None);
}

#[test]
fn star_param_has_a_compound_value() {
    let param = Param::new(
        "title",
        Some(Value::Compound {
            encoding: Encoding::Utf8,
            language: Some("ca".into()),
            value: "àbac".into(),
        }),
    );

    assert!(param.is_star());
}

#[test]
fn characters_of_a_text() {
    assert_eq!(chars_of("a£🎃"), vec!['a', '£', '🎃']);
    assert_eq!(chars_of(""), Vec::<char>::new());
}

#[test]
fn split_drops_empty_tokens() {
    assert_eq!(
        split_spaces("start  http://example.net/relation/other "),
        vec![
            "start".to_string(),
            "http://example.net/relation/other".to_string()
        ]
    );
    assert_eq!(split_spaces(" a"), vec!["a".to_string()]);
    assert_eq!(split_spaces("   "), Vec::<String>::new());
    assert_eq!(split_spaces(""), Vec::<String>::new());
    assert_eq!(split_spaces("a\tb"), vec!["a\tb".to_string()]);
}

#[test]
fn extended_value_is_decoded_by_its_encoding() {
    assert_eq!(
        Value::extended(Encoding::Utf8, Some("en".into()), "GBP%20(%C2%A3)"),
        Some(Value::Compound {
            encoding: Encoding::Utf8,
            language: Some("en".into()),
            value: "GBP (£)".into(),
        })
    );
    assert_eq!(
        Value::extended(Encoding::Extension("gib".into()), None, "%C0%FF%EE"),
        Some(Value::Compound {
            encoding: Encoding::Extension("gib".into()),
            language: None,
            value: "%C0%FF%EE".into(),
        })
    );
    assert_eq!(Value::extended(Encoding::Utf8, None, "%C0%FF%EE"), None);
}

#[test]
fn written_text_reads_back() {
    let value = Value::Compound {
        encoding: Encoding::Utf8,
        language: Some("de".into()),
        value: "n\u{e4}chstes \"Kapitel\" <1> {a}?#`\u{1F383}".into(),
    };

    let wire = value.to_string();
    let written = wire
        .strip_prefix("UTF-8'de'")
        .expect("Expect the charset and the language");

    assert_eq!(
        Value::extended(Encoding::Utf8, Some("de".into()), written),
        Some(value)
    );
}

#[test]
fn percent_sign_is_written_as_it_is() {
    let value = Value::Compound {
        encoding: Encoding::Utf8,
        language: None,
        value: "%41".into(),
    };

    assert_eq!(value.to_string(), "UTF-8''%41".to_string());
    assert_eq!(
        Value::extended(Encoding::Utf8, None, "%41"),
        Some(Value::Compound {
            encoding: Encoding::Utf8,
            language: None,
            value: "A".into(),
        })
    );
}
