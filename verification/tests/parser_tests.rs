use edgerouter_rust::parser::{parse_file, ParseErrorKind};
use edgerouter_rust::types::{ObjectValue, Value};

#[test]
fn test_parser() {
    let json = r#"
        person {
            name "John Doe"
            age 43
            metrics {
            height 1.72
            weight 73.5
            }
        }
        /* 1 */
        /* 2 */
        /* 3 */
        "#;

    let parsed = parse_file(json).unwrap();
    let expected_person: Value = Value::Object(vec![
        ObjectValue::KeyValue("name".to_string(), Value::String("John Doe".to_string())),
        ObjectValue::KeyValue("age".to_string(), Value::UnquotedString("43".to_string())),
        ObjectValue::KeyValue(
            "metrics".to_string(),
            Value::Object(vec![
                ObjectValue::KeyValue("height".to_string(), Value::UnquotedString("1.72".to_string())),
                ObjectValue::KeyValue("weight".to_string(), Value::UnquotedString("73.5".to_string())),
            ]),
        ),
    ]);

    assert_eq!(
        parsed.values,
        Value::Object(vec![ObjectValue::KeyValue("person".to_string(), expected_person)])
    );

    assert_eq!(
        parsed.trailing_lines,
        vec!["/* 1 */".to_string(), "/* 2 */".to_string(), "/* 3 */".to_string()]
    );
}

#[test]
fn test_nested_object_parser() {
    let json = r#"
        person {
            name "John Doe"
            age 43
            metrics ideal {
                height 1.72
                weight 73.5
            }
            metrics actual {
                height 1.72
                weight 173.5
            }
        }
        /* 1 */
        /* 2 */
        /* 3 */
        "#;

    let parsed = parse_file(json).unwrap();
    let expected_person: Value = Value::Object(vec![
        ObjectValue::KeyValue("name".to_string(), Value::String("John Doe".to_string())),
        ObjectValue::KeyValue("age".to_string(), Value::UnquotedString("43".to_string())),
        ObjectValue::ObjectKeyValue(
            "metrics".to_string(),
            "ideal".to_string(),
            Value::Object(vec![
                ObjectValue::KeyValue("height".to_string(), Value::UnquotedString("1.72".to_string())),
                ObjectValue::KeyValue("weight".to_string(), Value::UnquotedString("73.5".to_string())),
            ]),
        ),
        ObjectValue::ObjectKeyValue(
            "metrics".to_string(),
            "actual".to_string(),
            Value::Object(vec![
                ObjectValue::KeyValue("height".to_string(), Value::UnquotedString("1.72".to_string())),
                ObjectValue::KeyValue("weight".to_string(), Value::UnquotedString("173.5".to_string())),
            ]),
        ),
    ]);

    assert_eq!(
        parsed.values,
        Value::Object(vec![ObjectValue::KeyValue("person".to_string(), expected_person)])
    );

    assert_eq!(
        parsed.trailing_lines,
        vec!["/* 1 */".to_string(), "/* 2 */".to_string(), "/* 3 */".to_string()]
    );
}

#[test]
fn test_keyword() {
    let json = r#"
        person {
            ethernet eth0 {
                address 192.168.0.1/24
                address 2001:44B8:4112:8A00::1/64
                disable
                duplex auto
            }
        }
        /* 1 */
        /* 2 */
        /* 3 */
        "#;

    let parsed = parse_file(json).unwrap();
    let expected_ethernet: Value = Value::Object(vec![
        ObjectValue::KeyValue(
            "address".to_string(),
            Value::UnquotedString("192.168.0.1/24".to_string()),
        ),
        ObjectValue::KeyValue(
            "address".to_string(),
            Value::UnquotedString("2001:44B8:4112:8A00::1/64".to_string()),
        ),
        ObjectValue::Key("disable".to_string()),
        ObjectValue::KeyValue("duplex".to_string(), Value::UnquotedString("auto".to_string())),
    ]);

    let expected_person = Value::Object(vec![ObjectValue::ObjectKeyValue(
        "ethernet".to_string(),
        "eth0".to_string(),
        expected_ethernet,
    )]);

    assert_eq!(
        parsed.values,
        Value::Object(vec![ObjectValue::KeyValue("person".to_string(), expected_person)])
    );

    assert_eq!(
        parsed.trailing_lines,
        vec!["/* 1 */".to_string(), "/* 2 */".to_string(), "/* 3 */".to_string()]
    );
}

#[test]
fn test_empty() {
    let json = r#"
        person {
            ethernet eth0 {
            }
            cpu {
            }
        }
        /* 1 */
        /* 2 */
        /* 3 */
        "#;

    let parsed = parse_file(json).unwrap();
    let expected_ethernet: Value = Value::Object(vec![]);
    let expected_cpu: Value = Value::Object(vec![]);

    let expected_person = Value::Object(vec![
        ObjectValue::ObjectKeyValue("ethernet".to_string(), "eth0".to_string(), expected_ethernet),
        ObjectValue::KeyValue("cpu".to_string(), expected_cpu),
    ]);

    assert_eq!(
        parsed.values,
        Value::Object(vec![ObjectValue::KeyValue("person".to_string(), expected_person)])
    );

    assert_eq!(
        parsed.trailing_lines,
        vec!["/* 1 */".to_string(), "/* 2 */".to_string(), "/* 3 */".to_string()]
    );
}

#[test]
fn two_trailing_lines_fail() {
    let json = "person {\n}\n/* 1 */\n/* 2 */\n";
    assert!(parse_file(json).is_err());
}

#[test]
fn four_trailing_lines_fail() {
    let json = "person {\n}\n/* 1 */\n/* 2 */\n/* 3 */\n/* 4 */\n";
    let err = parse_file(json).unwrap_err();
    assert_eq!(err.kind, ParseErrorKind::UnexpectedTrailingText);
}

#[test]
fn missing_top_level_object_fails() {
    let err = parse_file("person\n/* 1 */\n/* 2 */\n/* 3 */\n").unwrap_err();
    assert_eq!(err.kind, ParseErrorKind::ExpectedOpenBrace);
    assert!(parse_file("").is_err());
    assert!(parse_file("/* 1 */\n/* 2 */\n/* 3 */\n").is_err());
}

#[test]
fn pair_arity_classification() {
    let ok = parse_file("top {\n    flag\n    duplex auto\n    eth en1 {\n    }\n}\n/* a */\n/* b */\n/* c */\n")
        .unwrap();
    let expected = Value::Object(vec![ObjectValue::KeyValue(
        "top".to_string(),
        Value::Object(vec![
            ObjectValue::Key("flag".to_string()),
            ObjectValue::KeyValue("duplex".to_string(), Value::UnquotedString("auto".to_string())),
            ObjectValue::ObjectKeyValue("eth".to_string(), "en1".to_string(), Value::Object(vec![])),
        ]),
    )]);
    assert_eq!(ok.values, expected);
}

#[test]
fn three_leading_tokens_fail() {
    let err = parse_file("top {\n    a b c\n}\n/* a */\n/* b */\n/* c */\n").unwrap_err();
    assert_eq!(err.kind, ParseErrorKind::ExpectedValue);
}

#[test]
fn two_tokens_with_quoted_value_fail() {
    // After a two-token header only a nested object may follow.
    let err = parse_file("top {\n    a b \"x\"\n}\n/* a */\n/* b */\n/* c */\n").unwrap_err();
    assert_eq!(err.kind, ParseErrorKind::ExpectedValue);
}

#[test]
fn scalar_literals() {
    let ok = parse_file("top {\n    flag true\n    other false\n    gone null\n}\n/* a */\n/* b */\n/* c */\n")
        .unwrap();
    let expected = Value::Object(vec![ObjectValue::KeyValue(
        "top".to_string(),
        Value::Object(vec![
            ObjectValue::KeyValue("flag".to_string(), Value::Boolean(true)),
            ObjectValue::KeyValue("other".to_string(), Value::Boolean(false)),
            ObjectValue::KeyValue("gone".to_string(), Value::Null),
        ]),
    )]);
    assert_eq!(ok.values, expected);
}

#[test]
fn reserved_keyword_parses_quoted() {
    let ok = parse_file("top {\n    state enable\n    peer disable\n}\n/* a */\n/* b */\n/* c */\n").unwrap();
    let expected = Value::Object(vec![ObjectValue::KeyValue(
        "top".to_string(),
        Value::Object(vec![
            ObjectValue::KeyValue("state".to_string(), Value::String("enable".to_string())),
            ObjectValue::KeyValue("peer".to_string(), Value::String("disable".to_string())),
        ]),
    )]);
    assert_eq!(ok.values, expected);
}

#[test]
fn error_kinds_and_messages() {
    let unclosed = parse_file("top {\n    name \"oops\n}\n/* a */\n/* b */\n/* c */\n").unwrap_err();
    assert_eq!(unclosed.kind, ParseErrorKind::UnclosedString);
    assert!(!unclosed.message().is_empty());

    let no_close = parse_file("top {\n").unwrap_err();
    assert_eq!(no_close.kind, ParseErrorKind::ExpectedCloseBrace);

    let two_pairs_one_line = parse_file("top {\n    a { } b { }\n}\n/* a */\n/* b */\n/* c */\n").unwrap_err();
    assert_eq!(two_pairs_one_line.kind, ParseErrorKind::ExpectedLineEnd);

    let missing = parse_file("top {\n}\n/* 1 */\n/* 2 */\n").unwrap_err();
    assert_eq!(missing.kind, ParseErrorKind::MissingTrailingLine);

    let empty = parse_file("").unwrap_err();
    assert_eq!(empty.kind, ParseErrorKind::ExpectedName);
    assert!(!empty.message().is_empty());
}

#[test]
fn order_is_preserved() {
    let ok = parse_file("top {\n    a 1\n    b 2\n    c 3\n}\n/* x */\n/* y */\n/* z */\n").unwrap();
    match &ok.values {
        Value::Object(entries) => match &entries[0] {
            ObjectValue::KeyValue(_, Value::Object(inner)) => {
                let names: Vec<String> = inner
                    .iter()
                    .map(|e| match e {
                        ObjectValue::KeyValue(n, _) => n.clone(),
                        _ => panic!("unexpected entry shape"),
                    })
                    .collect();
                assert_eq!(names, vec!["a".to_string(), "b".to_string(), "c".to_string()]);
            }
            _ => panic!("unexpected root entry"),
        },
        _ => panic!("root is not an object"),
    }
}
