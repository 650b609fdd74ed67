use edgerouter_rust::parser::parse_file;
use edgerouter_rust::types::{File, ObjectValue, Value};

#[test]
fn canonical_output() {
    let input = "\nperson {\n  name \"John Doe\"\n      age 43\n}\n/* 1 */\n/* 2 */\n/* 3 */\n";
    let parsed = parse_file(input).unwrap();
    let out = parsed.serialize();
    assert_eq!(
        out,
        "person {\n    name \"John Doe\"\n    age 43\n}\n\n/* 1 */\n/* 2 */\n/* 3 */"
    );
}

#[test]
fn scalar_fidelity() {
    let input = "person {\n    name \"John Doe\"\n    age 43\n}\n/* 1 */\n/* 2 */\n/* 3 */\n";
    let parsed = parse_file(input).unwrap();
    let root = match &parsed.values {
        Value::Object(entries) => match &entries[0] {
            ObjectValue::KeyValue(_, v) => v,
            _ => panic!("unexpected root entry"),
        },
        _ => panic!("root is not an object"),
    };
    match root {
        Value::Object(inner) => {
            assert_eq!(
                inner[0],
                ObjectValue::KeyValue("name".to_string(), Value::String("John Doe".to_string()))
            );
            assert_eq!(
                inner[1],
                ObjectValue::KeyValue("age".to_string(), Value::UnquotedString("43".to_string()))
            );
        }
        _ => panic!("person is not an object"),
    }
    let out = parsed.serialize();
    assert!(out.contains("name \"John Doe\"\n"));
    assert!(out.contains("age 43\n"));
}

#[test]
fn empty_object_serializes_flat() {
    let input = "person {\n    ethernet eth0 { }\n}\n/* 1 */\n/* 2 */\n/* 3 */\n";
    let parsed = parse_file(input).unwrap();
    let out = parsed.serialize();
    assert_eq!(
        out,
        "person {\n    ethernet eth0 {\n    }\n}\n\n/* 1 */\n/* 2 */\n/* 3 */"
    );
    assert!(out.contains("ethernet eth0 {\n"));
}

#[test]
fn keyword_serializes_quoted() {
    let input = "top {\n    state enable\n}\n/* a */\n/* b */\n/* c */\n";
    let parsed = parse_file(input).unwrap();
    let out = parsed.serialize();
    assert!(out.contains("state \"enable\"\n"));
}

#[test]
fn booleans_and_null_serialize_bare() {
    let input = "top {\n    flag true\n    other false\n    gone null\n}\n/* a */\n/* b */\n/* c */\n";
    let parsed = parse_file(input).unwrap();
    let out = parsed.serialize();
    assert!(out.contains("flag true\n"));
    assert!(out.contains("other false\n"));
    assert!(out.contains("gone null\n"));
}

#[test]
fn structural_round_trip() {
    let inputs = [
        "person {\n    name \"John Doe\"\n    age 43\n    metrics ideal {\n        height 1.72\n    }\n}\n/* 1 */\n/* 2 */\n/* 3 */\n",
        "top {\n    flag\n    duplex auto\n    ethernet eth0 {\n        address 192.168.0.1/24\n        disable\n    }\n    state enable\n    b true\n    z null\n    s \"\"\n}\n/* x */\n/* y */\n/* z */\n",
        "person {\n}\n/* 1 */\n/* 2 */\n/* 3 */\n",
    ];
    for input in inputs {
        let first: File = parse_file(input).unwrap();
        let text = first.serialize();
        let second: File = parse_file(&text).unwrap();
        assert_eq!(first, second);
        // Serialization is stable: a second round yields the same text.
        assert_eq!(second.serialize(), text);
    }
}

#[test]
fn named_instance_distinct_from_bare_category() {
    let with_instance = parse_file("top {\n    metrics ideal {\n        height 1.72\n    }\n}\n/* a */\n/* b */\n/* c */\n")
        .unwrap();
    let bare = parse_file("top {\n    metrics {\n        height 1.72\n    }\n}\n/* a */\n/* b */\n/* c */\n")
        .unwrap();
    let inner = || {
        Value::Object(vec![ObjectValue::KeyValue(
            "height".to_string(),
            Value::UnquotedString("1.72".to_string()),
        )])
    };
    let expect_instance = Value::Object(vec![ObjectValue::KeyValue(
        "top".to_string(),
        Value::Object(vec![ObjectValue::ObjectKeyValue(
            "metrics".to_string(),
            "ideal".to_string(),
            inner(),
        )]),
    )]);
    let expect_bare = Value::Object(vec![ObjectValue::KeyValue(
        "top".to_string(),
        Value::Object(vec![ObjectValue::KeyValue("metrics".to_string(), inner())]),
    )]);
    assert_eq!(with_instance.values, expect_instance);
    assert_eq!(bare.values, expect_bare);
    assert!(with_instance.serialize().contains("metrics ideal {\n"));
    assert!(bare.serialize().contains("metrics {\n"));
}
