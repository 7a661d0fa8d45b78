use linkrouter::detectors::common::local_state_entries;
use linkrouter::json::{member, parse_json, JsonValue};

#[test]
fn parses_every_kind_of_value() {
    let v = parse_json(r#"{"b":[true,null,1.5,"x"],"a":{"k":-2}}"#).unwrap();
    match &v {
        JsonValue::Object(ms) => {
            let keys: Vec<&str> = ms.iter().map(|(k, _)| k.as_str()).collect();
            assert_eq!(keys, vec!["a", "b"]);
        }
        other => panic!("expected an object, got {other:?}"),
    }
    match member(&v, "b").unwrap() {
        JsonValue::Array(items) => {
            assert!(matches!(items[0], JsonValue::Bool(true)));
            assert!(matches!(items[1], JsonValue::Null));
            assert!(matches!(&items[2], JsonValue::Number(n) if n == "1.5"));
            assert!(matches!(&items[3], JsonValue::Text(t) if t == "x"));
        }
        other => panic!("expected an array, got {other:?}"),
    }
    assert!(matches!(member(member(&v, "a").unwrap(), "k"), Some(JsonValue::Number(n)) if n == "-2"));
    assert!(member(&v, "c").is_none());
    assert!(member(&JsonValue::Null, "a").is_none());
    assert!(parse_json("{not json").is_none());
}

#[test]
fn local_state_entries_follow_profile_info_cache_and_name() {
    let v = parse_json(r#"{"profile":{"info_cache":{"Default":{"name":"Me"},"Profile 1":{"name":7},"Profile 2":{}}}}"#)
        .unwrap();
    let entries = local_state_entries(&v).unwrap();
    assert_eq!(
        entries,
        vec![
            ("Default".to_string(), Some("Me".to_string())),
            ("Profile 1".to_string(), None),
            ("Profile 2".to_string(), None),
        ]
    );
    let v = parse_json(r#"{"profile":{"info-cache":{}}}"#).unwrap();
    assert!(local_state_entries(&v).is_none());
    let v = parse_json(r#"{"profile":{"info_cache":[1]}}"#).unwrap();
    assert!(local_state_entries(&v).is_none());
    let v = parse_json(r#"{"profile":{"info_cache":{}}}"#).unwrap();
    assert_eq!(local_state_entries(&v), Some(Vec::new()));
}
