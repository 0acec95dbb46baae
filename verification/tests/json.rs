use opensourcellmrouter::json::{get, get_str, is_valid_json, parse_json_or_null, JsonValue};
use opensourcellmrouter::text::{contains_str, trim_str};

#[test]
fn later_bindings_shadow_earlier_ones() {
    let entries = vec![
        ("a".to_string(), JsonValue::Str("first".to_string())),
        ("b".to_string(), JsonValue::Bool(true)),
        ("a".to_string(), JsonValue::Str("second".to_string())),
    ];
    assert_eq!(get_str(&entries, "a").map(String::as_str), Some("second"));
    assert_eq!(get(&entries, "b"), Some(&JsonValue::Bool(true)));
    assert_eq!(get_str(&entries, "b"), None);
    assert_eq!(get(&entries, "c"), None);
}

#[test]
fn json_validity_and_null_fallback() {
    assert!(is_valid_json("{\"a\": [1, 2]}"));
    assert!(!is_valid_json("{\"a\": "));
    assert_eq!(parse_json_or_null("nope"), serde_json::Value::Null);
    assert_eq!(parse_json_or_null("[1]"), serde_json::from_str::<serde_json::Value>("[1]").unwrap());
    assert_eq!(trim_str("\u{3000} x \t"), "x");
    assert!(contains_str("haystack", "st"));
}
