use hitomi_server_rs::input::{flexible_bool, flexible_text, FlexValue};
use hitomi_server_rs::text::{contains_text, signed_to_decimal};

#[test]
fn flags_from_mixed_sources() {
    assert!(flexible_bool(&FlexValue::Bool(true)));
    assert!(!flexible_bool(&FlexValue::Bool(false)));
    assert!(flexible_bool(&FlexValue::Int(1)));
    assert!(!flexible_bool(&FlexValue::Int(0)));
    assert!(!flexible_bool(&FlexValue::Int(2)));
    assert!(flexible_bool(&FlexValue::Text("1".to_string())));
    assert!(flexible_bool(&FlexValue::Text("TRUE".to_string())));
    assert!(flexible_bool(&FlexValue::Text("true".to_string())));
    assert!(!flexible_bool(&FlexValue::Text("false".to_string())));
    assert!(!flexible_bool(&FlexValue::Text("0".to_string())));
    assert!(!flexible_bool(&FlexValue::Other));
}

#[test]
fn identifiers_from_numbers_or_text() {
    assert_eq!(flexible_text(FlexValue::Int(123)), Some("123".to_string()));
    assert_eq!(flexible_text(FlexValue::Int(-42)), Some("-42".to_string()));
    assert_eq!(flexible_text(FlexValue::Text("abc".to_string())), Some("abc".to_string()));
    assert_eq!(flexible_text(FlexValue::Bool(true)), None);
    assert_eq!(flexible_text(FlexValue::Other), None);
}

#[test]
fn decimal_extremes() {
    assert_eq!(signed_to_decimal(0), "0");
    assert_eq!(signed_to_decimal(i64::MAX), "9223372036854775807");
    assert_eq!(signed_to_decimal(i64::MIN), "-9223372036854775808");
}

#[test]
fn substring_search() {
    assert!(contains_text("select limit", "limit"));
    assert!(contains_text("abc", ""));
    assert!(!contains_text("ab", "abc"));
    assert!(!contains_text("lim it", "limit"));
}
