use anytask::fields::{
    checkbox_state, extract_list_strings, extract_list_strings_from_value, extract_number,
    extract_string, get_string, FieldValue,
};

#[test]
fn extract_string_reads_text_only() {
    let t = FieldValue::Text("hello".to_string());
    assert_eq!(extract_string(Some(&t)), "hello");
    assert_eq!(extract_string(Some(&FieldValue::Number(3))), "");
    assert_eq!(extract_string(Some(&FieldValue::Null)), "");
    assert_eq!(extract_string(None), "");
    assert_eq!(get_string(FieldValue::Text("x".to_string())), "x");
    assert_eq!(get_string(FieldValue::Bool(true)), "");
}

#[test]
fn extract_number_saturates_to_i32() {
    assert_eq!(extract_number(Some(&FieldValue::Number(42))), 42);
    assert_eq!(extract_number(Some(&FieldValue::Number(-7))), -7);
    assert_eq!(extract_number(Some(&FieldValue::Number(5_000_000_000))), i32::MAX);
    assert_eq!(extract_number(Some(&FieldValue::Number(-5_000_000_000))), i32::MIN);
    assert_eq!(extract_number(Some(&FieldValue::Text("3".to_string()))), 0);
    assert_eq!(extract_number(None), 0);
}

#[test]
fn extract_list_strings_skips_non_text() {
    let v = FieldValue::List(vec![
        FieldValue::Text("a".to_string()),
        FieldValue::Number(1),
        FieldValue::Text("b".to_string()),
        FieldValue::Null,
    ]);
    assert_eq!(extract_list_strings(Some(&v)), vec!["a".to_string(), "b".to_string()]);
    assert_eq!(extract_list_strings_from_value(Some(&v)), vec!["a".to_string(), "b".to_string()]);
    let t = FieldValue::Text("a".to_string());
    assert!(extract_list_strings(Some(&t)).is_empty());
    assert!(extract_list_strings(None).is_empty());
}

#[test]
fn checkbox_state_reads_booleans() {
    assert_eq!(checkbox_state(&FieldValue::Bool(true)), Some(true));
    assert_eq!(checkbox_state(&FieldValue::Bool(false)), Some(false));
    assert_eq!(checkbox_state(&FieldValue::Text("true".to_string())), None);
    assert_eq!(checkbox_state(&FieldValue::Empty), None);
}
