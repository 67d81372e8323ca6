use sapphillon::jsonfix::fix_unquoted_json_keys;
use serde_json::Value;

#[test]
fn test_fix_unquoted_preserves_values() {
    // Ensure true/false/null values are NOT quoted
    let input = r#"{ doc_type: "invoice", is_paid: true, notes: null }"#;
    let fixed = fix_unquoted_json_keys(input);
    let parsed: Value = serde_json::from_str(&fixed).unwrap();
    assert_eq!(parsed["doc_type"], "invoice");
    assert_eq!(parsed["is_paid"], true);
    assert!(parsed["notes"].is_null());
}

#[test]
fn quotes_bare_keys_and_leaves_string_values_alone() {
    let input = r#"{ vendor_name: "colon: inside value", amount: 42 }"#;
    let fixed = fix_unquoted_json_keys(input);
    assert_eq!(
        fixed,
        r#"{ "vendor_name": "colon: inside value", "amount": 42 }"#
    );
}

#[test]
fn repairs_a_stray_quote_after_a_key() {
    let input = "{ line_items\": [1, 2] }";
    let fixed = fix_unquoted_json_keys(input);
    assert_eq!(fixed, "{ \"line_items\": [1, 2] }");
    let parsed: Value = serde_json::from_str(&fixed).unwrap();
    assert_eq!(parsed["line_items"][1], 2);
}

#[test]
fn already_quoted_keys_pass_through() {
    let input = r#"{"a": 1, "b": {"c": true}}"#;
    assert_eq!(fix_unquoted_json_keys(input), input);
}

#[test]
fn escapes_inside_strings_do_not_end_the_string() {
    let input = r#"{ note: "he said \"hi: there\"" }"#;
    let fixed = fix_unquoted_json_keys(input);
    assert_eq!(fixed, r#"{ "note": "he said \"hi: there\"" }"#);
}
