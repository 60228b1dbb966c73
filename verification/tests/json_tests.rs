use droidianos::json::{escape_json, json_array_strings, json_string_field, push_json_field};

#[test]
fn escape_json_escapes_quotes_backslashes_and_controls() {
    assert_eq!(escape_json("a\"b\\c\nd\re\tf\u{1}g"), "a\\\"b\\\\c\\nd\\re\\tf\\u0001g");
}

#[test]
fn escape_json_escapes_c1_controls_and_keeps_other_text() {
    assert_eq!(escape_json("\u{7f}\u{9f}é✓"), "\\u007f\\u009fé✓");
    assert_eq!(escape_json(""), "");
}

#[test]
fn push_json_field_writes_string_or_null() {
    let mut json = String::from("{");
    push_json_field(&mut json, "a", Some("x\"y"), false);
    push_json_field(&mut json, "b", None, true);
    assert_eq!(json, "{\"a\":\"x\\\"y\",\"b\":null");
}

#[test]
fn json_string_field_reads_first_member() {
    let object = "\"name\":\"A \\\"B\\\" \\\\ C\",\"name\":\"second\"";
    assert_eq!(json_string_field(object, "name").as_deref(), Some("A \"B\" \\ C"));
    assert_eq!(json_string_field(object, "missing"), None);
    assert_eq!(json_string_field("\"name\":\"unterminated", "name"), None);
    assert_eq!(json_string_field("\"n\":\"\\nx\"", "n").as_deref(), Some("nx"));
}

#[test]
fn escaped_value_reads_back() {
    let value = "quote \" backslash \\ braces {}";
    let object = format!("\"field\":\"{}\"", escape_json(value));
    assert_eq!(json_string_field(&object, "field").as_deref(), Some(value));
}

#[test]
fn json_array_strings_reads_string_elements() {
    let contents = "{\"folders\":[\"/a\",\"/b \\\"c\\\"\", 3, \"/d\"]}";
    assert_eq!(json_array_strings(contents, "folders"), vec!["/a", "/b \"c\"", "/d"]);
    assert!(json_array_strings(contents, "other").is_empty());
    assert!(json_array_strings("{\"folders\":[\"/a\"", "folders").is_empty());
    assert!(json_array_strings("{\"folders\":[]}", "folders").is_empty());
}
