use bleu_daemon::error::ExpectedError;
use bleu_daemon::filter::{filter, filter_value};
use bleu_daemon::json::{find_value, get_value_by_path, to_json_text, JsonEntry, JsonValue};

fn entry(key: &str, value: JsonValue) -> JsonEntry {
    JsonEntry { key: key.to_string(), value }
}

fn text(s: &str) -> JsonValue {
    JsonValue::Str(s.to_string())
}

fn number(s: &str) -> JsonValue {
    JsonValue::Number(s.to_string())
}

#[test]
fn filter_success_test() {
    let test_map = vec![
        entry("key1", text("val1")),
        entry("key2", JsonValue::Object(vec![entry("sub_key1", text("sub_val1"))])),
        entry("key3", number("100")),
    ];
    let ret = filter(
        &test_map,
        String::from("(key1 = val1 & sub_key1 = sub_val1 & key3 =101) | key4=null | key3=101"),
    )
    .unwrap();
    // key4 is absent, so `key4=null` does not match: every branch is false
    assert_eq!(ret, false);
}

#[test]
fn filter_fail_test() {
    let test_map = vec![
        entry("key1", text("val1")),
        entry("key2", JsonValue::Object(vec![entry("sub_key1", text("sub_val1"))])),
        entry("key3", number("100")),
        entry("key4", text("not_null")),
    ];
    let ret = filter(
        &test_map,
        String::from("(key1 = val1 & sub_key1 = sub_val1 & key3 =100) & key4=null"),
    )
    .unwrap();
    assert_eq!(ret, false);
}

fn sample() -> Vec<JsonEntry> {
    vec![
        entry("key1", text("val1")),
        entry("key2", JsonValue::Object(vec![entry("sub", text("sv"))])),
        entry("key3", number("100")),
    ]
}

#[test]
fn blank_expression_admits_anything() {
    assert_eq!(filter(&sample(), String::new()).unwrap(), true);
    assert_eq!(filter(&sample(), "  \t ".to_string()).unwrap(), true);
    assert_eq!(filter(&Vec::new(), String::new()).unwrap(), true);
}

#[test]
fn grouped_and_with_or_branch() {
    let r = filter(&sample(), "(key1=val1 & sub=sv) | key3=101".to_string()).unwrap();
    assert!(r);
}

#[test]
fn grouped_and_with_failing_null_clause() {
    let mut record = sample();
    record.push(entry("key4", text("not_null")));
    let r = filter(&record, "(key1=val1 & sub=sv & key3=100) & key4=null".to_string()).unwrap();
    assert!(!r);
}

#[test]
fn malformed_clause_is_parsing_error() {
    assert!(matches!(filter(&sample(), "key1".to_string()), Err(ExpectedError::ParsingError(_))));
    assert!(matches!(filter(&sample(), "key1=a=b".to_string()), Err(ExpectedError::ParsingError(_))));
    assert!(matches!(filter_value(&sample(), "novalue"), Err(ExpectedError::ParsingError(_))));
}

#[test]
fn unbalanced_or_missing_operands_are_parsing_errors() {
    assert!(matches!(filter(&sample(), "(key1=val1".to_string()), Err(ExpectedError::ParsingError(_))));
    assert!(matches!(filter(&sample(), "key1=val1)".to_string()), Err(ExpectedError::ParsingError(_))));
    assert!(matches!(filter(&sample(), "key1=val1 &".to_string()), Err(ExpectedError::ParsingError(_))));
    assert!(matches!(filter(&sample(), "()".to_string()), Err(ExpectedError::ParsingError(_))));
}

#[test]
fn operators_have_equal_precedence() {
    // left to right: (a | b) & c, so false
    let r = filter(&sample(), "key1=val1 | key1=x & key3=5".to_string()).unwrap();
    assert!(!r);
    let one = vec![entry("k", text("1"))];
    assert_eq!(filter(&one, "k=1 | k=1 & k=2".to_string()).unwrap(), false);
    assert_eq!(filter(&one, "k=2 & k=1 | k=1".to_string()).unwrap(), true);
    assert_eq!(filter(&one, "k=1 | (k=1 & k=2)".to_string()).unwrap(), true);
    // (a & b) | c with explicit grouping
    let r = filter(&sample(), "(key1=x & key3=5) | key3=100".to_string()).unwrap();
    assert!(r);
}

#[test]
fn dotted_key_addresses_nested_field() {
    assert!(filter(&sample(), "key2.sub=sv".to_string()).unwrap());
    assert!(!filter(&sample(), "key2.other=sv".to_string()).unwrap());
    assert!(!filter(&sample(), "key2.other=null".to_string()).unwrap());
    assert!(!filter(&Vec::new(), "zz=null".to_string()).unwrap());
    let with_null = vec![entry("n", JsonValue::Null)];
    assert!(filter(&with_null, "n=null".to_string()).unwrap());
    match get_value_by_path(&sample(), "key2.sub") {
        Ok(JsonValue::Str(s)) => assert_eq!(s, "sv"),
        _ => panic!("path not found"),
    }
    assert!(matches!(get_value_by_path(&sample(), "key1.sub"), Err(ExpectedError::ParsingError(_))));
    assert!(matches!(get_value_by_path(&sample(), "nope"), Err(ExpectedError::ParsingError(_))));
}

#[test]
fn search_descends_into_arrays_of_objects() {
    let record = vec![
        entry("list", JsonValue::Array(vec![number("1"), JsonValue::Object(vec![entry("deep", text("x"))])])),
        entry("deep", JsonValue::Null),
    ];
    // the object's own field wins, even when it holds null
    assert!(matches!(find_value(&record, "deep"), Some(JsonValue::Null)));
    let nested = vec![entry("list", JsonValue::Array(vec![JsonValue::Object(vec![entry("deep", text("x"))])]))];
    assert!(matches!(find_value(&nested, "deep"), Some(JsonValue::Str(s)) if s == "x"));
    assert!(find_value(&nested, "missing").is_none());
}

#[test]
fn non_string_values_compare_by_json_text() {
    let record = vec![
        entry("flag", JsonValue::Bool(true)),
        entry("tags", JsonValue::Array(vec![number("1"), number("2")])),
    ];
    assert!(filter(&record, "flag=true".to_string()).unwrap());
    assert!(filter(&record, "tags=[1,2]".to_string()).unwrap());
}

#[test]
fn json_text_is_compact_and_escaped() {
    let v = JsonValue::Object(vec![
        entry("a", text("q\"b\\\n\u{1}")),
        entry("b", JsonValue::Array(vec![JsonValue::Null, JsonValue::Bool(false), number("3")])),
    ]);
    assert_eq!(to_json_text(&v), "{\"a\":\"q\\\"b\\\\\\n\\u0001\",\"b\":[null,false,3]}");
}
