use bleu_daemon::convert::{hex_to_decimal, hex_to_decimal_converter, is_hex_string};
use bleu_daemon::error::ExpectedError;
use bleu_daemon::json::{JsonEntry, JsonValue};

fn entry(key: &str, value: JsonValue) -> JsonEntry {
    JsonEntry { key: key.to_string(), value }
}

fn text(s: &str) -> JsonValue {
    JsonValue::Str(s.to_string())
}

fn get<'a>(entries: &'a [JsonEntry], key: &str) -> &'a JsonValue {
    &entries.iter().find(|e| e.key == key).unwrap().value
}

#[test]
fn hex_to_decimal_test() {
    let decimal_str = hex_to_decimal(String::from("0x16345785d8a0000")).unwrap();
    assert_eq!("100000000000000000", decimal_str);

    let decimal_str = hex_to_decimal(String::from("16345785d8a0000")).unwrap();
    assert_eq!("100000000000000000", decimal_str);
}

#[test]
fn hex_to_decimal_fail_test() {
    let result = hex_to_decimal(String::from("0x16345785d8a0000z"));
    assert!(result.is_err());

    let result = hex_to_decimal(String::from("xx16345785d8a0000"));
    assert!(result.is_err());
}

#[test]
fn hex_to_decimal_converter_test() {
    let test_map = vec![
        entry("key1", text("0x11")),
        entry("key2", text("0x22")),
        entry("key3", text("bleu-daemon")),
        entry("key4", JsonValue::Null),
    ];
    let keys = vec!["key1".to_string(), "key3".to_string(), "key4".to_string()];
    let converted_map = hex_to_decimal_converter(test_map, &keys).unwrap();
    assert!(matches!(get(&converted_map, "key1"), JsonValue::Str(s) if s == "17"));
    assert!(matches!(get(&converted_map, "key2"), JsonValue::Str(s) if s == "0x22"));
    assert!(matches!(get(&converted_map, "key3"), JsonValue::Str(s) if s == "bleu-daemon"));
    assert!(matches!(get(&converted_map, "key4"), JsonValue::Null));
}

#[test]
fn hex_upper_prefix_and_digits_convert() {
    assert_eq!(hex_to_decimal("0XFF".to_string()).unwrap(), "255");
    assert_eq!(hex_to_decimal("0".to_string()).unwrap(), "0");
    assert_eq!(hex_to_decimal("0x0".to_string()).unwrap(), "0");
    assert_eq!(hex_to_decimal("0x00000a".to_string()).unwrap(), "10");
}

#[test]
fn hex_beyond_64_bits_converts() {
    // 2^64 and the largest 256-bit value
    assert_eq!(hex_to_decimal("0x10000000000000000".to_string()).unwrap(), "18446744073709551616");
    let max = format!("0x{}", "f".repeat(64));
    assert_eq!(
        hex_to_decimal(max).unwrap(),
        "115792089237316195423570985008687907853269984665640564039457584007913129639935"
    );
}

#[test]
fn hex_overflow_is_parsing_error() {
    let too_big = format!("0x1{}", "0".repeat(64));
    assert!(matches!(hex_to_decimal(too_big), Err(ExpectedError::ParsingError(_))));
    // leading zeros do not count toward the width
    let padded = format!("0x{}1", "0".repeat(70));
    assert_eq!(hex_to_decimal(padded).unwrap(), "1");
}

#[test]
fn hex_shape_rejections_are_invalid_errors() {
    assert!(matches!(hex_to_decimal("".to_string()), Err(ExpectedError::InvalidError(_))));
    assert!(matches!(hex_to_decimal("0x".to_string()), Err(ExpectedError::InvalidError(_))));
    assert!(matches!(hex_to_decimal("12g".to_string()), Err(ExpectedError::InvalidError(_))));
    assert!(is_hex_string("0xAbC"));
    assert!(!is_hex_string("0x 1"));
}

#[test]
fn converter_reports_overflow() {
    let big = format!("0x1{}", "0".repeat(64));
    let keys = vec!["v".to_string()];
    let r = hex_to_decimal_converter(vec![entry("v", text(&big))], &keys);
    assert!(matches!(r, Err(ExpectedError::ParsingError(_))));
}

#[test]
fn converter_second_pass_keeps_unshaped_fields() {
    let keys = vec!["a".to_string(), "b".to_string()];
    let once = hex_to_decimal_converter(vec![entry("a", text("zz")), entry("b", JsonValue::Bool(true))], &keys).unwrap();
    let twice = hex_to_decimal_converter(once, &keys).unwrap();
    assert!(matches!(get(&twice, "a"), JsonValue::Str(s) if s == "zz"));
    assert!(matches!(get(&twice, "b"), JsonValue::Bool(true)));
}

#[test]
fn converted_decimal_reads_back_as_hex_value() {
    let keys = vec!["n".to_string()];
    let out = hex_to_decimal_converter(vec![entry("n", text("0xdeadbeef"))], &keys).unwrap();
    match get(&out, "n") {
        JsonValue::Str(s) => assert_eq!(s.parse::<u64>().unwrap(), 0xdeadbeef),
        _ => panic!("not a string"),
    }
}
