use bleu_daemon::error::{ExpectedError, PostgresError};
use bleu_daemon::json::{JsonEntry, JsonValue};
use bleu_daemon::model::{
    convert_str_to_vec, BoardSummary, EthereumBlock, EthereumLog, EthereumReceiptLog, PaginatedEthereumBlock,
    PaginatedRecord,
};
use bleu_daemon::postgres::{
    convert_type, create_insert_query, get_query_value, replace_str, sql_type, Attribute, PostgresSchema,
};

fn entry(key: &str, value: JsonValue) -> JsonEntry {
    JsonEntry { key: key.to_string(), value }
}

fn insert_query_values() -> Vec<JsonEntry> {
    vec![
        entry("a", JsonValue::Str(String::from("x"))),
        entry("b", JsonValue::Str(String::from("y"))),
        entry("c", JsonValue::Bool(false)),
    ]
}

fn query_values() -> Vec<JsonEntry> {
    vec![
        entry("a", JsonValue::Str(String::from("x"))),
        entry("b", JsonValue::Bool(false)),
        entry("c", JsonValue::Number(String::from("1"))),
    ]
}

#[test]
fn postgres_create_insert_query_test() {
    let insert_query = String::from("INSERT INTO test (a, b, c) VALUES ($a$, $b$, $c$)");
    let value_names = vec![String::from("a"), String::from("b"), String::from("c")];
    let created_insert_query = create_insert_query(&insert_query, value_names, &insert_query_values()).unwrap();
    assert_eq!("INSERT INTO test (a, b, c) VALUES ('x', 'y', false)", created_insert_query);
}

#[test]
fn postgres_get_query_value_test() {
    let values = query_values();
    assert_eq!("'x'", get_query_value(&values, "a"));
    assert_eq!("false", get_query_value(&values, "b"));
    assert_eq!("1", get_query_value(&values, "c"));
}

#[test]
fn utils_create_insert_query_test() {
    let insert_query = String::from("INSERT INTO test (a, b, c) VALUES ($a$, $b$, $c$)");
    let value_names = vec![String::from("a"), String::from("b"), String::from("c")];
    let created_insert_query = create_insert_query(&insert_query, value_names, &insert_query_values()).unwrap();
    assert_eq!("INSERT INTO test (a, b, c) VALUES ('x', 'y', false)", created_insert_query);
}

#[test]
fn utils_get_query_value_test() {
    let values = query_values();
    assert_eq!("'x'", get_query_value(&values, "a"));
    assert_eq!("false", get_query_value(&values, "b"));
    assert_eq!("1", get_query_value(&values, "c"));
}

#[test]
fn query_value_of_missing_and_structured_fields() {
    let values = vec![entry("o", JsonValue::Object(vec![entry("k", JsonValue::Number("2".to_string()))]))];
    assert_eq!(get_query_value(&values, "zzz"), "null");
    assert_eq!(get_query_value(&values, "o"), "'{\"k\":2}'");
    assert_eq!(get_query_value(&values, "k"), "2");
}

#[test]
fn replace_is_left_to_right_without_overlap() {
    assert_eq!(replace_str("aaa", "aa", "b"), "ba");
    assert_eq!(replace_str("$x$ $x$", "$x$", "1"), "1 1");
    assert_eq!(replace_str("abc", "", "z"), "abc");
}

#[test]
fn sql_types() {
    assert_eq!(sql_type("string").unwrap(), "varchar");
    assert_eq!(sql_type("integer").unwrap(), "bigint");
    assert_eq!(sql_type("number").unwrap(), "double precision");
    assert_eq!(sql_type("array").unwrap(), "json");
    match sql_type("boolean") {
        Err(PostgresError::UnsupportedType(m)) => assert_eq!(m, "unsupported type: boolean"),
        _ => panic!("accepted"),
    }
    assert_eq!(convert_type("boolean".to_string()).unwrap(), "boolean");
    assert_eq!(convert_type("array".to_string()).unwrap(), "varchar");
    assert!(matches!(convert_type("date".to_string()), Err(ExpectedError::TypeError(_))));
}

#[test]
fn insert_query_lists_columns_and_placeholders() {
    let attributes = vec![
        Attribute::new("hash".to_string(), "hash".to_string(), "string".to_string(), None, false),
        Attribute::new("block_number".to_string(), "number".to_string(), "string".to_string(), Some(80), true),
    ];
    assert_eq!(
        PostgresSchema::insert_query("ethereum_blocks".to_string(), &attributes),
        "INSERT INTO ethereum_blocks (hash, block_number) VALUES ($hash$, $number$)"
    );
    assert_eq!(PostgresSchema::null_or_not(true), "NULL");
    assert_eq!(PostgresSchema::null_or_not(false), "NOT NULL");
}

#[test]
fn topics_text_becomes_list() {
    assert_eq!(convert_str_to_vec("[\"0xa\", \"0xb\"]".to_string()), vec!["0xa".to_string(), "0xb".to_string()]);
    let log = EthereumLog {
        ethereum_logs_id: 1,
        address: Some("0x1".to_string()),
        block_hash: None,
        block_number: Some("5".to_string()),
        log_data: None,
        log_index: None,
        removed: Some(false),
        topics: Some("[\"t1\",\"t2\"]".to_string()),
        transaction_hash: None,
        transaction_index: None,
    };
    let served = EthereumReceiptLog::from(log);
    assert_eq!(served.topics, Some(vec!["t1".to_string(), "t2".to_string()]));
    assert_eq!(served.address, Some("0x1".to_string()));
}

fn block(number: &str) -> EthereumBlock {
    EthereumBlock {
        ethereum_blocks_id: 1,
        author: None,
        base_fee_per_gas: None,
        block_number: Some(number.to_string()),
        block_size: None,
        block_timestamp: None,
        difficulty: None,
        extra_data: None,
        gas_limit: Some("30".to_string()),
        gas_used: Some("20".to_string()),
        hash: None,
        logs_bloom: None,
        miner: None,
        nonce: None,
        parent_hash: None,
        receipt_root: None,
        sha3_uncles: None,
        state_root: None,
        total_difficulty: None,
        transaction_root: None,
        uncles: None,
        txn: 0,
    }
}

#[test]
fn summary_and_page_wrap_records() {
    let s = BoardSummary::new(block("9"), 42);
    assert_eq!(s.latest_block_number, Some("9".to_string()));
    assert_eq!(s.latest_block_gas_used, Some("20".to_string()));
    assert_eq!(s.total_transaction_count, 42);
    let page = PaginatedEthereumBlock::new(PaginatedRecord { page: 2, count: 1, total_page: 3, total_count: 3, records: vec![block("1")] });
    assert_eq!(page.page_info.page, 2);
    assert_eq!(page.page_info.total_count, 3);
    assert_eq!(page.records.len(), 1);
}
