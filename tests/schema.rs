use bleu_daemon::control::{manage_sync, response_result};
use bleu_daemon::engine::process_receipt;
use bleu_daemon::error::ExpectedError;
use bleu_daemon::fanout::{error, read_alert, MultiSender};
use bleu_daemon::json::{JsonEntry, JsonValue};
use bleu_daemon::postgres::PostgresSchema;

fn entry(key: &str, value: JsonValue) -> JsonEntry {
    JsonEntry { key: key.to_string(), value }
}

fn text(s: &str) -> JsonValue {
    JsonValue::Str(s.to_string())
}

fn keys(names: &[&str]) -> JsonValue {
    JsonValue::Array(names.iter().map(|n| text(n)).collect())
}

fn blocks_schema() -> JsonValue {
    JsonValue::Object(vec![
        entry(
            "attributes",
            JsonValue::Object(vec![
                entry("hash", JsonValue::Object(vec![entry("type", text("string")), entry("maxLength", JsonValue::Number("66".to_string()))])),
                entry(
                    "number",
                    JsonValue::Object(vec![
                        entry("type", keys(&["integer", "null"])),
                        entry("description", text("block_number")),
                    ]),
                ),
            ]),
        ),
        entry("uniques", JsonValue::Array(vec![keys(&["hash"])])),
        entry("indexes", JsonValue::Array(vec![keys(&["number", "hash"])])),
    ])
}

#[test]
fn schema_statements_from_description() {
    let schema = PostgresSchema::new("blocks".to_string(), &blocks_schema()).unwrap();
    assert_eq!(schema.schema_name, "blocks");
    assert_eq!(schema.attributes.len(), 2);
    assert_eq!(
        schema.create_table,
        "CREATE TABLE blocks (blocks_id serial8, hash varchar(66) NOT NULL, number bigint NULL, \
         CONSTRAINT blocks_pk PRIMARY KEY (blocks_id), CONSTRAINT blocks_hash_un UNIQUE (hash))"
    );
    assert_eq!(schema.create_index, vec!["CREATE INDEX blocks_number_hash_idx ON blocks USING btree (number, hash)".to_string()]);
    assert_eq!(schema.insert_query, "INSERT INTO blocks (hash, number) VALUES ($hash$, $block_number$)");
}

#[test]
fn schema_rejects_malformed_descriptions() {
    assert!(matches!(PostgresSchema::new("t".to_string(), &text("x")), Err(ExpectedError::ParsingError(_))));
    let no_uniques = JsonValue::Object(vec![entry("attributes", JsonValue::Object(Vec::new())), entry("indexes", JsonValue::Array(Vec::new()))]);
    assert!(matches!(PostgresSchema::new("t".to_string(), &no_uniques), Err(ExpectedError::ParsingError(_))));
    let bad_type = JsonValue::Object(vec![
        entry("attributes", JsonValue::Object(vec![entry("a", JsonValue::Object(vec![entry("type", keys(&["string", "text"]))]))])),
        entry("uniques", JsonValue::Array(Vec::new())),
        entry("indexes", JsonValue::Array(Vec::new())),
    ]);
    assert!(matches!(PostgresSchema::new("t".to_string(), &bad_type), Err(ExpectedError::ParsingError(_))));
    let unknown_type = JsonValue::Object(vec![
        entry("attributes", JsonValue::Object(vec![entry("a", JsonValue::Object(vec![entry("type", text("date"))]))])),
        entry("uniques", JsonValue::Array(Vec::new())),
        entry("indexes", JsonValue::Array(Vec::new())),
    ]);
    assert!(matches!(PostgresSchema::new("t".to_string(), &unknown_type), Err(ExpectedError::ParsingError(_))));
}

#[test]
fn receipt_step_stores_receipt_then_logs() {
    let response = vec![entry(
        "result",
        JsonValue::Object(vec![
            entry("status", text("0x1")),
            entry("gasUsed", text("0x5208")),
            entry(
                "logs",
                JsonValue::Array(vec![JsonValue::Object(vec![entry("logIndex", text("0x2")), entry("data", text("0x00"))])]),
            ),
        ]),
    )];
    let ms = process_receipt(response).unwrap();
    assert_eq!(ms.len(), 2);
    assert_eq!(ms[0].table, "ethereum_tx_receipts");
    assert_eq!(ms[1].table, "ethereum_logs");
    match &ms[0].payload {
        JsonValue::Object(es) => {
            assert!(matches!(&es[1].value, JsonValue::Str(s) if s == "21000"));
        },
        _ => panic!("not an object"),
    }
    match &ms[1].payload {
        JsonValue::Object(es) => {
            assert!(matches!(&es[0].value, JsonValue::Str(s) if s == "2"));
            assert!(matches!(&es[1].value, JsonValue::Str(s) if s == "0x00"));
        },
        _ => panic!("not an object"),
    }
    assert!(matches!(process_receipt(vec![entry("result", JsonValue::Null)]), Err(ExpectedError::ParsingError(_))));
}

#[test]
fn failed_response_carries_remote_error() {
    let body = vec![entry("error", text("rate limited"))];
    match response_result(false, body) {
        Err(ExpectedError::RequestError(m)) => assert_eq!(m, "rate limited"),
        _ => panic!("not a request error"),
    }
    assert!(matches!(response_result(false, Vec::new()), Err(ExpectedError::ParsingError(_))));
    assert_eq!(response_result(true, vec![entry("id", text("1"))]).unwrap().len(), 1);
}

#[test]
fn control_request_reaches_named_source() {
    let mut senders = MultiSender::new(vec!["ethereum_block".to_string()]);
    let params = vec![entry("sync_type", text("ethereum_block"))];
    let reply = manage_sync("stop", &params, &mut senders).unwrap();
    assert_eq!(reply, "requested. sync_type=ethereum_block, method=stop");
    let sent = senders.take_sent();
    assert_eq!(sent.len(), 1);
    assert_eq!(sent[0].sink, "ethereum_block");
    assert!(matches!(&sent[0].payload, JsonValue::Str(m) if m == "stop"));
    let unknown = vec![entry("sync_type", text("substrate"))];
    assert!(matches!(manage_sync("start", &unknown, &mut senders), Err(ExpectedError::NoneError(_))));
    assert!(matches!(manage_sync("start", &Vec::new(), &mut senders), Err(ExpectedError::ParsingError(_))));
}

#[test]
fn alert_payload_reads_back() {
    let mut senders = MultiSender::new(vec!["slack".to_string()]);
    error(&mut senders, ExpectedError::ParsingError("bad".to_string()));
    let sent = senders.take_sent();
    let (level, message) = read_alert(&sent[0].payload).unwrap();
    assert_eq!(level, "error");
    assert_eq!(message, "bad");
    assert!(read_alert(&JsonValue::Null).is_none());
}

#[test]
fn sync_type_parameter_is_read() {
    let params = vec![entry("sync_type", text("ethereum_block"))];
    assert_eq!(bleu_daemon::control::sync_type_param(&params).unwrap(), "ethereum_block");
    let wrong = vec![entry("sync_type", JsonValue::Number("1".to_string()))];
    assert!(matches!(bleu_daemon::control::sync_type_param(&wrong), Err(ExpectedError::ParsingError(_))));
    assert_eq!(ExpectedError::StorageError("corrupt".to_string()).to_string(), "corrupt");
}
