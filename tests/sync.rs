use bleu_daemon::engine::{begin_cycle, finish_step, process_block, StepOutcome};
use bleu_daemon::error::ExpectedError;
use bleu_daemon::fanout::{error, warn, MultiSender, SinkMessage};
use bleu_daemon::json::{JsonEntry, JsonValue};
use bleu_daemon::sync::{
    control_state, error_state, init_state, load_or_init, load_state, next_idx, note_connection_failure,
    save_state, CheckpointStore, SyncState, SyncStatus,
};

fn state_at(idx: u64) -> SyncState {
    let mut s = SyncState::new(
        "ethereum_block".to_string(),
        "1".to_string(),
        idx,
        vec!["http://a".to_string(), "http://b".to_string()],
        String::new(),
    );
    s.sync_idx = idx;
    s
}

fn entry(key: &str, value: JsonValue) -> JsonEntry {
    JsonEntry { key: key.to_string(), value }
}

fn text(s: &str) -> JsonValue {
    JsonValue::Str(s.to_string())
}

#[test]
fn checkpoint_round_trip() {
    let mut store = CheckpointStore::new();
    let mut s = state_at(7);
    s.message = "m".to_string();
    s.status = SyncStatus::Stopped;
    save_state(&s, &mut store);
    let back = load_state("ethereum_block", &store).unwrap();
    assert_eq!(back.sync_idx, 7);
    assert_eq!(back.status, SyncStatus::Stopped);
    assert_eq!(back.message, "m");
    assert_eq!(back.endpoints, vec!["http://a".to_string(), "http://b".to_string()]);
    assert!(matches!(load_state("other", &store), Err(ExpectedError::NoneError(_))));
}

#[test]
fn load_or_init_persists_seed_once() {
    let mut store = CheckpointStore::new();
    let seed = state_at(3);
    let s = load_or_init(&seed, &mut store);
    assert_eq!(s.sync_idx, 3);
    let mut moved = state_at(9);
    init_state(&moved, &mut store);
    moved.sync_idx = 10;
    let again = load_or_init(&seed, &mut store);
    assert_eq!(again.sync_idx, 9);
}

#[test]
fn control_start_stop_and_rejection() {
    let mut store = CheckpointStore::new();
    let mut s = state_at(1);
    control_state("stop", &mut s, &mut store).unwrap();
    assert_eq!(s.status, SyncStatus::Stopped);
    assert_eq!(store.read("ethereum_block").unwrap().status, SyncStatus::Stopped);
    let r = control_state("restart", &mut s, &mut store);
    assert!(matches!(r, Err(ExpectedError::InvalidError(_))));
    assert_eq!(s.status, SyncStatus::Stopped);
    control_state("start", &mut s, &mut store).unwrap();
    assert_eq!(s.status, SyncStatus::Working);
}

#[test]
fn cursor_never_moves_back() {
    let mut store = CheckpointStore::new();
    let mut s = state_at(5);
    let mut last = s.sync_idx;
    for k in 0..6 {
        if k % 2 == 0 {
            next_idx(&mut s, &mut store);
        } else {
            error_state(ExpectedError::ParsingError("bad".to_string()), &mut s, &mut store);
        }
        assert!(s.sync_idx >= last);
        last = s.sync_idx;
    }
    assert_eq!(s.sync_idx, 8);
}

#[test]
fn error_state_records_message() {
    let mut store = CheckpointStore::new();
    let mut s = state_at(2);
    error_state(ExpectedError::RequestError("boom".to_string()), &mut s, &mut store);
    assert_eq!(s.status, SyncStatus::Error);
    assert_eq!(s.message, "boom");
    assert_eq!(s.sync_idx, 2);
    error_state(ExpectedError::RequestError(String::new()), &mut s, &mut store);
    assert_eq!(s.message, "unknown error");
    next_idx(&mut s, &mut store);
    assert_eq!(s.status, SyncStatus::Working);
    assert_eq!(s.message, "");
}

#[test]
fn endpoint_rotates_after_threshold() {
    let mut s = state_at(0);
    note_connection_failure(&mut s, 2);
    assert_eq!(s.active_endpoint(), "http://a");
    note_connection_failure(&mut s, 2);
    assert_eq!(s.active_endpoint(), "http://b");
    note_connection_failure(&mut s, 1);
    assert_eq!(s.active_endpoint(), "http://a");
}

#[test]
fn not_ready_three_times_then_success() {
    let mut store = CheckpointStore::new();
    let mut s = state_at(100);
    save_state(&s, &mut store);
    for _ in 0..3 {
        let (go, warning) = begin_cycle(None, &mut s, &mut store);
        assert!(go && warning.is_none());
        let alert = finish_step(&StepOutcome::NotReady, &mut s, &mut store, 3);
        assert!(alert.is_none());
        assert_eq!(s.sync_idx, 100);
        assert_eq!(s.status, SyncStatus::Working);
        assert_eq!(s.message, "");
    }
    finish_step(&StepOutcome::Ingested(Vec::new()), &mut s, &mut store, 3);
    assert_eq!(s.sync_idx, 101);
    let saved = store.read("ethereum_block").unwrap();
    assert_eq!(saved.sync_idx, 101);
    assert_eq!(saved.message, "");
}

#[test]
fn hard_failure_records_error_and_alerts() {
    let mut store = CheckpointStore::new();
    let mut s = state_at(4);
    let alert = finish_step(&StepOutcome::Failed(ExpectedError::ParsingError("bad block".to_string())), &mut s, &mut store, 3);
    assert_eq!(alert.unwrap(), "bad block");
    assert_eq!(s.status, SyncStatus::Error);
    assert_eq!(s.sync_idx, 4);
    let (go, _) = begin_cycle(None, &mut s, &mut store);
    assert!(!go);
    let (go, warning) = begin_cycle(Some("start".to_string()), &mut s, &mut store);
    assert!(go && warning.is_none());
    let (_, warning) = begin_cycle(Some("pause".to_string()), &mut s, &mut store);
    assert!(matches!(warning, Some(ExpectedError::InvalidError(_))));
}

#[test]
fn connection_failure_is_transient() {
    let mut store = CheckpointStore::new();
    let mut s = state_at(4);
    let alert = finish_step(&StepOutcome::Failed(ExpectedError::ConnectionError("down".to_string())), &mut s, &mut store, 1);
    assert!(alert.is_none());
    assert_eq!(s.status, SyncStatus::Working);
    assert_eq!(s.sync_idx, 4);
    assert_eq!(s.active_endpoint_index, 1);
    assert!(store.read("ethereum_block").is_none());
}

#[test]
fn filtered_unit_advances() {
    let mut store = CheckpointStore::new();
    let mut s = state_at(10);
    finish_step(&StepOutcome::Filtered, &mut s, &mut store, 3);
    assert_eq!(s.sync_idx, 11);
}

fn block_response() -> Vec<JsonEntry> {
    let tx = |hash: &str| {
        JsonValue::Object(vec![
            entry("hash", text(hash)),
            entry("value", text("0x10")),
            entry("nonce", text("0x1")),
        ])
    };
    vec![
        entry("jsonrpc", text("2.0")),
        entry(
            "result",
            JsonValue::Object(vec![
                entry("number", text("0x64")),
                entry("miner", text("0xabc")),
                entry("transactions", JsonValue::Array(vec![tx("0xaa"), tx("0xbb")])),
            ]),
        ),
    ]
}

fn str_field<'a>(v: &'a JsonValue, key: &str) -> &'a str {
    match v {
        JsonValue::Object(es) => match &es.iter().find(|e| e.key == key).unwrap().value {
            JsonValue::Str(s) => s.as_str(),
            _ => panic!("not a string"),
        },
        _ => panic!("not an object"),
    }
}

#[test]
fn block_step_orders_messages_parent_first() {
    match process_block(block_response(), &String::new()) {
        StepOutcome::Ingested(ms) => {
            let route: Vec<(&str, &str)> = ms.iter().map(|m| (m.sink.as_str(), m.table.as_str())).collect();
            assert_eq!(
                route,
                vec![
                    ("postgres", "ethereum_blocks"),
                    ("postgres", "ethereum_transactions"),
                    ("ethereum_tx_receipt", ""),
                    ("postgres", "ethereum_transactions"),
                    ("ethereum_tx_receipt", ""),
                ]
            );
            assert_eq!(str_field(&ms[0].payload, "number"), "100");
            assert_eq!(str_field(&ms[0].payload, "miner"), "0xabc");
            assert_eq!(str_field(&ms[1].payload, "value"), "16");
            assert_eq!(str_field(&ms[1].payload, "hash"), "0xaa");
            assert_eq!(str_field(&ms[2].payload, "tx_hash"), "0xaa");
            assert_eq!(str_field(&ms[4].payload, "tx_hash"), "0xbb");
        },
        other => panic!("unexpected outcome {:?}", other),
    }
}

#[test]
fn block_step_not_ready_filtered_and_failed() {
    assert!(matches!(process_block(vec![entry("id", text("1"))], &String::new()), StepOutcome::NotReady));
    assert!(matches!(process_block(vec![entry("result", JsonValue::Null)], &String::new()), StepOutcome::NotReady));
    assert!(matches!(process_block(block_response(), &"miner=0xdef".to_string()), StepOutcome::Filtered));
    assert!(matches!(
        process_block(vec![entry("result", text("x"))], &String::new()),
        StepOutcome::Failed(ExpectedError::ParsingError(_))
    ));
    let no_txs = vec![entry("result", JsonValue::Object(vec![entry("number", text("0x1"))]))];
    assert!(matches!(process_block(no_txs, &String::new()), StepOutcome::Failed(ExpectedError::ParsingError(_))));
    assert!(matches!(
        process_block(block_response(), &"miner".to_string()),
        StepOutcome::Failed(ExpectedError::ParsingError(_))
    ));
}

#[test]
fn fanout_rejects_unregistered_sink() {
    let mut senders = MultiSender::new(vec!["postgres".to_string()]);
    assert!(senders.has("postgres"));
    assert!(!senders.has("slack"));
    let m = SinkMessage { sink: "slack".to_string(), table: String::new(), payload: JsonValue::Null };
    assert!(matches!(senders.send(m), Err(ExpectedError::ChannelError(_))));
    let ok = SinkMessage { sink: "postgres".to_string(), table: "t".to_string(), payload: JsonValue::Null };
    senders.send(ok).unwrap();
    let out = senders.take_sent();
    assert_eq!(out.len(), 1);
    assert!(senders.take_sent().is_empty());
}

#[test]
fn notifier_messages_carry_level_and_text() {
    let mut senders = MultiSender::new(vec!["slack".to_string()]);
    error(&mut senders, ExpectedError::IoError("disk".to_string()));
    warn(&mut senders, ExpectedError::InvalidError("odd".to_string()));
    let out = senders.take_sent();
    assert_eq!(out.len(), 2);
    assert_eq!(str_field(&out[0].payload, "level"), "error");
    assert_eq!(str_field(&out[0].payload, "message"), "disk");
    assert_eq!(str_field(&out[1].payload, "level"), "warn");
    let mut none = MultiSender::new(Vec::new());
    error(&mut none, ExpectedError::IoError("x".to_string()));
    assert!(none.take_sent().is_empty());
}
