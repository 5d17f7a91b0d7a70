//! The decisions of the polling loop: one ingestion step for a fetched block,
//! and how the outcome of a step moves the sync state.
use vstd::prelude::*;
use crate::convert::{hex_to_decimal_converter, normalize_entries, normalize_fits, strings_model};
use crate::error::ExpectedError;
use crate::fanout::{messages_model, SinkMessage};
use crate::filter::{filter, filter_result};
use crate::json::{entries_model, entry_position, lookup, object_get, JsonEntry, JsonModel, JsonValue};
use crate::sync::{
    SyncStateModel, advanced, after_connection_failure, control_state, controlled, error_state, error_text, errored,
    next_idx, note_connection_failure, CheckpointStore, SyncState,
};

verus! {

/// What one ingestion step came to.
#[derive(Debug)]
pub enum StepOutcome {
    /// The unit was taken in; these messages go to the sinks, in order.
    Ingested(Vec<SinkMessage>),
    /// The unit does not exist upstream yet.
    NotReady,
    /// The admission filter rejected the unit.
    Filtered,
    /// The step failed.
    Failed(ExpectedError),
}

pub type MessageModel = (Seq<char>, Seq<char>, JsonModel);

/// Block fields that carry hexadecimal integers.
pub open spec fn block_keys() -> Seq<Seq<char>> {
    seq!["number"@, "size"@, "timestamp"@, "gasLimit"@, "gasUsed"@]
}

/// Transaction fields that carry hexadecimal integers.
pub open spec fn tx_keys() -> Seq<Seq<char>> {
    seq!["blockNumber"@, "gas"@, "gasPrice"@, "nonce"@, "transactionIndex"@, "value"@]
}

/// The messages for one transaction: the normalized transaction for storage, then
/// the request to fetch its receipt. `None` when it is not an object, a field
/// overflows, or it has no string `hash`.
pub open spec fn tx_messages(t: JsonModel) -> Option<Seq<MessageModel>> {
    match t {
        JsonModel::Object(te) => if normalize_fits(te, tx_keys()) {
            let nt = normalize_entries(te, tx_keys());
            match lookup(nt, "hash"@) {
                Some(JsonModel::Str(h)) => Some(
                    seq![
                        ("postgres"@, "ethereum_transactions"@, JsonModel::Object(nt)),
                        (
                            "ethereum_tx_receipt"@,
                            Seq::empty(),
                            JsonModel::Object(seq![("tx_hash"@, JsonModel::Str(h))]),
                        ),
                    ],
                ),
                _ => None,
            }
        } else {
            None
        },
        _ => None,
    }
}

/// The messages for a block's transactions, in order.
pub open spec fn txs_messages(txs: Seq<JsonModel>) -> Option<Seq<MessageModel>>
    decreases txs.len(),
{
    if txs.len() == 0 {
        Some(Seq::empty())
    } else {
        match (txs_messages(txs.drop_last()), tx_messages(txs.last())) {
            (Some(a), Some(b)) => Some(a + b),
            _ => None,
        }
    }
}

/// The messages for an admitted block: the normalized block for storage first,
/// then each transaction's messages. `None` when a field overflows or the
/// transactions are not an array of well-formed objects.
pub open spec fn block_messages(block: Seq<(Seq<char>, JsonModel)>) -> Option<Seq<MessageModel>> {
    if normalize_fits(block, block_keys()) {
        let nb = normalize_entries(block, block_keys());
        match lookup(nb, "transactions"@) {
            Some(JsonModel::Array(txs)) => match txs_messages(txs) {
                Some(ms) => Some(seq![("postgres"@, "ethereum_blocks"@, JsonModel::Object(nb))] + ms),
                None => None,
            },
            _ => None,
        }
    } else {
        None
    }
}

fn block_key_list() -> (r: Vec<String>)
    ensures
        strings_model(r@) == block_keys(),
{
    let r = vec![
        "number".to_string(),
        "size".to_string(),
        "timestamp".to_string(),
        "gasLimit".to_string(),
        "gasUsed".to_string(),
    ];
    assert(strings_model(r@) =~= block_keys());
    r
}

fn tx_key_list() -> (r: Vec<String>)
    ensures
        strings_model(r@) == tx_keys(),
{
    let r = vec![
        "blockNumber".to_string(),
        "gas".to_string(),
        "gasPrice".to_string(),
        "nonce".to_string(),
        "transactionIndex".to_string(),
        "value".to_string(),
    ];
    assert(strings_model(r@) =~= tx_keys());
    r
}

proof fn lemma_txs_none_prefix(txs: Seq<JsonModel>, k: int)
    requires
        0 <= k <= txs.len(),
        txs_messages(txs.subrange(0, k)) is None,
    ensures
        txs_messages(txs) is None,
    decreases txs.len() - k,
{
    if k < txs.len() {
        assert(txs.subrange(0, k + 1).drop_last() =~= txs.subrange(0, k));
        lemma_txs_none_prefix(txs, k + 1);
    } else {
        assert(txs.subrange(0, k) =~= txs);
    }
}

/// The messages for one transaction (see `tx_messages`).
fn tx_step(tx: &JsonValue, keys: &Vec<String>) -> (r: Option<Vec<SinkMessage>>)
    requires
        strings_model(keys@) == tx_keys(),
    ensures
        match r {
            Some(ms) => tx_messages(tx@) == Some(messages_model(ms@)),
            None => tx_messages(tx@) is None,
        },
{
    let copy = tx.duplicate();
    match copy {
        JsonValue::Object(te) => {
            proof {
                crate::json::lemma_object_model(te);
            }
            match hex_to_decimal_converter(te, keys) {
                Ok(nt) => {
                    let hash = match object_get(&nt, "hash") {
                        Some(JsonValue::Str(h)) => h.clone(),
                        _ => {
                            return None;
                        },
                    };
                    let hash2 = hash.clone();
                    let receipt = vec![JsonEntry { key: "tx_hash".to_string(), value: JsonValue::Str(hash2) }];
                    proof {
                        crate::json::lemma_object_model(nt);
                        crate::json::lemma_object_model(receipt);
                        assert(entries_model(receipt@) =~= seq![("tx_hash"@, JsonModel::Str(hash@))]);
                    }
                    let ms = vec![
                        SinkMessage {
                            sink: "postgres".to_string(),
                            table: "ethereum_transactions".to_string(),
                            payload: JsonValue::Object(nt),
                        },
                        SinkMessage {
                            sink: "ethereum_tx_receipt".to_string(),
                            table: String::new(),
                            payload: JsonValue::Object(receipt),
                        },
                    ];
                    assert(messages_model(ms@) =~= tx_messages(tx@)->0);
                    Some(ms)
                },
                Err(_) => None,
            }
        },
        _ => None,
    }
}

/// One ingestion step for an `eth_getBlockByNumber` response: a missing or null
/// `result` is not ready; a block the filter rejects is skipped; otherwise the
/// normalized block is addressed to storage, followed by each normalized
/// transaction and the request for its receipt (see `block_messages`).
/// A malformed response or filter fails with `ParsingError`.
pub fn process_block(response: Vec<JsonEntry>, filter_expression: &String) -> (r: StepOutcome)
    ensures
        match lookup(entries_model(response@), "result"@) {
            None => r is NotReady,
            Some(JsonModel::Null) => r is NotReady,
            Some(JsonModel::Object(b)) => match filter_result(b, filter_expression@) {
                None => r matches StepOutcome::Failed(e) && e is ParsingError,
                Some(false) => r is Filtered,
                Some(true) => match block_messages(b) {
                    Some(ms) => r matches StepOutcome::Ingested(out) && messages_model(out@) == ms,
                    None => r matches StepOutcome::Failed(e) && e is ParsingError,
                },
            },
            Some(_) => r matches StepOutcome::Failed(e) && e is ParsingError,
        },
{
    let ghost resp_m = entries_model(response@);
    let mut resp = response;
    let pos = entry_position(&resp, "result");
    let idx = match pos {
        Some(i) => i,
        None => {
            return StepOutcome::NotReady;
        },
    };
    let entry = resp.remove(idx);
    let block = match entry.value {
        JsonValue::Object(b) => b,
        JsonValue::Null => {
            return StepOutcome::NotReady;
        },
        _ => {
            return StepOutcome::Failed(ExpectedError::ParsingError("result is not object".to_string()));
        },
    };
    proof {
        crate::json::lemma_object_model(block);
    }
    let ghost bm = entries_model(block@);
    match filter(&block, filter_expression.clone()) {
        Ok(true) => {},
        Ok(false) => {
            return StepOutcome::Filtered;
        },
        Err(e) => {
            return StepOutcome::Failed(e);
        },
    }
    let bkeys = block_key_list();
    let nb = match hex_to_decimal_converter(block, &bkeys) {
        Ok(nb) => nb,
        Err(e) => {
            return StepOutcome::Failed(e);
        },
    };
    let ghost nbm = normalize_entries(bm, block_keys());
    assert(entries_model(nb@) == nbm);
    let tkeys = tx_key_list();
    let mut tx_msgs: Vec<SinkMessage> = Vec::new();
    match object_get(&nb, "transactions") {
        Some(JsonValue::Array(txs)) => {
            proof {
                crate::json::lemma_array_model(*txs);
            }
            let ghost tm = txs@.map_values(|x: JsonValue| x@);
            let mut k: usize = 0;
            assert(tm.subrange(0, 0) =~= Seq::<JsonModel>::empty());
            while k < txs.len()
                invariant
                    resp_m == entries_model(response@),
                    lookup(resp_m, "result"@) == Some(JsonModel::Object(bm)),
                    filter_result(bm, filter_expression@) == Some(true),
                    normalize_fits(bm, block_keys()),
                    nbm == normalize_entries(bm, block_keys()),
                    lookup(nbm, "transactions"@) == Some(JsonModel::Array(tm)),
                    tm == txs@.map_values(|x: JsonValue| x@),
                    strings_model(tkeys@) == tx_keys(),
                    k <= txs@.len(),
                    txs_messages(tm.subrange(0, k as int)) == Some(messages_model(tx_msgs@)),
                decreases txs@.len() - k,
            {
                let ghost pre = tm.subrange(0, k as int);
                let ghost next = tm.subrange(0, k + 1);
                assert(next.drop_last() =~= pre);
                assert(next.last() == txs@[k as int]@);
                match tx_step(&txs[k], &tkeys) {
                    Some(ms) => {
                        let ghost before = tx_msgs@;
                        let ghost added = ms@;
                        let mut ms = ms;
                        tx_msgs.append(&mut ms);
                        assert(tx_msgs@ =~= before + added);
                        assert(messages_model(tx_msgs@) =~= messages_model(before) + messages_model(added));
                    },
                    None => {
                        proof {
                            lemma_txs_none_prefix(tm, k + 1);
                        }
                        return StepOutcome::Failed(
                            ExpectedError::ParsingError("invalid transaction".to_string()),
                        );
                    },
                }
                k = k + 1;
            }
            assert(tm.subrange(0, k as int) =~= tm);
        },
        _ => {
            return StepOutcome::Failed(ExpectedError::ParsingError("transactions is not array".to_string()));
        },
    }
    proof {
        crate::json::lemma_object_model(nb);
    }
    let mut out: Vec<SinkMessage> = vec![
        SinkMessage {
            sink: "postgres".to_string(),
            table: "ethereum_blocks".to_string(),
            payload: JsonValue::Object(nb),
        },
    ];
    let ghost first = out@;
    let ghost rest = tx_msgs@;
    out.append(&mut tx_msgs);
    assert(out@ =~= first + rest);
    assert(messages_model(out@) =~= messages_model(first) + messages_model(rest));
    StepOutcome::Ingested(out)
}

} // verus!

verus! {

/// Whether a failure is transient (a connection failure), to be retried at the same position.
pub open spec fn is_transient(e: ExpectedError) -> bool {
    e is ConnectionError
}

/// The record after the control step of a cycle.
pub open spec fn after_control(s: SyncStateModel, control: Option<Seq<char>>) -> SyncStateModel {
    match control {
        None => s,
        Some(m) => match controlled(s, m) {
            Some(next) => next,
            None => s,
        },
    }
}

/// The record after the outcome of an ingestion step (see `finish_step`).
pub open spec fn after_step(s: SyncStateModel, outcome: StepOutcome, failover_threshold: u64) -> SyncStateModel {
    match outcome {
        StepOutcome::Ingested(_) => advanced(s),
        StepOutcome::Filtered => advanced(s),
        StepOutcome::NotReady => s,
        StepOutcome::Failed(e) => if is_transient(e) {
            after_connection_failure(s, failover_threshold)
        } else {
            errored(s, error_text(e))
        },
    }
}

pub open spec fn control_model(control: Option<String>) -> Option<Seq<char>> {
    match control {
        Some(m) => Some(m@),
        None => None,
    }
}

/// Over one cycle (a control message, then any step outcome) the cursor stays or
/// moves forward by one, the start stays, and the cursor stays at or past the start.
pub proof fn lemma_cycle_cursor(
    s: SyncStateModel,
    control: Option<Seq<char>>,
    outcome: StepOutcome,
    failover_threshold: u64,
)
    requires
        s.wf(),
        s.sync_idx < u64::MAX,
    ensures
        after_step(after_control(s, control), outcome, failover_threshold).sync_idx == s.sync_idx
            || after_step(after_control(s, control), outcome, failover_threshold).sync_idx == s.sync_idx + 1,
        after_step(after_control(s, control), outcome, failover_threshold).from_idx == s.from_idx,
        after_step(after_control(s, control), outcome, failover_threshold).sync_idx >= s.from_idx,
{
}

/// The first half of a cycle: applies a pending control message, if any, and says
/// whether to ingest (the status is `Working`). A refused message is handed back as
/// a warning and changes nothing.
pub fn begin_cycle(control: Option<String>, state: &mut SyncState, store: &mut CheckpointStore) -> (r: (
    bool,
    Option<ExpectedError>,
))
    requires
        old(state).wf(),
        old(store).wf(),
    ensures
        final(state).wf(),
        final(store).wf(),
        r.0 == (final(state)@.status == crate::sync::SyncStatus::Working),
        final(state)@ == after_control(old(state)@, control_model(control)),
        match control {
            None => final(state)@ == old(state)@ && final(store)@ == old(store)@ && r.1 is None,
            Some(m) => match controlled(old(state)@, m@) {
                Some(next) => final(state)@ == next && final(store)@ == old(store)@.insert(
                    next.sync_type,
                    next,
                ) && r.1 is None,
                None => final(state)@ == old(state)@ && final(store)@ == old(store)@ && (r.1 matches Some(e) && e is InvalidError),
            },
        },
{
    let mut warning: Option<ExpectedError> = None;
    match control {
        Some(m) => {
            match control_state(m.as_str(), state, store) {
                Ok(_) => {},
                Err(e) => {
                    warning = Some(e);
                },
            }
        },
        None => {},
    }
    (state.is_workable(), warning)
}

/// The second half of a cycle: moves the state by the outcome of the ingestion step.
/// An ingested or filtered unit advances the cursor (persisted); a unit not ready
/// leaves everything as it is; a connection failure only counts toward rotating the
/// endpoint after `failover_threshold` in a row; any other failure records the error
/// (persisted) and returns the alert for the notifier.
pub fn finish_step(
    outcome: &StepOutcome,
    state: &mut SyncState,
    store: &mut CheckpointStore,
    failover_threshold: u64,
) -> (alert: Option<String>)
    requires
        old(state).wf(),
        old(store).wf(),
        old(state)@.sync_idx < u64::MAX,
    ensures
        final(state).wf(),
        final(store).wf(),
        final(state)@ == after_step(old(state)@, *outcome, failover_threshold),
        match outcome {
            StepOutcome::Ingested(_) => final(state)@ == advanced(old(state)@) && final(store)@ == old(store)@.insert(final(state)@.sync_type, final(state)@) && alert is None,
            StepOutcome::Filtered => final(state)@ == advanced(old(state)@) && final(store)@ == old(store)@.insert(final(state)@.sync_type, final(state)@) && alert is None,
            StepOutcome::NotReady => final(state)@ == old(state)@ && final(store)@ == old(store)@
                && alert is None,
            StepOutcome::Failed(e) => if is_transient(*e) {
                final(state)@ == after_connection_failure(old(state)@, failover_threshold)
                    && final(store)@ == old(store)@ && alert is None
            } else {
                final(state)@ == errored(old(state)@, error_text(*e)) && final(store)@ == old(store)@.insert(final(state)@.sync_type, final(state)@) && (alert matches Some(m) && m@
                    == error_text(*e))
            },
        },
{
    match outcome {
        StepOutcome::Ingested(_) => {
            next_idx(state, store);
            None
        },
        StepOutcome::Filtered => {
            next_idx(state, store);
            None
        },
        StepOutcome::NotReady => None,
        StepOutcome::Failed(e) => {
            match e {
                ExpectedError::ConnectionError(_) => {
                    note_connection_failure(state, failover_threshold);
                    None
                },
                _ => {
                    error_state(e.duplicate(), state, store);
                    Some(state.message.clone())
                },
            }
        },
    }
}

} // verus!

verus! {

/// Receipt fields that carry hexadecimal integers.
pub open spec fn receipt_keys() -> Seq<Seq<char>> {
    seq!["blockNumber"@, "cumulativeGasUsed"@, "gasUsed"@, "status"@, "transactionIndex"@]
}

/// Log fields that carry hexadecimal integers.
pub open spec fn log_keys() -> Seq<Seq<char>> {
    seq!["blockNumber"@, "transactionIndex"@, "logIndex"@]
}

/// The storage message for one log; `None` when it is not an object or a field overflows.
pub open spec fn log_message(l: JsonModel) -> Option<MessageModel> {
    match l {
        JsonModel::Object(le) => if normalize_fits(le, log_keys()) {
            Some(("postgres"@, "ethereum_logs"@, JsonModel::Object(normalize_entries(le, log_keys()))))
        } else {
            None
        },
        _ => None,
    }
}

pub open spec fn logs_messages(logs: Seq<JsonModel>) -> Option<Seq<MessageModel>>
    decreases logs.len(),
{
    if logs.len() == 0 {
        Some(Seq::empty())
    } else {
        match (logs_messages(logs.drop_last()), log_message(logs.last())) {
            (Some(a), Some(m)) => Some(a.push(m)),
            _ => None,
        }
    }
}

/// The messages for an `eth_getTransactionReceipt` response: the normalized receipt
/// for storage, then each normalized log. `None` when the result is not an object,
/// a field overflows, or the logs are not an array of objects.
pub open spec fn receipt_messages(response: Seq<(Seq<char>, JsonModel)>) -> Option<Seq<MessageModel>> {
    match lookup(response, "result"@) {
        Some(JsonModel::Object(re)) => if normalize_fits(re, receipt_keys()) {
            let nr = normalize_entries(re, receipt_keys());
            match lookup(nr, "logs"@) {
                Some(JsonModel::Array(logs)) => match logs_messages(logs) {
                    Some(ms) => Some(seq![("postgres"@, "ethereum_tx_receipts"@, JsonModel::Object(nr))] + ms),
                    None => None,
                },
                _ => None,
            }
        } else {
            None
        },
        _ => None,
    }
}

fn string_list(a: &str, b: &str, c: &str) -> (r: Vec<String>)
    ensures
        strings_model(r@) == seq![a@, b@, c@],
{
    let r = vec![a.to_string(), b.to_string(), c.to_string()];
    assert(strings_model(r@) =~= seq![a@, b@, c@]);
    r
}

proof fn lemma_logs_none_prefix(logs: Seq<JsonModel>, k: int)
    requires
        0 <= k <= logs.len(),
        logs_messages(logs.subrange(0, k)) is None,
    ensures
        logs_messages(logs) is None,
    decreases logs.len() - k,
{
    if k < logs.len() {
        assert(logs.subrange(0, k + 1).drop_last() =~= logs.subrange(0, k));
        lemma_logs_none_prefix(logs, k + 1);
    } else {
        assert(logs.subrange(0, k) =~= logs);
    }
}

/// One step of the receipt relay: the receipt and its logs, normalized and addressed
/// to storage (see `receipt_messages`); a malformed response fails with `ParsingError`.
pub fn process_receipt(response: Vec<JsonEntry>) -> (r: Result<Vec<SinkMessage>, ExpectedError>)
    ensures
        match receipt_messages(entries_model(response@)) {
            Some(ms) => r matches Ok(out) && messages_model(out@) == ms,
            None => r matches Err(e) && e is ParsingError,
        },
{
    let ghost resp_m = entries_model(response@);
    let mut resp = response;
    let idx = match entry_position(&resp, "result") {
        Some(i) => i,
        None => {
            return Err(ExpectedError::ParsingError("result does not exist".to_string()));
        },
    };
    let entry = resp.remove(idx);
    let receipt = match entry.value {
        JsonValue::Object(b) => b,
        _ => {
            return Err(ExpectedError::ParsingError("result is not object".to_string()));
        },
    };
    proof {
        crate::json::lemma_object_model(receipt);
    }
    let ghost rm = entries_model(receipt@);
    let rkeys = vec![
        "blockNumber".to_string(),
        "cumulativeGasUsed".to_string(),
        "gasUsed".to_string(),
        "status".to_string(),
        "transactionIndex".to_string(),
    ];
    assert(strings_model(rkeys@) =~= receipt_keys());
    let nr = match hex_to_decimal_converter(receipt, &rkeys) {
        Ok(nr) => nr,
        Err(e) => {
            return Err(e);
        },
    };
    let ghost nrm = normalize_entries(rm, receipt_keys());
    let lkeys = string_list("blockNumber", "transactionIndex", "logIndex");
    let mut log_msgs: Vec<SinkMessage> = Vec::new();
    match object_get(&nr, "logs") {
        Some(JsonValue::Array(logs)) => {
            proof {
                crate::json::lemma_array_model(*logs);
            }
            let ghost lm = logs@.map_values(|x: JsonValue| x@);
            let mut k: usize = 0;
            assert(lm.subrange(0, 0) =~= Seq::<JsonModel>::empty());
            while k < logs.len()
                invariant
                    resp_m == entries_model(response@),
                    lookup(resp_m, "result"@) == Some(JsonModel::Object(rm)),
                    normalize_fits(rm, receipt_keys()),
                    nrm == normalize_entries(rm, receipt_keys()),
                    lookup(nrm, "logs"@) == Some(JsonModel::Array(lm)),
                    lm == logs@.map_values(|x: JsonValue| x@),
                    strings_model(lkeys@) == log_keys(),
                    k <= logs@.len(),
                    logs_messages(lm.subrange(0, k as int)) == Some(messages_model(log_msgs@)),
                decreases logs@.len() - k,
            {
                let ghost next = lm.subrange(0, k + 1);
                assert(next.drop_last() =~= lm.subrange(0, k as int));
                assert(next.last() == logs@[k as int]@);
                let copy = logs[k].duplicate();
                match copy {
                    JsonValue::Object(le) => {
                        proof {
                            crate::json::lemma_object_model(le);
                        }
                        match hex_to_decimal_converter(le, &lkeys) {
                            Ok(nl) => {
                                proof {
                                    crate::json::lemma_object_model(nl);
                                }
                                let ghost before = log_msgs@;
                                log_msgs.push(
                                    SinkMessage {
                                        sink: "postgres".to_string(),
                                        table: "ethereum_logs".to_string(),
                                        payload: JsonValue::Object(nl),
                                    },
                                );
                                assert(messages_model(log_msgs@) =~= messages_model(before).push(
                                    log_message(logs@[k as int]@)->0,
                                ));
                            },
                            Err(e) => {
                                proof {
                                    lemma_logs_none_prefix(lm, k + 1);
                                }
                                return Err(e);
                            },
                        }
                    },
                    _ => {
                        proof {
                            lemma_logs_none_prefix(lm, k + 1);
                        }
                        return Err(ExpectedError::ParsingError("log is not object".to_string()));
                    },
                }
                k = k + 1;
            }
            assert(lm.subrange(0, k as int) =~= lm);
        },
        _ => {
            return Err(ExpectedError::ParsingError("logs is not array".to_string()));
        },
    }
    proof {
        crate::json::lemma_object_model(nr);
    }
    let mut out: Vec<SinkMessage> = vec![
        SinkMessage {
            sink: "postgres".to_string(),
            table: "ethereum_tx_receipts".to_string(),
            payload: JsonValue::Object(nr),
        },
    ];
    let ghost first = out@;
    let ghost rest = log_msgs@;
    out.append(&mut log_msgs);
    assert(out@ =~= first + rest);
    assert(messages_model(out@) =~= messages_model(first) + messages_model(rest));
    Ok(out)
}

} // verus!
