//! The pure halves of the transport and of the control surface: how a response
//! is judged, and how a start/stop request becomes a control message.
use vstd::prelude::*;
use crate::error::ExpectedError;
use crate::fanout::{message_model, MultiSender, SinkMessage};
use crate::json::{entries_model, lookup, object_get, JsonEntry, JsonModel, JsonValue};

verus! {

/// Judges a decoded JSON-RPC response: a success status hands the body on; any
/// other status fails with `RequestError` carrying the body's `error` text, or
/// with `ParsingError` when the body holds no such string.
pub fn response_result(success: bool, body: Vec<JsonEntry>) -> (r: Result<Vec<JsonEntry>, ExpectedError>)
    ensures
        success ==> (r matches Ok(b) && b@ == body@),
        !success ==> match lookup(entries_model(body@), "error"@) {
            Some(JsonModel::Str(m)) => r matches Err(e) && e is RequestError && e->RequestError_0@ == m,
            _ => r matches Err(e) && e is ParsingError,
        },
{
    if success {
        return Ok(body);
    }
    match object_get(&body, "error") {
        Some(JsonValue::Str(m)) => Err(ExpectedError::RequestError(m.clone())),
        _ => Err(ExpectedError::ParsingError("error field does not exist".to_string())),
    }
}

/// The `sync_type` named in a control request's parameters; fails with
/// `ParsingError` when it is missing or not a string.
pub fn sync_type_param(params: &Vec<JsonEntry>) -> (r: Result<String, ExpectedError>)
    ensures
        match lookup(entries_model(params@), "sync_type"@) {
            Some(JsonModel::Str(t)) => r matches Ok(x) && x@ == t,
            _ => r matches Err(e) && e is ParsingError,
        },
{
    match object_get(params, "sync_type") {
        Some(JsonValue::Str(t)) => Ok(t.clone()),
        _ => Err(ExpectedError::ParsingError("sync_type does not exist".to_string())),
    }
}

/// The control message for `method` addressed to the source named in `params`
/// (`{sync_type: ...}`), with the reply text. Fails with `ParsingError` when
/// `sync_type` is missing or not a string, and with `NoneError` ("not found")
/// when no source of that name is registered.
pub fn manage_sync(method: &str, params: &Vec<JsonEntry>, senders: &mut MultiSender) -> (r: Result<
    String,
    ExpectedError,
>)
    ensures
        final(senders).names() == old(senders).names(),
        match lookup(entries_model(params@), "sync_type"@) {
            Some(JsonModel::Str(t)) => if old(senders).names().contains(t) {
                r is Ok && final(senders).sent() == old(senders).sent().push(
                    (t, Seq::empty(), JsonModel::Str(method@)),
                )
            } else {
                r matches Err(e) && e is NoneError && final(senders).sent() == old(senders).sent()
            },
            _ => r matches Err(e) && e is ParsingError && final(senders).sent() == old(senders).sent(),
        },
{
    let sync_type = sync_type_param(params)?;
    if !senders.has(sync_type.as_str()) {
        let mut msg = "sync_type not found: ".to_string();
        crate::text::push_all(&mut msg, sync_type.as_str());
        return Err(ExpectedError::NoneError(msg));
    }
    let mut reply = "requested. sync_type=".to_string();
    crate::text::push_all(&mut reply, sync_type.as_str());
    crate::text::push_all(&mut reply, ", method=");
    crate::text::push_all(&mut reply, method);
    let message = SinkMessage {
        sink: sync_type,
        table: String::new(),
        payload: JsonValue::Str(method.to_string()),
    };
    match senders.send(message) {
        Ok(_) => Ok(reply),
        Err(e) => Err(e),
    }
}

} // verus!
