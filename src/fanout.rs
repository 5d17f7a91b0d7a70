//! Named outbound channels: messages addressed to registered sinks, kept in send order.
use vstd::prelude::*;
use crate::error::ExpectedError;
use crate::json::{JsonEntry, JsonModel, JsonValue};

verus! {

/// An addressed envelope for a sink.
#[derive(Debug)]
pub struct SinkMessage {
    pub sink: String,
    pub table: String,
    pub payload: JsonValue,
}

/// The content of a message: sink name, table identifier, payload.
pub open spec fn message_model(m: SinkMessage) -> (Seq<char>, Seq<char>, JsonModel) {
    (m.sink@, m.table@, m.payload@)
}

pub open spec fn messages_model(ms: Seq<SinkMessage>) -> Seq<(Seq<char>, Seq<char>, JsonModel)> {
    ms.map_values(|m: SinkMessage| message_model(m))
}

/// A fixed set of sink names and the messages sent to them, oldest first.
/// Sending never blocks: the queue is unbounded and the polling loop hands it
/// out to the sinks once per cycle.
pub struct MultiSender {
    names: Vec<String>,
    outbox: Vec<SinkMessage>,
}

impl MultiSender {
    /// The registered sink names.
    pub closed spec fn names(&self) -> Seq<Seq<char>> {
        self.names@.map_values(|n: String| n@)
    }

    /// The messages sent and not yet taken, in send order.
    pub closed spec fn sent(&self) -> Seq<(Seq<char>, Seq<char>, JsonModel)> {
        messages_model(self.outbox@)
    }

    /// Registers `names`; nothing is sent yet.
    pub fn new(names: Vec<String>) -> (r: MultiSender)
        ensures
            r.names() == names@.map_values(|n: String| n@),
            r.sent().len() == 0,
    {
        MultiSender { names, outbox: Vec::new() }
    }

    /// Whether `name` was registered.
    pub fn has(&self, name: &str) -> (r: bool)
        ensures
            r == self.names().contains(name@),
    {
        let mut i: usize = 0;
        while i < self.names.len()
            invariant
                i <= self.names@.len(),
                forall|k: int| 0 <= k < i ==> (#[trigger] self.names@[k])@ != name@,
            decreases self.names@.len() - i,
        {
            if crate::text::str_eq(self.names[i].as_str(), name) {
                assert(self.names()[i as int] == name@);
                return true;
            }
            i = i + 1;
        }
        assert forall|k: int| 0 <= k < self.names().len() implies self.names()[k] != name@ by {
            assert(self.names()[k] == self.names@[k]@);
        }
        false
    }

    /// Queues `message` for its sink. Fails with `ChannelError`, sending nothing,
    /// when the sink was not registered.
    pub fn send(&mut self, message: SinkMessage) -> (r: Result<(), ExpectedError>)
        ensures
            final(self).names() == old(self).names(),
            match r {
                Ok(_) => old(self).names().contains(message.sink@) && final(self).sent() == old(
                    self,
                ).sent().push(message_model(message)),
                Err(e) => !old(self).names().contains(message.sink@) && e is ChannelError
                    && final(self).sent() == old(self).sent(),
            },
    {
        if !self.has(message.sink.as_str()) {
            return Err(ExpectedError::ChannelError("unregistered sink".to_string()));
        }
        let ghost before = self.outbox@;
        self.outbox.push(message);
        assert(messages_model(self.outbox@) =~= messages_model(before).push(message_model(message)));
        Ok(())
    }

    /// Queues each message in order, stopping at the first unregistered sink.
    pub fn send_all(&mut self, messages: Vec<SinkMessage>) -> (r: Result<(), ExpectedError>)
        ensures
            final(self).names() == old(self).names(),
            r is Ok <==> forall|i: int|
                0 <= i < messages@.len() ==> old(self).names().contains(#[trigger] messages@[i].sink@),
            r is Ok ==> final(self).sent() == old(self).sent() + messages_model(messages@),
            r matches Err(e) ==> e is ChannelError,
    {
        let ghost ms = messages@;
        let n = messages.len();
        let mut rest = messages;
        let ghost start = self.sent();
        let mut i: usize = 0;
        while rest.len() > 0
            invariant
                self.names() == old(self).names(),
                ms == messages@,
                n == ms.len(),
                i + rest@.len() == ms.len(),
                rest@ == ms.subrange(i as int, ms.len() as int),
                forall|k: int| 0 <= k < i ==> old(self).names().contains(#[trigger] ms[k].sink@),
                self.sent() == start + messages_model(ms.subrange(0, i as int)),
                start == old(self).sent(),
            decreases rest@.len(),
        {
            let m = rest.remove(0);
            assert(m == ms[i as int]);
            assert(rest@ =~= ms.subrange(i + 1, ms.len() as int));
            match self.send(m) {
                Ok(_) => {},
                Err(e) => {
                    assert(!old(self).names().contains(ms[i as int].sink@));
                    return Err(e);
                },
            }
            assert(messages_model(ms.subrange(0, i + 1)) =~= messages_model(ms.subrange(0, i as int)).push(
                message_model(ms[i as int]),
            ));
            i = i + 1;
        }
        assert(ms.subrange(0, i as int) =~= ms);
        Ok(())
    }

    /// Hands out the queued messages, oldest first, and empties the queue.
    pub fn take_sent(&mut self) -> (r: Vec<SinkMessage>)
        ensures
            final(self).names() == old(self).names(),
            messages_model(r@) == old(self).sent(),
            final(self).sent().len() == 0,
    {
        let mut out: Vec<SinkMessage> = Vec::new();
        std::mem::swap(&mut out, &mut self.outbox);
        out
    }
}

} // verus!

verus! {

/// The notification for an error: `{level, message}` addressed to the `slack` sink.
pub open spec fn alert_model(level: Seq<char>, e: ExpectedError) -> (Seq<char>, Seq<char>, JsonModel) {
    (
        "slack"@,
        Seq::empty(),
        JsonModel::Object(seq![("level"@, JsonModel::Str(level)), ("message"@, JsonModel::Str(e.description()))]),
    )
}

fn notify(senders: &mut MultiSender, level: &str, e: ExpectedError)
    ensures
        final(senders).names() == old(senders).names(),
        old(senders).names().contains("slack"@) ==> final(senders).sent() == old(senders).sent().push(
            alert_model(level@, e),
        ),
        !old(senders).names().contains("slack"@) ==> final(senders).sent() == old(senders).sent(),
{
    let entries = vec![
        JsonEntry { key: "level".to_string(), value: JsonValue::Str(level.to_string()) },
        JsonEntry { key: "message".to_string(), value: JsonValue::Str(e.to_string()) },
    ];
    proof {
        crate::json::lemma_object_model(entries);
        assert(crate::json::entries_model(entries@) =~= seq![
            ("level"@, JsonModel::Str(level@)),
            ("message"@, JsonModel::Str(e.description())),
        ]);
    }
    let message = SinkMessage {
        sink: "slack".to_string(),
        table: String::new(),
        payload: JsonValue::Object(entries),
    };
    // a notifier that is not there is no reason to stop
    let _ = senders.send(message);
}

/// Alerts the notifier of an error; delivery is best effort.
pub fn error(senders: &mut MultiSender, e: ExpectedError)
    ensures
        final(senders).names() == old(senders).names(),
        old(senders).names().contains("slack"@) ==> final(senders).sent() == old(senders).sent().push(
            alert_model("error"@, e),
        ),
        !old(senders).names().contains("slack"@) ==> final(senders).sent() == old(senders).sent(),
{
    notify(senders, "error", e);
}

/// Warns the notifier; delivery is best effort.
pub fn warn(senders: &mut MultiSender, e: ExpectedError)
    ensures
        final(senders).names() == old(senders).names(),
        old(senders).names().contains("slack"@) ==> final(senders).sent() == old(senders).sent().push(
            alert_model("warn"@, e),
        ),
        !old(senders).names().contains("slack"@) ==> final(senders).sent() == old(senders).sent(),
{
    notify(senders, "warn", e);
}

} // verus!

verus! {

/// The level and text of a notification payload (`{level, message}`, both strings).
pub fn read_alert(payload: &JsonValue) -> (r: Option<(String, String)>)
    ensures
        match payload@ {
            JsonModel::Object(es) => match (crate::json::lookup(es, "level"@), crate::json::lookup(es, "message"@)) {
                (Some(JsonModel::Str(l)), Some(JsonModel::Str(m))) => r matches Some(x) && x.0@ == l && x.1@ == m,
                _ => r is None,
            },
            _ => r is None,
        },
{
    match payload {
        JsonValue::Object(es) => {
            proof {
                crate::json::lemma_object_model(*es);
            }
            let level = match crate::json::object_get(es, "level") {
                Some(JsonValue::Str(l)) => l.clone(),
                _ => {
                    return None;
                },
            };
            match crate::json::object_get(es, "message") {
                Some(JsonValue::Str(m)) => Some((level, m.clone())),
                _ => None,
            }
        },
        _ => None,
    }
}

} // verus!
