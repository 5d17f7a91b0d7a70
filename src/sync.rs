//! The per-source sync state, its transition rules, and the checkpoint store
//! that holds one record per source.
use vstd::prelude::*;
use crate::error::ExpectedError;

verus! {

#[derive(Debug, Clone, Copy, PartialEq, Eq, Structural)]
pub enum SyncStatus {
    Working,
    Stopped,
    Error,
}

/// The checkpoint record of one ingestion source.
#[derive(Debug)]
pub struct SyncState {
    pub sync_type: String,
    pub chain_id: String,
    pub from_idx: u64,
    pub sync_idx: u64,
    pub endpoints: Vec<String>,
    pub active_endpoint_index: usize,
    pub status: SyncStatus,
    pub message: String,
    pub filter: String,
    pub connection_failures: u64,
}

/// The content of a `SyncState`.
pub struct SyncStateModel {
    pub sync_type: Seq<char>,
    pub chain_id: Seq<char>,
    pub from_idx: u64,
    pub sync_idx: u64,
    pub endpoints: Seq<Seq<char>>,
    pub active_endpoint_index: usize,
    pub status: SyncStatus,
    pub message: Seq<char>,
    pub filter: Seq<char>,
    pub connection_failures: u64,
}

impl View for SyncState {
    type V = SyncStateModel;

    open spec fn view(&self) -> SyncStateModel {
        SyncStateModel {
            sync_type: self.sync_type@,
            chain_id: self.chain_id@,
            from_idx: self.from_idx,
            sync_idx: self.sync_idx,
            endpoints: self.endpoints@.map_values(|e: String| e@),
            active_endpoint_index: self.active_endpoint_index,
            status: self.status,
            message: self.message@,
            filter: self.filter@,
            connection_failures: self.connection_failures,
        }
    }
}

impl SyncStateModel {
    /// The record's invariants: the cursor is not behind its start, an error
    /// carries a message, and exactly one existing endpoint is active.
    pub open spec fn wf(&self) -> bool {
        &&& self.sync_idx >= self.from_idx
        &&& (self.status == SyncStatus::Error ==> self.message.len() > 0)
        &&& self.endpoints.len() > 0
        &&& self.active_endpoint_index < self.endpoints.len()
    }
}

impl SyncState {
    pub open spec fn wf(&self) -> bool {
        self@.wf()
    }

    /// A new record at its starting cursor, working, with the first endpoint active.
    pub fn new(
        sync_type: String,
        chain_id: String,
        from_idx: u64,
        endpoints: Vec<String>,
        filter: String,
    ) -> (r: SyncState)
        requires
            endpoints@.len() > 0,
        ensures
            r.wf(),
            r@.sync_type == sync_type@,
            r@.chain_id == chain_id@,
            r@.from_idx == from_idx,
            r@.sync_idx == from_idx,
            r@.endpoints == endpoints@.map_values(|e: String| e@),
            r@.active_endpoint_index == 0,
            r@.status == SyncStatus::Working,
            r@.message.len() == 0,
            r@.filter == filter@,
            r@.connection_failures == 0,
    {
        SyncState {
            sync_type,
            chain_id,
            from_idx,
            sync_idx: from_idx,
            endpoints,
            active_endpoint_index: 0,
            status: SyncStatus::Working,
            message: String::new(),
            filter,
            connection_failures: 0,
        }
    }

    /// A copy of the record.
    pub fn duplicate(&self) -> (r: SyncState)
        ensures
            r@ == self@,
    {
        let mut endpoints: Vec<String> = Vec::new();
        let mut i: usize = 0;
        while i < self.endpoints.len()
            invariant
                i <= self.endpoints@.len(),
                endpoints@.len() == i,
                forall|k: int| 0 <= k < i ==> (#[trigger] endpoints@[k])@ == self.endpoints@[k]@,
            decreases self.endpoints@.len() - i,
        {
            endpoints.push(self.endpoints[i].clone());
            i = i + 1;
        }
        assert(endpoints@.map_values(|e: String| e@) =~= self.endpoints@.map_values(|e: String| e@));
        let r = SyncState {
            sync_type: self.sync_type.clone(),
            chain_id: self.chain_id.clone(),
            from_idx: self.from_idx,
            sync_idx: self.sync_idx,
            endpoints,
            active_endpoint_index: self.active_endpoint_index,
            status: self.status,
            message: self.message.clone(),
            filter: self.filter.clone(),
            connection_failures: self.connection_failures,
        };
        r
    }

    /// Whether the loop should ingest: the status is `Working`.
    pub fn is_workable(&self) -> (r: bool)
        ensures
            r == (self@.status == SyncStatus::Working),
    {
        self.status == SyncStatus::Working
    }

    /// The endpoint currently selected.
    pub fn active_endpoint(&self) -> (r: &String)
        requires
            self.wf(),
        ensures
            r@ == self@.endpoints[self@.active_endpoint_index as int],
    {
        &self.endpoints[self.active_endpoint_index]
    }

    /// The admission filter expression.
    pub fn get_filter(&self) -> (r: &String)
        ensures
            r@ == self@.filter,
    {
        &self.filter
    }
}

/// Durable records, one per source, keyed by `sync_type`; a write overwrites the whole record.
pub struct CheckpointStore {
    records: Vec<SyncState>,
}

pub open spec fn keys_unique(rs: Seq<SyncState>) -> bool {
    forall|i: int, j: int|
        0 <= i < rs.len() && 0 <= j < rs.len() && i != j ==> (#[trigger] rs[i]).sync_type@
            != (#[trigger] rs[j]).sync_type@
}

impl View for CheckpointStore {
    type V = Map<Seq<char>, SyncStateModel>;

    closed spec fn view(&self) -> Map<Seq<char>, SyncStateModel> {
        Map::new(
            |k: Seq<char>| exists|i: int| 0 <= i < self.records@.len() && (#[trigger] self.records@[i]).sync_type@ == k,
            |k: Seq<char>|
                self.records@[choose|i: int| 0 <= i < self.records@.len() && (#[trigger] self.records@[i]).sync_type@ == k]@,
        )
    }
}

impl CheckpointStore {
    /// Every key is held once.
    pub closed spec fn wf(&self) -> bool {
        keys_unique(self.records@)
    }

    /// An empty store.
    pub fn new() -> (r: CheckpointStore)
        ensures
            r.wf(),
            r@ == Map::<Seq<char>, SyncStateModel>::empty(),
    {
        let r = CheckpointStore { records: Vec::new() };
        assert(r@ =~= Map::<Seq<char>, SyncStateModel>::empty());
        r
    }

    fn position(&self, key: &str) -> (r: Option<usize>)
        requires
            self.wf(),
        ensures
            match r {
                Some(i) => i < self.records@.len() && self.records@[i as int].sync_type@ == key@,
                None => forall|i: int| 0 <= i < self.records@.len() ==> (#[trigger] self.records@[i]).sync_type@ != key@,
            },
    {
        let mut i: usize = 0;
        while i < self.records.len()
            invariant
                i <= self.records@.len(),
                forall|k: int| 0 <= k < i ==> (#[trigger] self.records@[k]).sync_type@ != key@,
            decreases self.records@.len() - i,
        {
            if crate::text::str_eq(self.records[i].sync_type.as_str(), key) {
                return Some(i);
            }
            i = i + 1;
        }
        None
    }

    /// Overwrites the record of `state.sync_type` with a copy of `state`.
    pub fn write(&mut self, state: &SyncState)
        requires
            old(self).wf(),
        ensures
            final(self).wf(),
            final(self)@ == old(self)@.insert(state@.sync_type, state@),
    {
        let copy = state.duplicate();
        match self.position(state.sync_type.as_str()) {
            Some(i) => {
                let ghost before = self.records@;
                self.records.set(i, copy);
                proof {
                    assert forall|a: int, b: int|
                        0 <= a < self.records@.len() && 0 <= b < self.records@.len() && a != b
                            implies (#[trigger] self.records@[a]).sync_type@
                        != (#[trigger] self.records@[b]).sync_type@ by {
                        assert(before[a].sync_type@ != before[b].sync_type@);
                    }
                    self.lemma_view_at(i as int);
                    assert forall|k: Seq<char>| k != state@.sync_type implies (self@.contains_key(k) == old(self)@.contains_key(k)) by {
                        if old(self)@.contains_key(k) {
                            let j = choose|j: int| 0 <= j < before.len() && (#[trigger] before[j]).sync_type@ == k;
                            assert(self.records@[j] == before[j]);
                        }
                        if self@.contains_key(k) {
                            let j = choose|j: int| 0 <= j < self.records@.len() && (#[trigger] self.records@[j]).sync_type@ == k;
                            assert(self.records@[j] == before[j]);
                        }
                    }
                    assert forall|k: Seq<char>| k != state@.sync_type && #[trigger] self@.contains_key(k) implies self@[k] == old(self)@[k] by {
                        let j = choose|j: int| 0 <= j < self.records@.len() && (#[trigger] self.records@[j]).sync_type@ == k;
                        assert(self.records@[j] == before[j]);
                        CheckpointStore::lemma_unique_index(self.records@, j, k);
                        CheckpointStore::lemma_unique_index(before, j, k);
                    }
                    assert(self@ =~= old(self)@.insert(state@.sync_type, state@));
                }
            },
            None => {
                let ghost before = self.records@;
                self.records.push(copy);
                proof {
                    let n = before.len() as int;
                    assert forall|a: int, b: int|
                        0 <= a < self.records@.len() && 0 <= b < self.records@.len() && a != b
                            implies (#[trigger] self.records@[a]).sync_type@
                        != (#[trigger] self.records@[b]).sync_type@ by {
                        if a < n && b < n {
                            assert(before[a].sync_type@ != before[b].sync_type@);
                        } else if a == n {
                            assert(before[b].sync_type@ != state@.sync_type);
                        } else {
                            assert(before[a].sync_type@ != state@.sync_type);
                        }
                    }
                    self.lemma_view_at(n);
                    assert forall|k: Seq<char>| k != state@.sync_type implies (self@.contains_key(k) == old(self)@.contains_key(k)) by {
                        if old(self)@.contains_key(k) {
                            let j = choose|j: int| 0 <= j < before.len() && (#[trigger] before[j]).sync_type@ == k;
                            assert(self.records@[j] == before[j]);
                        }
                        if self@.contains_key(k) {
                            let j = choose|j: int| 0 <= j < self.records@.len() && (#[trigger] self.records@[j]).sync_type@ == k;
                            assert(j < n);
                            assert(self.records@[j] == before[j]);
                        }
                    }
                    assert forall|k: Seq<char>| k != state@.sync_type && #[trigger] self@.contains_key(k) implies self@[k] == old(self)@[k] by {
                        let j = choose|j: int| 0 <= j < self.records@.len() && (#[trigger] self.records@[j]).sync_type@ == k;
                        assert(j < n);
                        assert(self.records@[j] == before[j]);
                        CheckpointStore::lemma_unique_index(self.records@, j, k);
                        CheckpointStore::lemma_unique_index(before, j, k);
                    }
                    assert(self@ =~= old(self)@.insert(state@.sync_type, state@));
                }
            },
        }
    }

    proof fn lemma_unique_index(rs: Seq<SyncState>, j: int, k: Seq<char>)
        requires
            keys_unique(rs),
            0 <= j < rs.len(),
            rs[j].sync_type@ == k,
        ensures
            (choose|i: int| 0 <= i < rs.len() && (#[trigger] rs[i]).sync_type@ == k) == j,
    {
        let c = choose|i: int| 0 <= i < rs.len() && (#[trigger] rs[i]).sync_type@ == k;
        assert(0 <= c < rs.len() && rs[c].sync_type@ == k);
    }

    proof fn lemma_view_at(&self, i: int)
        requires
            self.wf(),
            0 <= i < self.records@.len(),
        ensures
            self@.contains_key(self.records@[i].sync_type@),
            self@[self.records@[i].sync_type@] == self.records@[i]@,
    {
        CheckpointStore::lemma_unique_index(self.records@, i, self.records@[i].sync_type@);
    }

    /// A copy of the record of `sync_type`, if one was written.
    pub fn read(&self, sync_type: &str) -> (r: Option<SyncState>)
        requires
            self.wf(),
        ensures
            match r {
                Some(s) => self@.contains_key(sync_type@) && s@ == self@[sync_type@],
                None => !self@.contains_key(sync_type@),
            },
    {
        match self.position(sync_type) {
            Some(i) => {
                proof {
                    self.lemma_view_at(i as int);
                }
                Some(self.records[i].duplicate())
            },
            None => None,
        }
    }
}

} // verus!

verus! {

/// The record after one successful unit: the cursor moves forward by one, the
/// message and the run of connection failures are cleared, and an error status
/// returns to `Working`.
pub open spec fn advanced(s: SyncStateModel) -> SyncStateModel {
    SyncStateModel {
        sync_idx: (s.sync_idx + 1) as u64,
        message: Seq::empty(),
        connection_failures: 0,
        status: if s.status == SyncStatus::Error {
            SyncStatus::Working
        } else {
            s.status
        },
        ..s
    }
}

pub open spec fn unknown_error_text() -> Seq<char> {
    seq!['u', 'n', 'k', 'n', 'o', 'w', 'n', ' ', 'e', 'r', 'r', 'o', 'r']
}

/// The message recorded for an error: its description, or `unknown error` when that is empty.
pub open spec fn error_text(e: ExpectedError) -> Seq<char> {
    if e.description().len() > 0 {
        e.description()
    } else {
        unknown_error_text()
    }
}

/// The record after a failure: status `Error` with the failure's message; the cursor stays.
pub open spec fn errored(s: SyncStateModel, message: Seq<char>) -> SyncStateModel {
    SyncStateModel { status: SyncStatus::Error, message, ..s }
}

/// The record after a control method: `start` resumes, `stop` halts, anything else is refused.
pub open spec fn controlled(s: SyncStateModel, method: Seq<char>) -> Option<SyncStateModel> {
    if method == seq!['s', 't', 'a', 'r', 't'] {
        Some(SyncStateModel { status: SyncStatus::Working, ..s })
    } else if method == seq!['s', 't', 'o', 'p'] {
        Some(SyncStateModel { status: SyncStatus::Stopped, ..s })
    } else {
        None
    }
}

/// Persists `state` into the checkpoint store.
pub fn save_state(state: &SyncState, store: &mut CheckpointStore)
    requires
        old(store).wf(),
    ensures
        final(store).wf(),
        final(store)@ == old(store)@.insert(state@.sync_type, state@),
{
    store.write(state);
}

/// Persists a freshly created record.
pub fn init_state(state: &SyncState, store: &mut CheckpointStore)
    requires
        old(store).wf(),
    ensures
        final(store).wf(),
        final(store)@ == old(store)@.insert(state@.sync_type, state@),
{
    store.write(state);
}

/// The record of `sync_type`; fails with `NoneError` when none was written.
pub fn load_state(sync_type: &str, store: &CheckpointStore) -> (r: Result<SyncState, ExpectedError>)
    requires
        store.wf(),
    ensures
        match r {
            Ok(s) => store@.contains_key(sync_type@) && s@ == store@[sync_type@],
            Err(e) => !store@.contains_key(sync_type@) && e is NoneError,
        },
{
    match store.read(sync_type) {
        Some(s) => Ok(s),
        None => Err(ExpectedError::NoneError("sync state does not exist".to_string())),
    }
}

/// The record of `seed.sync_type` when one exists; otherwise `seed`, which is persisted first.
pub fn load_or_init(seed: &SyncState, store: &mut CheckpointStore) -> (r: SyncState)
    requires
        old(store).wf(),
    ensures
        final(store).wf(),
        old(store)@.contains_key(seed@.sync_type) ==> r@ == old(store)@[seed@.sync_type]
            && final(store)@ == old(store)@,
        !old(store)@.contains_key(seed@.sync_type) ==> r@ == seed@ && final(store)@ == old(store)@.insert(seed@.sync_type, seed@),
{
    match store.read(seed.sync_type.as_str()) {
        Some(s) => s,
        None => {
            init_state(seed, store);
            seed.duplicate()
        },
    }
}

/// Records a failure: status `Error`, the error's description as message; the cursor
/// does not move. The record is persisted.
pub fn error_state(e: ExpectedError, state: &mut SyncState, store: &mut CheckpointStore)
    requires
        old(store).wf(),
        old(state).wf(),
    ensures
        final(state)@ == errored(old(state)@, error_text(e)),
        final(state).wf(),
        final(store).wf(),
        final(store)@ == old(store)@.insert(final(state)@.sync_type, final(state)@),
{
    let text = e.to_string();
    if text.as_str().unicode_len() > 0 {
        state.message = text;
    } else {
        let fallback = "unknown error".to_string();
        proof {
            reveal_strlit("unknown error");
        }
        assert(fallback@ =~= unknown_error_text());
        state.message = fallback;
    }
    state.status = SyncStatus::Error;
    store.write(state);
}

/// Applies a control method (`start` or `stop`) and persists the record.
/// Any other method fails with `InvalidError` and changes nothing.
pub fn control_state(method: &str, state: &mut SyncState, store: &mut CheckpointStore) -> (r: Result<
    (),
    ExpectedError,
>)
    requires
        old(store).wf(),
        old(state).wf(),
    ensures
        final(store).wf(),
        match controlled(old(state)@, method@) {
            Some(next) => r is Ok && final(state)@ == next && final(state).wf() && final(store)@ == old(store)@.insert(next.sync_type, next),
            None => r matches Err(e) && e is InvalidError && final(state)@ == old(state)@ && final(store)@ == old(store)@,
        },
{
    proof {
        reveal_strlit("start");
        reveal_strlit("stop");
        assert("start"@ =~= seq!['s', 't', 'a', 'r', 't']);
        assert("stop"@ =~= seq!['s', 't', 'o', 'p']);
    }
    if crate::text::str_eq(method, "start") {
        state.status = SyncStatus::Working;
    } else if crate::text::str_eq(method, "stop") {
        state.status = SyncStatus::Stopped;
    } else {
        return Err(ExpectedError::InvalidError("unsupported method; [\"start\", \"stop\"]".to_string()));
    }
    store.write(state);
    Ok(())
}

/// Moves the cursor past a finished unit (see `advanced`) and persists the record.
pub fn next_idx(state: &mut SyncState, store: &mut CheckpointStore)
    requires
        old(store).wf(),
        old(state).wf(),
        old(state)@.sync_idx < u64::MAX,
    ensures
        final(state)@ == advanced(old(state)@),
        final(state).wf(),
        final(store).wf(),
        final(store)@ == old(store)@.insert(final(state)@.sync_type, final(state)@),
{
    state.sync_idx = state.sync_idx + 1;
    state.message = String::new();
    state.connection_failures = 0;
    if state.status == SyncStatus::Error {
        state.status = SyncStatus::Working;
    }
    store.write(state);
}

/// The record after a connection failure: the run of failures grows, and once it
/// reaches `threshold` the next endpoint (round robin) becomes active and the run restarts.
pub open spec fn after_connection_failure(s: SyncStateModel, threshold: u64) -> SyncStateModel {
    let failures = if s.connection_failures < u64::MAX {
        (s.connection_failures + 1) as u64
    } else {
        s.connection_failures
    };
    if failures >= threshold {
        SyncStateModel {
            active_endpoint_index: ((s.active_endpoint_index + 1) % (s.endpoints.len() as int)) as usize,
            connection_failures: 0,
            ..s
        }
    } else {
        SyncStateModel { connection_failures: failures, ..s }
    }
}

/// Counts a connection failure and rotates the active endpoint after `threshold` in a row.
/// The status and the cursor stay as they are.
pub fn note_connection_failure(state: &mut SyncState, threshold: u64)
    requires
        old(state).wf(),
    ensures
        final(state)@ == after_connection_failure(old(state)@, threshold),
        final(state).wf(),
{
    if state.connection_failures < u64::MAX {
        state.connection_failures = state.connection_failures + 1;
    }
    if state.connection_failures >= threshold {
        let n = state.endpoints.len();
        assert(state.active_endpoint_index < n);
        state.active_endpoint_index = (state.active_endpoint_index + 1) % n;
        state.connection_failures = 0;
    }
}

} // verus!

verus! {

/// One cursor-affecting call: `next_idx`, or `error_state` with the message it records.
pub enum CursorStep {
    Advance,
    RecordError(Seq<char>),
}

/// The record after a sequence of cursor-affecting calls.
pub open spec fn replay(s: SyncStateModel, steps: Seq<CursorStep>) -> SyncStateModel
    decreases steps.len(),
{
    if steps.len() == 0 {
        s
    } else {
        let prev = replay(s, steps.drop_last());
        match steps.last() {
            CursorStep::Advance => advanced(prev),
            CursorStep::RecordError(m) => errored(prev, m),
        }
    }
}

proof fn lemma_replay_bound(s: SyncStateModel, steps: Seq<CursorStep>)
    requires
        s.sync_idx + steps.len() <= u64::MAX,
    ensures
        s.sync_idx <= replay(s, steps).sync_idx <= s.sync_idx + steps.len(),
    decreases steps.len(),
{
    if steps.len() > 0 {
        lemma_replay_bound(s, steps.drop_last());
    }
}

/// Cursor monotonicity: along any sequence of advances and recorded errors the
/// cursor never moves back.
pub proof fn lemma_cursor_monotone(s: SyncStateModel, steps: Seq<CursorStep>, i: int, j: int)
    requires
        s.sync_idx + steps.len() <= u64::MAX,
        0 <= i <= j <= steps.len(),
    ensures
        replay(s, steps.subrange(0, i)).sync_idx <= replay(s, steps.subrange(0, j)).sync_idx,
    decreases j - i,
{
    if i < j {
        lemma_cursor_monotone(s, steps, i, j - 1);
        let pre = steps.subrange(0, j);
        assert(pre.drop_last() =~= steps.subrange(0, j - 1));
        lemma_replay_bound(s, steps.subrange(0, j - 1));
    }
}

/// Checkpoint round trip: after `s` is written, reading its source gives back `s`.
pub proof fn lemma_checkpoint_round_trip(before: CheckpointStore, after: CheckpointStore, s: SyncState)
    requires
        after@ == before@.insert(s@.sync_type, s@),
    ensures
        after@.contains_key(s@.sync_type),
        after@[s@.sync_type] == s@,
{
}

/// A control method other than `start` and `stop` is refused.
pub proof fn lemma_unknown_control_rejected(s: SyncStateModel, method: Seq<char>)
    requires
        method != seq!['s', 't', 'a', 'r', 't'],
        method != seq!['s', 't', 'o', 'p'],
    ensures
        controlled(s, method) is None,
{
}

} // verus!
