//! What a voter keeps: its vote, the log, and the state that the log has led to.
use vstd::prelude::*;
use vstd::string::*;

use crate::collections;
use crate::collections::OrdMap;
use crate::consensus::{Applied, AppliedView, Replicated, ReplicatedView};
use crate::error;
use crate::error::{Error, ErrorView, Outcome, Result};
use crate::events::{Event, EventView};
use crate::governance::{digest, State};
use crate::journal;
use crate::journal::{Command, CommandView, MAX_STATE};
use crate::laws::histories;
use crate::laws::histories::Submission;
use crate::model::rules;
use crate::model::views::{StateView, Text};
use crate::order::{copy_bytes, same_bytes, same_text, Duplicate};
use crate::outside;
use crate::service;

verus! {

/// The longest file that a voter keeps.
pub const MAX_STORE: u64 = 67_108_864;

/// The longest snapshot that is taken over from another voter.
pub const MAX_RAFT_SNAPSHOT: u64 = 16_777_216;

/// The place of an entry in the log: who led when it was proposed, and its number.
#[derive(Debug, Clone, Copy, PartialEq, Eq, Structural)]
pub struct LogId {
    pub term: u64,
    pub node: u64,
    pub index: u64,
}

impl DeepView for LogId {
    type V = LogId;

    open spec fn deep_view(&self) -> LogId {
        *self
    }
}

impl Duplicate for LogId {
    fn duplicate(&self) -> (r: Self) {
        *self
    }
}


/// Whom a voter has voted for.
#[derive(Debug, Clone, Copy, PartialEq, Eq, Structural)]
pub struct Vote {
    pub term: u64,
    pub node: u64,
    pub committed: bool,
}

impl DeepView for Vote {
    type V = Vote;

    open spec fn deep_view(&self) -> Vote {
        *self
    }
}

impl Duplicate for Vote {
    fn duplicate(&self) -> (r: Self) {
        *self
    }
}


/// What an entry of the log carries. Who votes is kept as JSON.
#[derive(Debug, PartialEq, Eq)]
pub enum Payload {
    Blank,
    Normal { request: Replicated },
    Membership { json: Vec<u8> },
}

/// What a [`Payload`] stands for.
pub enum PayloadView {
    Blank,
    Normal { request: ReplicatedView },
    Membership { json: Seq<u8> },
}

impl Payload {
    /// What the value stands for.
    pub open spec fn model(&self) -> PayloadView
        decreases self,
    {
        match self {
            Payload::Blank => PayloadView::Blank,
            Payload::Normal { request } => PayloadView::Normal { request: request.deep_view() },
            Payload::Membership { json } => PayloadView::Membership { json: json@ },
        }
    }
}

impl DeepView for Payload {
    type V = PayloadView;

    open spec fn deep_view(&self) -> PayloadView {
        self.model()
    }
}

impl View for Payload {
    type V = PayloadView;

    open spec fn view(&self) -> PayloadView {
        self.model()
    }
}

impl Payload {
    fn copy(&self) -> (r: Self)
        ensures
            r@ == self@,
        decreases self,
    {
        match self {
            Payload::Blank => Payload::Blank,
            Payload::Normal { request } => Payload::Normal { request: request.duplicate() },
            Payload::Membership { json } => Payload::Membership { json: copy_bytes(&json) },
        }
    }
}

impl Duplicate for Payload {
    fn duplicate(&self) -> (r: Self) {
        self.copy()
    }
}

impl Clone for Payload {
    fn clone(&self) -> (r: Self)
        ensures
            r@ == self@,
    {
        self.duplicate()
    }
}


/// An entry of the log.
#[derive(Debug, PartialEq, Eq)]
pub struct LogEntry {
    pub log_id: LogId,
    pub payload: Payload,
}

/// What a [`LogEntry`] stands for.
#[verifier::ext_equal]
pub struct LogEntryView {
    pub log_id: LogId,
    pub payload: PayloadView,
}

impl DeepView for LogEntry {
    type V = LogEntryView;

    open spec fn deep_view(&self) -> LogEntryView {
        LogEntryView {
            log_id: self.log_id,
            payload: self.payload.deep_view(),
        }
    }
}

impl View for LogEntry {
    type V = LogEntryView;

    open spec fn view(&self) -> LogEntryView {
        self.deep_view()
    }
}

impl Duplicate for LogEntry {
    fn duplicate(&self) -> (r: Self) {
        LogEntry {
            log_id: self.log_id,
            payload: self.payload.duplicate(),
        }
    }
}

impl Clone for LogEntry {
    fn clone(&self) -> (r: Self)
        ensures
            r@ == self@,
    {
        self.duplicate()
    }
}


/// Who votes, as JSON, and the entry that says so.
#[derive(Debug, PartialEq, Eq)]
pub struct StoredMembership {
    pub log_id: Option<LogId>,
    pub json: Vec<u8>,
}

/// What a [`StoredMembership`] stands for.
#[verifier::ext_equal]
pub struct StoredMembershipView {
    pub log_id: Option<LogId>,
    pub json: Seq<u8>,
}

impl DeepView for StoredMembership {
    type V = StoredMembershipView;

    open spec fn deep_view(&self) -> StoredMembershipView {
        StoredMembershipView {
            log_id: self.log_id,
            json: self.json@,
        }
    }
}

impl View for StoredMembership {
    type V = StoredMembershipView;

    open spec fn view(&self) -> StoredMembershipView {
        self.deep_view()
    }
}

impl Duplicate for StoredMembership {
    fn duplicate(&self) -> (r: Self) {
        StoredMembership {
            log_id: self.log_id,
            json: copy_bytes(&self.json),
        }
    }
}

impl Clone for StoredMembership {
    fn clone(&self) -> (r: Self)
        ensures
            r@ == self@,
    {
        self.duplicate()
    }
}


/// What the entries of the log have led to.
#[derive(Debug, PartialEq, Eq)]
pub struct Machine {
    pub applied: Option<LogId>,
    pub membership: StoredMembership,
    pub state: State,
}

/// What a [`Machine`] stands for.
#[verifier::ext_equal]
pub struct MachineView {
    pub applied: Option<LogId>,
    pub membership: StoredMembershipView,
    pub state: StateView,
}

impl DeepView for Machine {
    type V = MachineView;

    open spec fn deep_view(&self) -> MachineView {
        MachineView {
            applied: self.applied,
            membership: self.membership.deep_view(),
            state: self.state.deep_view(),
        }
    }
}

impl View for Machine {
    type V = MachineView;

    open spec fn view(&self) -> MachineView {
        self.deep_view()
    }
}

impl Duplicate for Machine {
    fn duplicate(&self) -> (r: Self) {
        Machine {
            applied: self.applied,
            membership: self.membership.duplicate(),
            state: self.state.duplicate(),
        }
    }
}

impl Clone for Machine {
    fn clone(&self) -> (r: Self)
        ensures
            r@ == self@,
    {
        self.duplicate()
    }
}


/// What a snapshot is of.
#[derive(Debug, PartialEq, Eq)]
pub struct SnapshotMeta {
    pub last_log_id: Option<LogId>,
    pub last_membership: StoredMembership,
    pub snapshot_id: String,
}

/// What a [`SnapshotMeta`] stands for.
#[verifier::ext_equal]
pub struct SnapshotMetaView {
    pub last_log_id: Option<LogId>,
    pub last_membership: StoredMembershipView,
    pub snapshot_id: Text,
}

impl DeepView for SnapshotMeta {
    type V = SnapshotMetaView;

    open spec fn deep_view(&self) -> SnapshotMetaView {
        SnapshotMetaView {
            last_log_id: self.last_log_id,
            last_membership: self.last_membership.deep_view(),
            snapshot_id: self.snapshot_id@,
        }
    }
}

impl View for SnapshotMeta {
    type V = SnapshotMetaView;

    open spec fn view(&self) -> SnapshotMetaView {
        self.deep_view()
    }
}

impl Duplicate for SnapshotMeta {
    fn duplicate(&self) -> (r: Self) {
        SnapshotMeta {
            last_log_id: self.last_log_id,
            last_membership: self.last_membership.duplicate(),
            snapshot_id: self.snapshot_id.clone(),
        }
    }
}

impl Clone for SnapshotMeta {
    fn clone(&self) -> (r: Self)
        ensures
            r@ == self@,
    {
        self.duplicate()
    }
}


/// A snapshot of the machine, as JSON.
#[derive(Debug, PartialEq, Eq)]
pub struct StoredSnapshot {
    pub meta: SnapshotMeta,
    pub data: Vec<u8>,
}

/// What a [`StoredSnapshot`] stands for.
#[verifier::ext_equal]
pub struct StoredSnapshotView {
    pub meta: SnapshotMetaView,
    pub data: Seq<u8>,
}

impl DeepView for StoredSnapshot {
    type V = StoredSnapshotView;

    open spec fn deep_view(&self) -> StoredSnapshotView {
        StoredSnapshotView {
            meta: self.meta.deep_view(),
            data: self.data@,
        }
    }
}

impl View for StoredSnapshot {
    type V = StoredSnapshotView;

    open spec fn view(&self) -> StoredSnapshotView {
        self.deep_view()
    }
}

impl Duplicate for StoredSnapshot {
    fn duplicate(&self) -> (r: Self) {
        StoredSnapshot {
            meta: self.meta.duplicate(),
            data: copy_bytes(&self.data),
        }
    }
}

impl Clone for StoredSnapshot {
    fn clone(&self) -> (r: Self)
        ensures
            r@ == self@,
    {
        self.duplicate()
    }
}


/// All that a voter keeps.
#[derive(Debug, PartialEq, Eq)]
pub struct Store {
    pub version: u8,
    pub genesis: String,
    pub vote: Option<Vote>,
    pub committed: Option<LogId>,
    pub purged: Option<LogId>,
    pub logs: OrdMap<u64, LogEntry>,
    pub machine: Machine,
    pub snapshot: Option<StoredSnapshot>,
}

/// What a [`Store`] stands for.
#[verifier::ext_equal]
pub struct StoreView {
    pub version: u8,
    pub genesis: Text,
    pub vote: Option<Vote>,
    pub committed: Option<LogId>,
    pub purged: Option<LogId>,
    pub logs: Map<u64, LogEntryView>,
    pub machine: MachineView,
    pub snapshot: Option<StoredSnapshotView>,
}

impl DeepView for Store {
    type V = StoreView;

    open spec fn deep_view(&self) -> StoreView {
        StoreView {
            version: self.version,
            genesis: self.genesis@,
            vote: self.vote,
            committed: self.committed,
            purged: self.purged,
            logs: self.logs@,
            machine: self.machine.deep_view(),
            snapshot: self.snapshot.deep_view(),
        }
    }
}

impl View for Store {
    type V = StoreView;

    open spec fn view(&self) -> StoreView {
        self.deep_view()
    }
}

impl Duplicate for Store {
    fn duplicate(&self) -> (r: Self) {
        Store {
            version: self.version,
            genesis: self.genesis.clone(),
            vote: self.vote,
            committed: self.committed,
            purged: self.purged,
            logs: self.logs.duplicate(),
            machine: self.machine.duplicate(),
            snapshot: self.snapshot.duplicate(),
        }
    }
}

impl Clone for Store {
    fn clone(&self) -> (r: Self)
        ensures
            r@ == self@,
    {
        self.duplicate()
    }
}


/// Which of two places in the log is the earlier one: the one under the earlier leader, or under
/// the same leader the one with the lower number.
pub open spec fn log_before(a: LogId, b: LogId) -> bool {
    ||| a.term < b.term
    ||| a.term == b.term && a.node < b.node
    ||| a.term == b.term && a.node == b.node && a.index < b.index
}

impl LogId {
    /// Whether this place is before the other one.
    pub fn precedes(&self, other: &LogId) -> (r: bool)
        ensures
            r == log_before(*self, *other),
    {
        self.term < other.term || (self.term == other.term && (self.node < other.node || (self.node
            == other.node && self.index < other.index)))
    }
}

/// The store of a voter that has not taken part yet.
pub open spec fn fresh_store(genesis: StateView, hash: Text) -> StoreView {
    StoreView {
        version: 1,
        genesis: hash,
        vote: None,
        committed: None,
        purged: None,
        logs: Map::empty(),
        machine: MachineView {
            applied: None,
            membership: StoredMembershipView { log_id: None, json: Seq::empty() },
            state: genesis,
        },
        snapshot: None,
    }
}

/// The store that a voter begins with. `hash` is the digest of the first state.
pub open spec fn opened_store(found: Option<StoreView>, genesis: StateView, hash: Text) -> Outcome<
    StoreView,
> {
    match found {
        None => Ok(fresh_store(genesis, hash)),
        Some(store) => if store.version != 1 || store.genesis != hash {
            Err(ErrorView::Denied)
        } else {
            Ok(store)
        },
    }
}

/// The log with the first `n` of the given entries, each in its place.
pub open spec fn appended(
    logs: Map<u64, LogEntryView>,
    entries: Seq<LogEntryView>,
    n: nat,
) -> Map<u64, LogEntryView>
    decreases n,
{
    if n == 0 {
        logs
    } else {
        let e = entries[n - 1];
        appended(logs, entries, (n - 1) as nat).insert(e.log_id.index, e)
    }
}

/// The log up to the given number, without the entry there.
pub open spec fn truncated(logs: Map<u64, LogEntryView>, index: u64) -> Map<u64, LogEntryView> {
    logs.restrict(Set::new(|i: u64| i < index))
}

/// The log after the given number.
pub open spec fn kept_after(logs: Map<u64, LogEntryView>, index: u64) -> Map<u64, LogEntryView> {
    logs.restrict(Set::new(|i: u64| i > index))
}

/// The store without the entries up to the given place, which must not be before the one up to
/// which it was cleared already.
pub open spec fn purged_store(s: StoreView, id: LogId) -> Outcome<StoreView> {
    if s.purged is Some && log_before(id, s.purged->0) {
        Err(ErrorView::Io("purge moved backwards"@))
    } else {
        Ok(StoreView { purged: Some(id), logs: kept_after(s.logs, id.index), ..s })
    }
}

/// The last place in the log: that of its last entry, or the one up to which it was cleared.
pub open spec fn last_log_id(s: StoreView) -> Option<LogId> {
    let keys = collections::keys_of::<u64, LogEntryView>(s.logs);
    if keys.len() == 0 {
        s.purged
    } else {
        Some(s.logs[keys.last()].log_id)
    }
}

/// The number is from `start` on and, where there is an end, before `end`.
pub open spec fn within(index: u64, start: u64, end: Option<u64>) -> bool {
    start <= index && (end matches Some(e) ==> index < e)
}

/// The numbers of the entries in a range, in ascending order.
pub open spec fn numbers_within(logs: Map<u64, LogEntryView>, start: u64, end: Option<u64>) -> Seq<
    u64,
> {
    collections::keys_of::<u64, LogEntryView>(logs).filter(|i: u64| within(i, start, end))
}

/// The state that a replicated command leads to.
pub open spec fn decided(
    s: StoreView,
    request: ReplicatedView,
    decoded: std::result::Result<CommandView, Text>,
) -> Outcome<StateView> {
    if request.cluster != s.genesis {
        Err(ErrorView::Denied)
    } else {
        journal::commanded(s.machine.state, request.command, decoded, request.time_ms)
    }
}

/// A state that takes so many bytes as JSON, or an error where clients could not retrieve it.
pub open spec fn retrievable(next: StateView, len: nat) -> Outcome<StateView> {
    if len > MAX_STATE {
        Err(ErrorView::Capacity)
    } else {
        Ok(next)
    }
}

/// The machine after an entry that led to the given state or to an error.
pub open spec fn settled(m: MachineView, id: LogId, result: Outcome<StateView>) -> MachineView {
    MachineView {
        applied: Some(id),
        state: match result {
            Ok(next) => next,
            Err(_) => m.state,
        },
        ..m
    }
}

/// What is told of an entry that led to the given state or to an error.
pub open spec fn told(m: MachineView, result: Outcome<StateView>) -> AppliedView {
    AppliedView {
        revision: match result {
            Ok(next) => next.revision,
            Err(_) => m.state.revision,
        },
        error: match result {
            Ok(_) => None,
            Err(e) => Some(error::error_text(e)),
        },
    }
}

/// The machine after an entry without a command. It may say who votes.
pub open spec fn passed(m: MachineView, id: LogId, membership: Option<Seq<u8>>) -> MachineView {
    MachineView {
        applied: Some(id),
        membership: match membership {
            Some(json) => StoredMembershipView { log_id: Some(id), json },
            None => m.membership,
        },
        ..m
    }
}

/// The store with a snapshot of another voter, or why it is not taken over.
pub open spec fn installed(
    s: StoreView,
    meta: SnapshotMetaView,
    machine: MachineView,
    data: Seq<u8>,
) -> Outcome<StoreView> {
    if machine.applied != meta.last_log_id || machine.membership != meta.last_membership {
        Err(ErrorView::Io("snapshot metadata mismatch"@))
    } else {
        Ok(StoreView { machine, snapshot: Some(StoredSnapshotView { meta, data }), ..s })
    }
}

fn same_log_id(a: Option<LogId>, b: Option<LogId>) -> (r: bool)
    ensures
        r == (a == b),
{
    match (a, b) {
        (None, None) => true,
        (Some(x), Some(y)) => x == y,
        _ => false,
    }
}

impl Store {
    /// The store that a voter begins with: the one that was found, or a new one. `hash` is the
    /// digest of the first state.
    pub fn open(found: Option<Store>, genesis: State, hash: String) -> (r: Result<Self>)
        ensures
            error::outcome(r) == opened_store(found.deep_view(), genesis@, hash@),
    {
        match found {
            Some(store) => {
                if store.version != 1 || !same_text(store.genesis.as_str(), hash.as_str()) {
                    return Err(Error::Denied);
                }
                Ok(store)
            },
            None => {
                let json: Vec<u8> = Vec::new();
                assert(json@ =~= Seq::<u8>::empty());
                let store = Store {
                    version: 1,
                    genesis: hash,
                    vote: None,
                    committed: None,
                    purged: None,
                    logs: OrdMap::new(),
                    machine: Machine {
                        applied: None,
                        membership: StoredMembership { log_id: None, json },
                        state: genesis,
                    },
                    snapshot: None,
                };
                Ok(store)
            },
        }
    }

    /// The state that the log has led to.
    pub fn state(&self) -> (r: State)
        ensures
            r@ == self@.machine.state,
    {
        self.machine.state.duplicate()
    }

    /// The digest of the first state, which names the cluster.
    pub fn cluster_id(&self) -> (r: String)
        ensures
            r@ == self@.genesis,
    {
        self.genesis.clone()
    }

    /// Refuses a store that is too long.
    pub fn check_size(len: u64) -> (r: Result<()>)
        ensures
            len <= MAX_STORE ==> r is Ok,
            len > MAX_STORE ==> r is Err && r->Err_0@ == ErrorView::Capacity,
    {
        if len > MAX_STORE {
            Err(Error::Capacity)
        } else {
            Ok(())
        }
    }

    /// Refuses to keep a store that is too long.
    pub fn check_update(len: u64) -> (r: Result<()>)
        ensures
            len <= MAX_STORE ==> r is Ok,
            len > MAX_STORE ==> r is Err && r->Err_0@ == ErrorView::Io(
                "raft store capacity exceeded"@,
            ),
    {
        if len > MAX_STORE {
            Err(Error::Io("raft store capacity exceeded".to_owned()))
        } else {
            Ok(())
        }
    }

    /// Notice of the state, where a change has led to another one. `before` and `after` are the
    /// states as JSON.
    pub fn notice(&self, before: &[u8], after: &[u8]) -> (r: Option<Event>)
        ensures
            r.deep_view() == (if before@ == after@ {
                None
            } else {
                Some(
                    EventView {
                        revision: self@.machine.state.revision,
                        state_hash: rules::digest(after@),
                        resync: false,
                    },
                )
            }),
            r is Some <==> before@ != after@,
            r matches Some(e) ==> e@.revision == self@.machine.state.revision && !e@.resync,
    {
        if same_bytes(before, after) {
            return None;
        }
        Some(
            Event {
                revision: self.machine.state.revision,
                state_hash: digest(after),
                resync: false,
            },
        )
    }

    /// Keeps a vote.
    pub fn save_vote(&mut self, vote: Vote)
        ensures
            final(self)@ == (StoreView { vote: Some(vote), ..old(self)@ }),
    {
        self.vote = Some(vote);
    }

    /// Keeps how far the log is committed.
    pub fn save_committed(&mut self, value: Option<LogId>)
        ensures
            final(self)@ == (StoreView { committed: value, ..old(self)@ }),
    {
        self.committed = value;
    }

    /// Puts entries into the log, each in its place.
    pub fn append(&mut self, entries: Vec<LogEntry>)
        ensures
            final(self)@ == (StoreView {
                logs: appended(old(self)@.logs, entries.deep_view(), entries@.len()),
                ..old(self)@
            }),
    {
        let ghost start = self@;
        let ghost view = entries.deep_view();
        let n: usize = entries.len();
        let mut i: usize = 0;
        while i < n
            invariant
                i <= n,
                n == entries@.len(),
                start == old(self)@,
                view == entries.deep_view(),
                self@ == (StoreView { logs: appended(start.logs, view, i as nat), ..start }),
            decreases n - i,
        {
            let entry: LogEntry = entries[i].duplicate();
            let index: u64 = entry.log_id.index;
            assert(view[i as int] == entries@[i as int].deep_view());
            self.logs.insert(index, entry);
            i = i + 1;
            assert(self@.logs == appended(start.logs, view, i as nat));
        }
    }

    /// The entries of the log that pass the test, as a log.
    fn retained(&self, index: u64, after: bool) -> (r: OrdMap<u64, LogEntry>)
        ensures
            r@ == (if after {
                kept_after(self@.logs, index)
            } else {
                truncated(self@.logs, index)
            }),
    {
        let ghost keys = self.logs.keys();
        let ghost logs = self@.logs;
        let ghost goal = if after {
            kept_after(logs, index)
        } else {
            truncated(logs, index)
        };
        let n: usize = self.logs.len();
        let mut r: OrdMap<u64, LogEntry> = OrdMap::new();
        let mut i: usize = 0;
        while i < n
            invariant
                i <= n,
                n == keys.len(),
                keys == self.logs.keys(),
                logs == self@.logs,
                collections::lists::<u64, LogEntryView>(logs, keys),
                goal == (if after {
                    kept_after(logs, index)
                } else {
                    truncated(logs, index)
                }),
                forall|k: u64| #[trigger]
                    r@.contains_key(k) <==> goal.contains_key(k) && collections::among(
                        keys,
                        i as int,
                        k,
                    ),
                forall|k: u64| #[trigger] r@.contains_key(k) ==> r@[k] == logs[k],
            decreases n - i,
        {
            let key: u64 = *self.logs.key(i);
            proof {
                collections::lemma_among_next(keys, i as int);
                assert(logs.dom().contains(keys[i as int]));
            }
            if (after && key > index) || (!after && key < index) {
                let ghost before = r@;
                let value: LogEntry = self.logs.value(i).duplicate();
                let ghost v = value@;
                r.insert(key, value);
                assert(r@ == before.insert(key, v));
            }
            i = i + 1;
        }
        proof {
            collections::lemma_among_all::<u64>(logs.dom(), keys);
            assert(r@ =~= goal);
        }
        r
    }

    /// Drops the entries from the given place on.
    pub fn truncate(&mut self, id: LogId)
        ensures
            final(self)@ == (StoreView {
                logs: truncated(old(self)@.logs, id.index),
                ..old(self)@
            }),
            forall|i: u64| #[trigger]
                final(self)@.logs.contains_key(i) <==> old(self)@.logs.contains_key(i) && i
                    < id.index,
            forall|i: u64| #[trigger]
                final(self)@.logs.contains_key(i) ==> final(self)@.logs[i] == old(self)@.logs[i],
    {
        self.logs = self.retained(id.index, false);
    }

    /// Drops the entries up to the given place.
    pub fn purge(&mut self, id: LogId) -> (r: Result<()>)
        ensures
            error::agrees(r, final(self)@, purged_store(old(self)@, id)),
            r is Err ==> *final(self) == *old(self),
    {
        match self.purged {
            Some(last) => {
                if id.precedes(&last) {
                    return Err(Error::Io("purge moved backwards".to_owned()));
                }
            },
            None => {},
        }
        self.purged = Some(id);
        self.logs = self.retained(id.index, true);
        Ok(())
    }

    /// The last place in the log.
    pub fn last_log_id(&self) -> (r: Option<LogId>)
        ensures
            r == last_log_id(self@),
    {
        let n: usize = self.logs.len();
        proof {
            collections::lemma_items_of::<u64>(self@.logs.dom(), self.logs.keys());
        }
        if n == 0 {
            self.purged
        } else {
            Some(self.logs.value(n - 1).log_id)
        }
    }

    /// The entries in a range, in order.
    pub fn entries(&self, start: u64, end: Option<u64>) -> (r: Vec<LogEntry>)
        ensures
            r.deep_view() == numbers_within(self@.logs, start, end).map_values(
                |i: u64| self@.logs[i],
            ),
    {
        let ghost logs = self@.logs;
        let ghost keys = self.logs.keys();
        let ghost p = |i: u64| within(i, start, end);
        let ghost f = |i: u64| logs[i];
        let n: usize = self.logs.len();
        let mut r: Vec<LogEntry> = Vec::new();
        let mut i: usize = 0;
        proof {
            collections::lemma_items_of::<u64>(logs.dom(), keys);
            reveal(Seq::filter);
            assert(keys.take(0).filter(p) =~= Seq::<u64>::empty());
            assert(r.deep_view() =~= Seq::<LogEntryView>::empty());
            assert(keys.take(0).filter(p).map_values(f) =~= Seq::<LogEntryView>::empty());
        }
        while i < n
            invariant
                i <= n,
                n == keys.len(),
                keys == self.logs.keys(),
                logs == self@.logs,
                p == (|i: u64| within(i, start, end)),
                f == (|i: u64| logs[i]),
                r.deep_view() == keys.take(i as int).filter(p).map_values(f),
            decreases n - i,
        {
            let key: u64 = *self.logs.key(i);
            let below: bool = match end {
                Some(e) => key < e,
                None => true,
            };
            let ghost before = r.deep_view();
            proof {
                reveal(Seq::filter);
                assert(keys.take(i + 1).drop_last() =~= keys.take(i as int));
                assert(keys.take(i + 1).last() == keys[i as int]);
                assert(p(key) == (start <= key && below));
            }
            if start <= key && below {
                let entry: LogEntry = self.logs.value(i).duplicate();
                let ghost e = entry@;
                r.push(entry);
                proof {
                    assert(r.deep_view() =~= before.push(e));
                    assert(keys.take(i as int).filter(p).push(key).map_values(f)
                        =~= keys.take(i as int).filter(p).map_values(f).push(f(key)));
                }
            }
            i = i + 1;
        }
        assert(keys.take(n as int) =~= keys);
        r
    }

    /// The state that a replicated command leads to. `decoded` is what its payload holds.
    pub fn decide(
        &self,
        request: &Replicated,
        decoded: std::result::Result<Command, String>,
    ) -> (r: Result<State>)
        requires
            rules::well_formed(self@.machine.state),
        ensures
            error::outcome(r) == decided(self@, request@, journal::decoding(decoded)),
            r matches Ok(next) ==> rules::well_formed(next@),
    {
        if !same_text(request.cluster.as_str(), self.genesis.as_str()) {
            return Err(Error::Denied);
        }
        journal::carry_out(&self.machine.state, &request.command, decoded, request.time_ms)
    }

    /// The state itself, if clients can retrieve it. `len` is its length as JSON.
    pub fn fit(next: State, len: usize) -> (r: Result<State>)
        ensures
            error::outcome(r) == retrievable(next@, len as nat),
            r matches Ok(s) ==> s@ == next@,
    {
        if len > MAX_STATE {
            Err(Error::Capacity)
        } else {
            Ok(next)
        }
    }

    /// Takes note of an entry with a command, which led to a state or to an error.
    pub fn settle(&mut self, id: LogId, result: Result<State>) -> (r: Applied)
        requires
            rules::well_formed(old(self)@.machine.state),
            result matches Ok(next) ==> rules::well_formed(next@),
        ensures
            final(self)@ == (StoreView {
                machine: settled(old(self)@.machine, id, error::outcome(result)),
                ..old(self)@
            }),
            r@ == told(old(self)@.machine, error::outcome(result)),
            rules::well_formed(final(self)@.machine.state),
    {
        let mut error: Option<String> = None;
        match result {
            Ok(next) => {
                self.machine.state = next;
            },
            Err(e) => {
                error = Some(e.message());
            },
        }
        self.machine.applied = Some(id);
        Applied { revision: self.machine.state.revision, error }
    }

    /// Takes note of an entry without a command. It may say who votes.
    pub fn pass(&mut self, id: LogId, membership: Option<Vec<u8>>) -> (r: Applied)
        ensures
            final(self)@ == (StoreView {
                machine: passed(
                    old(self)@.machine,
                    id,
                    match membership {
                        Some(json) => Some(json@),
                        None => None,
                    },
                ),
                ..old(self)@
            }),
            r@ == (AppliedView { revision: old(self)@.machine.state.revision, error: None }),
    {
        match membership {
            Some(json) => {
                self.machine.membership = StoredMembership { log_id: Some(id), json };
            },
            None => {},
        }
        self.machine.applied = Some(id);
        Applied { revision: self.machine.state.revision, error: None }
    }

    /// Keeps a snapshot of the machine, which is given as JSON, under a new name.
    pub fn build_snapshot(&mut self, data: Vec<u8>) -> (r: StoredSnapshot)
        ensures
            exists|number: u128|
                service::marked_random(number) && r@ == (StoredSnapshotView {
                    meta: SnapshotMetaView {
                        last_log_id: old(self)@.machine.applied,
                        last_membership: old(self)@.machine.membership,
                        snapshot_id: #[trigger] service::uuid_text(number),
                    },
                    data: data@,
                }),
            final(self)@ == (StoreView { snapshot: Some(r@), ..old(self)@ }),
    {
        let number: u128 = outside::random_uuid();
        let meta = SnapshotMeta {
            last_log_id: self.machine.applied,
            last_membership: self.machine.membership.duplicate(),
            snapshot_id: outside::format_uuid(number),
        };
        let snapshot = StoredSnapshot { meta, data };
        self.snapshot = Some(snapshot.duplicate());
        assert(snapshot@.meta.snapshot_id == service::uuid_text(number));
        snapshot
    }

    /// Refuses a snapshot that is too long.
    pub fn check_snapshot_size(len: u64) -> (r: Result<()>)
        ensures
            len <= MAX_RAFT_SNAPSHOT ==> r is Ok,
            len > MAX_RAFT_SNAPSHOT ==> r is Err && r->Err_0@ == ErrorView::Io(
                "snapshot too large"@,
            ),
    {
        if len > MAX_RAFT_SNAPSHOT {
            Err(Error::Io("snapshot too large".to_owned()))
        } else {
            Ok(())
        }
    }

    /// Takes over a snapshot of another voter. `machine` is what `data` holds as JSON.
    pub fn install_snapshot(
        &mut self,
        meta: SnapshotMeta,
        machine: Machine,
        data: Vec<u8>,
    ) -> (r: Result<()>)
        ensures
            error::agrees(r, final(self)@, installed(old(self)@, meta@, machine@, data@)),
            r is Err ==> *final(self) == *old(self),
    {
        if !same_log_id(machine.applied, meta.last_log_id) || !same_log_id(
            machine.membership.log_id,
            meta.last_membership.log_id,
        ) || !same_bytes(
            machine.membership.json.as_slice(),
            meta.last_membership.json.as_slice(),
        ) {
            return Err(Error::Io("snapshot metadata mismatch".to_owned()));
        }
        self.machine = machine;
        self.snapshot = Some(StoredSnapshot { meta, data });
        Ok(())
    }
}

/// An entry with a command as a voter carries it out: what its payload holds, and how long the
/// state that it leads to is as JSON.
pub struct Step {
    pub id: LogId,
    pub request: ReplicatedView,
    pub decoded: std::result::Result<CommandView, Text>,
    pub len: nat,
}

/// What a command of the log leads to.
pub open spec fn outcome_of(s: StoreView, step: Step) -> Outcome<StateView> {
    match decided(s, step.request, step.decoded) {
        Err(e) => Err(e),
        Ok(next) => retrievable(next, step.len),
    }
}

/// The store after the first `n` commands of the log.
pub open spec fn applied(s: StoreView, steps: Seq<Step>, n: nat) -> StoreView
    decreases n,
{
    if n == 0 {
        s
    } else {
        let before = applied(s, steps, (n - 1) as nat);
        let step = steps[n - 1];
        StoreView {
            machine: settled(before.machine, step.id, outcome_of(before, step)),
            ..before
        }
    }
}

/// What the commands ask of the federation that are carried out among the first `n`.
pub open spec fn carried_out(s: StoreView, steps: Seq<Step>, n: nat) -> Seq<Submission>
    decreases n,
{
    if n == 0 {
        Seq::empty()
    } else {
        let before = applied(s, steps, (n - 1) as nat);
        let step = steps[n - 1];
        let list = carried_out(s, steps, (n - 1) as nat);
        if outcome_of(before, step) is Ok {
            let pair = journal::opened(step.request.command, step.decoded)->Ok_0;
            list.push(
                Submission {
                    actor: pair.0,
                    revision: pair.1.revision,
                    now: step.request.time_ms,
                    action: pair.1.action,
                },
            )
        } else {
            list
        }
    }
}

/// What a command that is carried out does.
proof fn lemma_step(s: StoreView, step: Step)
    requires
        outcome_of(s, step) is Ok,
    ensures
        journal::opened(step.request.command, step.decoded) is Ok,
        ({
            let pair = journal::opened(step.request.command, step.decoded)->Ok_0;
            rules::apply(
                s.machine.state,
                pair.0,
                pair.1.revision,
                step.request.time_ms,
                pair.1.action,
            ) == outcome_of(s, step)
        }),
{
}

proof fn lemma_after_prefix(s: StateView, commands: Seq<Submission>, c: Submission, n: nat)
    requires
        n <= commands.len(),
    ensures
        histories::after(s, commands.push(c), n) == histories::after(s, commands, n),
    decreases n,
{
    if n > 0 {
        lemma_after_prefix(s, commands, c, (n - 1) as nat);
        assert(commands.push(c)[n - 1] == commands[n - 1]);
    }
}

/// The state of a voter is what the commands lead to that were carried out, and the others have
/// changed nothing. Voters that began with the same state and were given the same commands
/// therefore have the same state.
pub proof fn law_replicas_hold_histories(s: StoreView, steps: Seq<Step>, n: nat)
    requires
        n <= steps.len(),
    ensures
        applied(s, steps, n).machine.state == histories::after(
            s.machine.state,
            carried_out(s, steps, n),
            carried_out(s, steps, n).len(),
        ),
        applied(s, steps, n).genesis == s.genesis,
        n > 0 ==> applied(s, steps, n).machine.applied == Some(steps[n - 1].id),
    decreases n,
{
    if n > 0 {
        let m = (n - 1) as nat;
        law_replicas_hold_histories(s, steps, m);
        let before = applied(s, steps, m);
        let step = steps[n - 1];
        if outcome_of(before, step) is Ok {
            lemma_step(before, step);
            let list = carried_out(s, steps, m);
            let c = carried_out(s, steps, n).last();
            lemma_after_prefix(s.machine.state, list, c, list.len());
            assert(carried_out(s, steps, n) == list.push(c));
        }
    }
}

/// Two voters that differ in nothing but votes, logs and snapshots carry out commands alike.
pub proof fn law_replicas_agree(a: StoreView, b: StoreView, steps: Seq<Step>, n: nat)
    requires
        a.genesis == b.genesis,
        a.machine == b.machine,
        n <= steps.len(),
    ensures
        applied(a, steps, n).machine == applied(b, steps, n).machine,
        applied(a, steps, n).genesis == applied(b, steps, n).genesis,
    decreases n,
{
    if n > 0 {
        law_replicas_agree(a, b, steps, (n - 1) as nat);
    }
}

/// What is put into the log is found there: the last of the entries with a number, or what stood
/// there before.
pub proof fn law_appended_entries_are_found(
    logs: Map<u64, LogEntryView>,
    entries: Seq<LogEntryView>,
    n: nat,
    index: u64,
)
    requires
        n <= entries.len(),
    ensures
        ({
            let after = appended(logs, entries, n);
            if exists|i: int| 0 <= i < n && (#[trigger] entries[i]).log_id.index == index {
                after.contains_key(index) && exists|i: int|
                    {
                        &&& 0 <= i < n
                        &&& after[index] == #[trigger] entries[i]
                        &&& entries[i].log_id.index == index
                        &&& forall|j: int| i < j < n ==> (#[trigger] entries[j]).log_id.index != index
                    }
            } else {
                after.contains_key(index) == logs.contains_key(index) && after[index]
                    == logs[index]
            }
        }),
    decreases n,
{
    if n > 0 {
        let m = (n - 1) as nat;
        law_appended_entries_are_found(logs, entries, m, index);
        let e = entries[m as int];
        if e.log_id.index != index {
            if exists|i: int| 0 <= i < m && (#[trigger] entries[i]).log_id.index == index {
                let i = choose|i: int|
                    {
                        &&& 0 <= i < m
                        &&& appended(logs, entries, m)[index] == #[trigger] entries[i]
                        &&& entries[i].log_id.index == index
                        &&& forall|j: int|
                            i < j < m ==> (#[trigger] entries[j]).log_id.index != index
                    };
                assert(appended(logs, entries, n)[index] == entries[i]);
            }
        }
    }
}

/// Clearing the log never goes back, and takes nothing after the given place.
pub proof fn law_purging_goes_forward(s: StoreView, id: LogId)
    requires
        purged_store(s, id) is Ok,
    ensures
        ({
            let next = purged_store(s, id)->Ok_0;
            &&& next.purged == Some(id)
            &&& s.purged is Some ==> !log_before(id, s.purged->0)
            &&& forall|index: u64| #[trigger]
                next.logs.contains_key(index) <==> s.logs.contains_key(index) && index > id.index
            &&& forall|index: u64| #[trigger]
                next.logs.contains_key(index) ==> next.logs[index] == s.logs[index]
            &&& next.machine == s.machine
        }),
{
}

/// A snapshot that a voter builds is taken over by another one, which then has the same machine.
pub proof fn law_snapshots_carry_the_machine(from: StoreView, to: StoreView, id: Text, data: Seq<u8>)
    ensures
        ({
            let meta = SnapshotMetaView {
                last_log_id: from.machine.applied,
                last_membership: from.machine.membership,
                snapshot_id: id,
            };
            installed(to, meta, from.machine, data) matches Ok(next) && next.machine
                == from.machine
        }),
{
}

} // verus!
