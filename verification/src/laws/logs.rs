//! What a voter's log holds, and what an entry of it does.
use vstd::prelude::*;

use crate::collections;
use crate::consensus::store;
use crate::consensus::store::{LogEntryView, LogId, MachineView, SnapshotMetaView, StoreView};
use crate::consensus::ReplicatedView;
use crate::error;
use crate::error::{ErrorView, Outcome};
use crate::journal::CommandView;
use crate::model::views::{StateView, Text};

verus! {

/// Each entry of the log stands under its own number.
pub open spec fn in_place(logs: Map<u64, LogEntryView>) -> bool {
    forall|i: u64| #[trigger] logs.contains_key(i) ==> logs[i].log_id.index == i
}

/// Places of the log are in one order: of two that differ exactly one is before the other, by
/// term, then by leader, then by number, and what is before a place is before all that follow it.
pub proof fn law_places_are_ordered(a: LogId, b: LogId, c: LogId)
    ensures
        !store::log_before(a, a),
        a != b ==> store::log_before(a, b) != store::log_before(b, a),
        store::log_before(a, b) && store::log_before(b, c) ==> store::log_before(a, c),
        a.term < b.term ==> store::log_before(a, b),
        a.term == b.term && a.node < b.node ==> store::log_before(a, b),
        a.term == b.term && a.node == b.node ==> (store::log_before(a, b) <==> a.index < b.index),
{
}

/// After the log is cut off at a place, it holds what it held before that place, entry for entry,
/// and nothing from there on.
pub proof fn law_truncation_keeps_what_is_before(logs: Map<u64, LogEntryView>, index: u64)
    ensures
        ({
            let after = store::truncated(logs, index);
            &&& forall|i: u64| #[trigger]
                after.contains_key(i) <==> logs.contains_key(i) && i < index
            &&& forall|i: u64| #[trigger] after.contains_key(i) ==> after[i] == logs[i]
            &&& forall|i: u64| i >= index ==> !(#[trigger] after.contains_key(i))
        }),
{
}

/// The last place in the log is that of the entry with the highest number, and where there is no
/// entry, the one up to which the log was cleared.
pub proof fn law_last_place(s: StoreView)
    requires
        s.logs.dom().finite(),
    ensures
        s.logs.dom() == Set::<u64>::empty() ==> store::last_log_id(s) == s.purged,
        s.logs.dom() != Set::<u64>::empty() ==> exists|i: u64| #[trigger]
            s.logs.contains_key(i) && store::last_log_id(s) == Some(s.logs[i].log_id) && forall|
                j: u64,
            | #[trigger]
                s.logs.contains_key(j) ==> j <= i,
{
    collections::lemma_listable::<u64>(s.logs.dom());
    let keys = collections::items_of::<u64>(s.logs.dom());
    if keys.len() == 0 {
        assert(s.logs.dom() =~= Set::empty());
    } else {
        let i = keys.last();
        assert(s.logs.dom().contains(keys[keys.len() - 1]));
        assert(s.logs.contains_key(i));
        assert forall|j: u64| #[trigger] s.logs.contains_key(j) implies j <= i by {
            let at = keys.index_of(j);
            assert(s.logs.dom().contains(j));
            assert(keys[at] == j);
            if at < keys.len() - 1 {
                assert(<u64 as crate::order::Key>::before(keys[at], keys[keys.len() - 1]));
            }
        }
    }
}

/// After the log is cut off at a place, its last place is before that one, unless it was cleared
/// beyond it.
pub proof fn law_truncation_moves_the_end_back(s: StoreView, id: LogId)
    requires
        s.logs.dom().finite(),
        in_place(s.logs),
        s.purged matches Some(p) ==> p.index < id.index,
    ensures
        ({
            let next = StoreView { logs: store::truncated(s.logs, id.index), ..s };
            store::last_log_id(next) matches Some(last) ==> last.index < id.index
        }),
{
    let next = StoreView { logs: store::truncated(s.logs, id.index), ..s };
    assert(next.logs.dom().subset_of(s.logs.dom()));
    vstd::set_lib::lemma_set_subset_finite(s.logs.dom(), next.logs.dom());
    law_last_place(next);
}

/// The log can be cleared up to a place unless it was cleared beyond it; what follows the place
/// stays, entry for entry.
pub proof fn law_clearing_keeps_what_is_after(s: StoreView, id: LogId)
    ensures
        match store::purged_store(s, id) {
            Ok(next) => {
                &&& !(s.purged is Some && store::log_before(id, s.purged->0))
                &&& next.purged == Some(id)
                &&& forall|i: u64| #[trigger]
                    next.logs.contains_key(i) <==> s.logs.contains_key(i) && i > id.index
                &&& forall|i: u64| #[trigger]
                    next.logs.contains_key(i) ==> next.logs[i] == s.logs[i]
                &&& next == (StoreView { purged: next.purged, logs: next.logs, ..s })
            },
            Err(e) => {
                &&& e == ErrorView::Io("purge moved backwards"@)
                &&& s.purged is Some && store::log_before(id, s.purged->0)
            },
        },
{
}

/// What is before a place, what stands there and what follows it make up the log.
pub proof fn law_the_log_splits(logs: Map<u64, LogEntryView>, index: u64, i: u64)
    ensures
        logs.contains_key(i) <==> store::truncated(logs, index).contains_key(i) || (i == index
            && logs.contains_key(i)) || store::kept_after(logs, index).contains_key(i),
        !(store::truncated(logs, index).contains_key(i) && store::kept_after(
            logs,
            index,
        ).contains_key(i)),
        !store::truncated(logs, index).contains_key(index),
        !store::kept_after(logs, index).contains_key(index),
{
}

/// The numbers of a range are those of the log from the start on and before the end, each once,
/// in ascending order.
pub proof fn law_ranges_are_complete(logs: Map<u64, LogEntryView>, start: u64, end: Option<u64>)
    requires
        logs.dom().finite(),
    ensures
        ({
            let found = store::numbers_within(logs, start, end);
            &&& forall|i: u64| #[trigger]
                found.contains(i) <==> logs.contains_key(i) && start <= i && (end is Some ==> i
                    < end->0)
            &&& forall|a: int, b: int|
                0 <= a < b < found.len() ==> (#[trigger] found[a]) < (#[trigger] found[b])
        }),
{
    collections::lemma_listable::<u64>(logs.dom());
    let keys = collections::items_of::<u64>(logs.dom());
    let p = |i: u64| store::within(i, start, end);
    let found = keys.filter(p);
    assert forall|i: u64| #[trigger] found.contains(i) <==> logs.contains_key(i) && start <= i && (
    end is Some ==> i < end->0) by {
        if found.contains(i) {
            let at = found.index_of(i);
            keys.lemma_filter_pred(p, at);
            keys.lemma_filter_contains_rev(p, i);
        }
        if logs.contains_key(i) && start <= i && (end is Some ==> i < end->0) {
            assert(logs.dom().contains(i));
            let at = keys.index_of(i);
            assert(p(keys[at]));
            keys.lemma_filter_contains(p, at);
        }
    }
    lemma_filter_ascends(keys, p);
}

pub proof fn lemma_filter_ascends(keys: Seq<u64>, p: spec_fn(u64) -> bool)
    requires
        forall|a: int, b: int| 0 <= a < b < keys.len() ==> (#[trigger] keys[a]) < (#[trigger] keys[b]),
    ensures
        forall|a: int, b: int|
            0 <= a < b < keys.filter(p).len() ==> (#[trigger] keys.filter(p)[a]) < (
            #[trigger] keys.filter(p)[b]),
        forall|a: int|
            0 <= a < keys.filter(p).len() ==> keys.contains(#[trigger] keys.filter(p)[a]),
    decreases keys.len(),
{
    reveal(Seq::filter);
    if keys.len() > 0 {
        let rest = keys.drop_last();
        lemma_filter_ascends(rest, p);
        let inner = rest.filter(p);
        let all = keys.filter(p);
        assert forall|a: int| 0 <= a < all.len() implies keys.contains(#[trigger] all[a]) by {
            if a < inner.len() {
                assert(rest.contains(inner[a]));
                let at = rest.index_of(inner[a]);
                assert(keys[at] == inner[a]);
            } else {
                assert(keys[keys.len() - 1] == all[a]);
            }
        }
        assert forall|a: int, b: int| 0 <= a < b < all.len() implies (#[trigger] all[a]) < (
        #[trigger] all[b]) by {
            if b < inner.len() {
                assert(inner[a] < inner[b]);
            } else {
                assert(rest.contains(inner[a]));
                let at = rest.index_of(inner[a]);
                assert(keys[at] < keys[keys.len() - 1]);
            }
        }
    }
}

/// A voter begins with the store that it finds, if it belongs to the same first state, and
/// otherwise with nothing but that state.
pub proof fn law_stores_are_opened(found: Option<StoreView>, genesis: StateView, hash: Text)
    ensures
        match store::opened_store(found, genesis, hash) {
            Ok(s) => match found {
                Some(kept) => s == kept && kept.version == 1 && kept.genesis == hash,
                None => {
                    &&& s.version == 1
                    &&& s.genesis == hash
                    &&& s.vote is None && s.committed is None && s.purged is None
                    &&& s.snapshot is None
                    &&& s.logs.dom() == Set::<u64>::empty()
                    &&& s.machine.applied is None
                    &&& s.machine.membership.log_id is None
                    &&& s.machine.membership.json.len() == 0
                    &&& s.machine.state == genesis
                },
            },
            Err(e) => e == ErrorView::Denied && found is Some && (found->0.version != 1
                || found->0.genesis != hash),
        },
{
}

/// A command of another cluster is refused, and one of the own cluster is looked at in the state
/// that the log has led to.
pub proof fn law_clusters_stay_apart(
    s: StoreView,
    request: ReplicatedView,
    decoded: std::result::Result<CommandView, Text>,
)
    ensures
        request.cluster != s.genesis ==> store::decided(s, request, decoded) == Outcome::<
            StateView,
        >::Err(ErrorView::Denied),
        request.cluster == s.genesis ==> store::decided(s, request, decoded)
            == crate::journal::commanded(
            s.machine.state,
            request.command,
            decoded,
            request.time_ms,
        ),
{
}

/// A state is kept exactly where it takes at most 8,387,584 bytes.
pub proof fn law_states_stay_retrievable(next: StateView, len: nat)
    ensures
        len <= 8_387_584 ==> store::retrievable(next, len) == Outcome::<StateView>::Ok(next),
        len > 8_387_584 ==> store::retrievable(next, len) == Outcome::<StateView>::Err(
            ErrorView::Capacity,
        ),
{
}

/// After an entry with a command the machine stands at that entry. Where the command was carried
/// out, it has the state that came of it and its revision is told; otherwise the state is the old
/// one and the error is told. Who votes stays as it was.
pub proof fn law_commands_are_settled(m: MachineView, id: LogId, result: Outcome<StateView>)
    ensures
        ({
            let after = store::settled(m, id, result);
            let said = store::told(m, result);
            &&& after.applied == Some(id)
            &&& after.membership == m.membership
            &&& said.revision == after.state.revision
            &&& match result {
                Ok(next) => after.state == next && said.error is None,
                Err(e) => after.state == m.state && said.error == Some(error::error_text(e)),
            }
        }),
{
}

/// After an entry without a command the machine stands at that entry, with the same state; the
/// voters are those of the entry, if it names some.
pub proof fn law_entries_without_a_command(m: MachineView, id: LogId, membership: Option<Seq<u8>>)
    ensures
        ({
            let after = store::passed(m, id, membership);
            &&& after.applied == Some(id)
            &&& after.state == m.state
            &&& membership is None ==> after.membership == m.membership
            &&& membership is Some ==> after.membership.log_id == Some(id)
                && after.membership.json == membership->0
        }),
{
}

/// A snapshot is taken over exactly where it belongs to the place and to the voters that it
/// names; then the machine and the snapshot are those, and the log and the votes stay.
pub proof fn law_snapshots_are_taken_over(
    s: StoreView,
    meta: SnapshotMetaView,
    machine: MachineView,
    data: Seq<u8>,
)
    ensures
        match store::installed(s, meta, machine, data) {
            Ok(next) => {
                &&& machine.applied == meta.last_log_id
                &&& machine.membership == meta.last_membership
                &&& next.machine == machine
                &&& next.snapshot is Some
                &&& next.snapshot->0.meta == meta
                &&& next.snapshot->0.data == data
                &&& next == (StoreView { machine: next.machine, snapshot: next.snapshot, ..s })
            },
            Err(e) => {
                &&& e == ErrorView::Io("snapshot metadata mismatch"@)
                &&& machine.applied != meta.last_log_id || machine.membership
                    != meta.last_membership
            },
        },
{
}

/// What is put into the log stands there under its number, and nothing else in the log changes.
pub proof fn law_appending_touches_its_numbers(
    logs: Map<u64, LogEntryView>,
    entries: Seq<LogEntryView>,
)
    requires
        in_place(logs),
    ensures
        ({
            let after = store::appended(logs, entries, entries.len());
            &&& in_place(after)
            &&& forall|i: int|
                0 <= i < entries.len() ==> after.contains_key(
                    (#[trigger] entries[i]).log_id.index,
                )
            &&& forall|index: u64|
                (forall|i: int|
                    0 <= i < entries.len() ==> (#[trigger] entries[i]).log_id.index != index)
                    ==> #[trigger] after.contains_key(index) == logs.contains_key(index)
                    && after[index] == logs[index]
            &&& entries.len() > 0 ==> after[entries.last().log_id.index] == entries.last()
        }),
{
    let after = store::appended(logs, entries, entries.len());
    assert forall|index: u64| true implies #[trigger] after.contains_key(index) == (
    logs.contains_key(index) || exists|i: int|
        0 <= i < entries.len() && (#[trigger] entries[i]).log_id.index == index) by {
        store::law_appended_entries_are_found(logs, entries, entries.len(), index);
    }
    assert forall|index: u64| #[trigger] after.contains_key(index) implies after[index].log_id.index
        == index by {
        store::law_appended_entries_are_found(logs, entries, entries.len(), index);
    }
    assert forall|index: u64|
        (forall|i: int|
            0 <= i < entries.len() ==> (#[trigger] entries[i]).log_id.index
                != index) implies #[trigger] after.contains_key(index) == logs.contains_key(index)
        && after[index] == logs[index] by {
        store::law_appended_entries_are_found(logs, entries, entries.len(), index);
    }
    assert forall|i: int| 0 <= i < entries.len() implies after.contains_key(
        (#[trigger] entries[i]).log_id.index,
    ) by {}
}

} // verus!
