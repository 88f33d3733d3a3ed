//! What journals, messages in parts and notices hold.
use vstd::prelude::*;

use crate::chunks;
use crate::chunks::AssemblyView;
use crate::error;
use crate::error::{ErrorView, Outcome};
use crate::events;
use crate::events::{EventView, Subscription};
use crate::journal;
use crate::journal::{CommandView, EntryView, JournalView, Line, SignedCommandView};
use crate::model::rules;
use crate::model::views::{StateView, Text};
use crate::protocol::JsonFrameView;

verus! {

/// A command is carried out for the device that signed it, as made on the revision that it names,
/// and only until it expires.
pub proof fn law_expired_commands_are_refused(
    s: StateView,
    c: SignedCommandView,
    decoded: std::result::Result<CommandView, Text>,
    now: u64,
)
    ensures
        match journal::opened(c, decoded) {
            Err(e) => journal::commanded(s, c, decoded, now) == Outcome::<StateView>::Err(e),
            Ok((actor, command)) => {
                &&& now > command.expires_ms ==> journal::commanded(s, c, decoded, now)
                    == Outcome::<StateView>::Err(ErrorView::Denied)
                &&& now <= command.expires_ms ==> journal::commanded(s, c, decoded, now)
                    == rules::apply(s, actor, command.revision, now, command.action)
            },
        },
{
}

/// A journal begins without entries, with the first state and its digest.
pub proof fn law_journals_begin_empty(genesis: StateView, json: Seq<u8>)
    ensures
        ({
            let j = journal::blank_journal(genesis, json);
            j.entries.len() == 0 && j.state == genesis && j.head == rules::digest(json)
        }),
{
}

/// A line of the journal is taken exactly where it follows the one before, its command can be
/// carried out at its time, its version is the first, and the state that comes of it has the
/// digest of the line. Then it is the last entry, its state the journal's, and its digest the one
/// that the next line must name.
pub proof fn law_lines_follow_one_another(j: JournalView, line: Line)
    ensures
        ({
            let e = line.entry;
            let done = journal::commanded(j.state, e.command, line.decoded, e.time_ms);
            let follows = e.previous == j.head;
            match journal::read_line(j, line) {
                Ok(next) => {
                    &&& follows && done is Ok && e.version == 1 && e.state_hash == rules::digest(
                        line.state_json,
                    )
                    &&& next.state == done->Ok_0
                    &&& next.head == rules::digest(line.entry_json)
                    &&& next.entries.len() == j.entries.len() + 1
                    &&& next.entries.drop_last() == j.entries
                    &&& next.entries.last() == e
                },
                Err(error) => {
                    ||| error == ErrorView::Protocol("journal chain mismatch"@) && !follows
                    ||| follows && done is Err && error == done->Err_0
                    ||| error == ErrorView::Protocol("unsupported journal version"@) && follows
                        && done is Ok && e.version != 1
                    ||| error == ErrorView::Protocol("journal state mismatch"@) && follows
                        && done is Ok && e.version == 1 && e.state_hash != rules::digest(
                        line.state_json,
                    )
                },
            }
        }),
{
    let result = journal::read_line(j, line);
    if result is Ok {
        assert(result->Ok_0.entries.drop_last() =~= j.entries);
    }
}

/// A new entry names the one before it, the command and its time, and the digest of the state that
/// comes of it. A state of more than 8,387,584 bytes is not entered.
pub proof fn law_entries_are_sealed(
    j: JournalView,
    command: SignedCommandView,
    now: u64,
    state_json: Seq<u8>,
)
    ensures
        match journal::sealed(j, command, now, state_json) {
            Ok(e) => {
                &&& state_json.len() <= 8_387_584
                &&& e.version == 1
                &&& e.previous == j.head
                &&& e.command == command
                &&& e.time_ms == now
                &&& e.state_hash == rules::digest(state_json)
            },
            Err(e) => e == ErrorView::Capacity && state_json.len() > 8_387_584,
        },
{
}

/// A journal with one more entry.
pub proof fn law_journals_grow_by_one(
    j: JournalView,
    e: EntryView,
    next: StateView,
    entry_json: Seq<u8>,
)
    ensures
        ({
            let after = journal::grown(j, e, next, entry_json);
            &&& after.entries == j.entries.push(e)
            &&& after.state == next
            &&& after.head == rules::digest(entry_json)
        }),
{
}

/// An answer holds the state or the text of the error, never both.
pub proof fn law_answers_hold_one_of_two(r: Outcome<StateView>)
    ensures
        ({
            let a = journal::answered(r);
            &&& a.state is Some <==> r is Ok
            &&& a.error is Some <==> r is Err
            &&& r is Ok ==> a.state->0 == r->Ok_0
            &&& r is Err ==> a.error->0 == error::error_text(r->Err_0)
        }),
{
}

/// A command comes from the peer whose key signed it, if it can be read at all.
pub proof fn law_commands_come_from_their_signer(c: SignedCommandView, decodes: bool, actor: Text)
    ensures
        journal::comes_from(c, decodes, actor) <==> decodes && journal::command_signer(c) is Ok
            && journal::command_signer(c)->Ok_0 == actor,
{
}

/// Milliseconds are told where they fit.
pub proof fn law_times_fit(ms: u128)
    ensures
        match journal::millis_of(ms) {
            Ok(t) => t == ms,
            Err(e) => ms > u64::MAX && e == ErrorView::Protocol(
                "out of range integral type conversion attempted"@,
            ),
        },
{
}

// Messages in parts.

/// A message that is not too long is cut into parts of the given size, of which the last one alone
/// may be shorter, but not empty. They are numbered from zero, and the last one is marked.
pub proof fn law_parts_are_numbered(bytes: Seq<u8>, max: nat, size: nat)
    requires
        size > 0,
        bytes.len() <= u32::MAX,
    ensures
        match chunks::parts(bytes, max, size) {
            Err(e) => e == ErrorView::Capacity && bytes.len() > max,
            Ok(list) => {
                &&& bytes.len() <= max
                &&& bytes.len() == 0 ==> list.len() == 0
                &&& forall|i: int|
                    0 <= i < list.len() ==> {
                        &&& (#[trigger] list[i]).sequence == i
                        &&& list[i].last <==> i == list.len() - 1
                        &&& i < list.len() - 1 ==> list[i].json.len() == size
                        &&& 1 <= list[i].json.len() <= size
                        &&& list[i].json == bytes.subrange(i * size, i * size
                            + list[i].json.len())
                    }
                &&& list.len() > 0 ==> (list.len() - 1) * size + list.last().json.len()
                    == bytes.len()
            },
        },
{
    if bytes.len() <= max {
        let list = chunks::parts(bytes, max, size)->Ok_0;
        let n = bytes.len();
        let count = chunks::part_count(n, size);
        assert(count == (n + size - 1) as nat / size);
        vstd::arithmetic::div_mod::lemma_fundamental_div_mod(n + size - 1, size as int);
        vstd::arithmetic::div_mod::lemma_mod_bound(n + size - 1, size as int);
        let rest = (n + size - 1) % (size as int);
        assert(size * count + rest == n + size - 1);
        if n == 0 {
            if count > 0 {
                assert(size * count >= size) by (nonlinear_arith)
                    requires
                        count >= 1,
                ;
            }
        } else {
            if count == 0 {
                assert(size * count == 0) by (nonlinear_arith)
                    requires
                        count == 0,
                ;
            }
        }
        assert(count <= n) by (nonlinear_arith)
            requires
                size * count + rest == n + size - 1,
                rest >= 0,
                size >= 1,
        ;
        assert forall|i: int| 0 <= i < list.len() implies {
            &&& (#[trigger] list[i]).sequence == i
            &&& list[i].last <==> i == list.len() - 1
            &&& i < list.len() - 1 ==> list[i].json.len() == size
            &&& 1 <= list[i].json.len() <= size
            &&& list[i].json == bytes.subrange(i * size, i * size + list[i].json.len())
            &&& i == list.len() - 1 ==> i * size + list[i].json.len() == n
        } by {
            assert(0 <= i * size) by (nonlinear_arith)
                requires
                    i >= 0,
            ;
            assert((i + 1) * size == i * size + size) by (nonlinear_arith);
            assert((i + 1) * size <= size * count) by (nonlinear_arith)
                requires
                    i + 1 <= count,
            ;
            if i < count - 1 {
                assert((i + 2) * size <= size * count) by (nonlinear_arith)
                    requires
                        i + 2 <= count,
                ;
                assert((i + 2) * size == (i + 1) * size + size) by (nonlinear_arith);
            } else {
                assert((i + 1) * size == size * count) by (nonlinear_arith)
                    requires
                        i + 1 == count,
                ;
            }
        }
        if list.len() > 0 {
            assert(list.last() == list[list.len() - 1]);
        }
    }
}

/// A part continues a message exactly where it has the next number, is not empty and does not make
/// the message too long; then its bytes follow those before it.
pub proof fn law_parts_are_put_together(a: AssemblyView, frame: JsonFrameView, max: nat)
    ensures
        chunks::continues(a, frame, max) <==> {
            &&& frame.sequence == a.count
            &&& frame.json.len() >= 1
            &&& a.bytes.len() + frame.json.len() <= max
        },
        chunks::extended(a, frame).bytes == a.bytes + frame.json,
        chunks::extended(a, frame).count == a.count + 1,
{
}

/// An answer is put together from at most 129 parts and 8 MiB.
pub proof fn law_answers_are_bounded(a: AssemblyView, frame: JsonFrameView)
    ensures
        ({
            let proper = chunks::continues(a, frame, 8_388_608);
            match journal::received(a, frame) {
                Ok((last, after)) => {
                    &&& proper
                    &&& frame.last || a.count + 1 < 129
                    &&& last == frame.last
                    &&& after == chunks::extended(a, frame)
                },
                Err(e) => {
                    ||| e == ErrorView::Protocol("invalid snapshot chunks"@) && !proper
                    ||| e == ErrorView::Capacity && proper && !frame.last && a.count + 1 >= 129
                },
            }
        }),
{
}

// Notices.

/// A notice says that the state must be fetched anew exactly where it is the first one, or where
/// its revision is neither the last one that was told nor the next.
pub proof fn law_gaps_are_told(first: bool, last: u64, revision: u64)
    ensures
        !events::needs_resync(first, last, revision) <==> !first && (revision == last || revision
            == last + 1),
{
}

/// Notices tell the revision and the digest of the event, whatever was told before.
pub proof fn law_notices_tell_the_event(s: Subscription, list: Seq<EventView>, i: int)
    requires
        0 <= i < list.len(),
    ensures
        events::notices(s, list, i).revision == list[i].revision,
        events::notices(s, list, i).state_hash == list[i].state_hash,
        i == 0 ==> (events::notices(s, list, i).resync <==> s.first || !(list[i].revision == s.last
            || list[i].revision == s.last + 1)),
        i > 0 ==> (events::notices(s, list, i).resync <==> !(list[i].revision == list[i
            - 1].revision || list[i].revision == list[i - 1].revision + 1)),
{
}

/// A state that can be entered can be sent, and a part of it fits into a frame.
pub proof fn law_limits_fit_together()
    ensures
        crate::protocol::MAX_FRAME == 65_536,
        journal::MAX_STATE + 1024 == journal::MAX_SNAPSHOT,
        journal::CHUNK_SIZE + 64 == crate::protocol::MAX_FRAME,
        (journal::MAX_CHUNKS - 1) * journal::CHUNK_SIZE < journal::MAX_SNAPSHOT,
        journal::MAX_CHUNKS * journal::CHUNK_SIZE >= journal::MAX_SNAPSHOT,
        crate::consensus::network::PART_SIZE < crate::protocol::MAX_FRAME,
        journal::MAX_JOURNAL == 64 * 1024 * 1024,
        crate::consensus::store::MAX_STORE == 64 * 1024 * 1024,
        crate::consensus::store::MAX_RAFT_SNAPSHOT == 16 * 1024 * 1024,
        crate::consensus::network::MAX_RPC == 2 * 1024 * 1024,
{
}

/// Peers speak with one another under these names.
pub proof fn law_protocols_have_names()
    ensures
        journal::PROTOCOL@ == "/jlucraft/union/governance/2"@,
        events::PROTOCOL@ == "/jlucraft/union/events/1"@,
        crate::consensus::network::PROTOCOL@ == "/jlucraft/union/raft/1"@,
        crate::protocol::DIRECTORY_PROTOCOL@ == "/jlucraft/union/directory/1"@,
        crate::protocol::SESSION_PROTOCOL@ == "/jlucraft/union/session/1"@,
        crate::node::peers::DISCOVERY_PROTOCOL@ == "/jlucraft/union/kad/1"@,
{
}

} // verus!
