//! What nodes and voters do for one another.
use vstd::prelude::*;
use vstd::utf8::*;

use crate::access;
use crate::access::AccessPolicyView;
use crate::collections;
use crate::consensus;
use crate::error::{ErrorView, Outcome};
use crate::federation;
use crate::federation::Circle;
use crate::identity::PeerId;
use crate::journal;
use crate::journal::{CommandView, SignedCommandView};
use crate::laws::logs;
use crate::model::rules;
use crate::model::views::{ConsensusPeerView, StateView, Text};
use crate::node;
use crate::node::catalog;
use crate::node::catalog::{AdmissionView, PresentedView};
use crate::node::peers;
use crate::node::peers::{DialStep, WaitingView};
use crate::node::{NodeConfigView, Span};
use crate::order;
use crate::outside;
use crate::protocol::{OpenRequestView, ServiceRecordView, Status};
use crate::service;
use crate::service::{ServiceId, ServiceView};

verus! {

// Voters.

/// A node takes part under a number other than zero, with valid voters, and not under a number
/// that stands for somebody else.
pub proof fn law_voters_start_under_their_number(
    id: u64,
    peers: Map<u64, ConsensusPeerView>,
    local: Text,
)
    ensures
        match consensus::start_fault(id, peers, local) {
            None => {
                &&& rules::voters_fault(peers) is None
                &&& id != 0
                &&& peers.contains_key(id) ==> peers[id].peer == local
            },
            Some(e) => {
                ||| rules::voters_fault(peers) == Some(e)
                ||| e == ErrorView::Denied && rules::voters_fault(peers) is None && (id == 0 || (
                peers.contains_key(id) && peers[id].peer != local))
            },
        },
{
}

/// A cluster begins with a state in which nothing has happened and which names either no voters or
/// these; its voters are these, and nothing else changes.
pub proof fn law_clusters_begin_with_their_voters(
    s: StateView,
    peers: Map<u64, ConsensusPeerView>,
)
    ensures
        ({
            let fresh = s.revision == 0 && (s.consensus_members.dom() == Set::<u64>::empty()
                || s.consensus_members == peers);
            match consensus::cluster_genesis(s, peers) {
                Ok(first) => {
                    &&& rules::voters_fault(peers) is None && fresh
                    &&& first.consensus_members == peers
                    &&& first == (StateView { consensus_members: first.consensus_members, ..s })
                },
                Err(e) => {
                    ||| rules::voters_fault(peers) == Some(e)
                    ||| e == ErrorView::Denied && rules::voters_fault(peers) is None && !fresh
                },
            }
        }),
{
    assert(s.consensus_members == Map::<u64, ConsensusPeerView>::empty()
        <==> s.consensus_members.dom() == Set::<u64>::empty()) by {
        if s.consensus_members.dom() == Set::<u64>::empty() {
            assert forall|id: u64| !s.consensus_members.contains_key(id) by {
                assert(!s.consensus_members.dom().contains(id));
            }
            assert(s.consensus_members =~= Map::<u64, ConsensusPeerView>::empty());
        }
    }
}

/// Requests go on to the leader exactly where it is another one that is known.
pub proof fn law_leaders_are_found(
    own: u64,
    leader: Option<u64>,
    nodes: Map<u64, ConsensusPeerView>,
)
    ensures
        match consensus::other_leader(own, leader, nodes) {
            Some((id, peer)) => leader == Some(id) && id != own && nodes.contains_key(id)
                && nodes[id] == peer,
            None => leader is None || leader == Some(own) || !nodes.contains_key(leader->0),
        },
        consensus::other_leader(own, leader, nodes) is Some <==> leader is Some && leader->0 != own
            && nodes.contains_key(leader->0),
{
}

/// A peer speaks for a number exactly where the voters say so.
pub proof fn law_voters_speak_for_their_number(
    id: u64,
    peer: Text,
    nodes: Map<u64, ConsensusPeerView>,
)
    ensures
        consensus::is_voter(id, peer, nodes) <==> exists|o: u64| #[trigger]
            nodes.contains_key(o) && o == id && nodes[o].peer == peer,
{
}

/// A command is accepted from the peer that signed it, and from no other.
pub proof fn law_commands_are_accepted_from_their_signer(
    c: SignedCommandView,
    decoded: std::result::Result<CommandView, Text>,
    actor: Text,
)
    ensures
        match consensus::accepted_command(c, decoded, actor) {
            Ok(command) => {
                &&& journal::opened(c, decoded) is Ok
                &&& (journal::opened(c, decoded)->Ok_0).0 == actor
                &&& (journal::opened(c, decoded)->Ok_0).1 == command
            },
            Err(e) => {
                ||| journal::opened(c, decoded) is Err && journal::opened(c, decoded)->Err_0 == e
                ||| e == ErrorView::Denied && journal::opened(c, decoded) is Ok && (journal::opened(
                    c,
                    decoded,
                )->Ok_0).0 != actor
            },
        },
{
}

/// What a command will do is what it does: refused after its time, and otherwise carried out.
pub proof fn law_commands_are_foreseen(s: StateView, actor: Text, command: CommandView, now: u64)
    ensures
        now > command.expires_ms ==> consensus::foreseen(s, actor, command, now) == Outcome::<
            StateView,
        >::Err(ErrorView::Denied),
        now <= command.expires_ms ==> consensus::foreseen(s, actor, command, now) == rules::apply(
            s,
            actor,
            command.revision,
            now,
            command.action,
        ),
{
}

/// The whole state is shown to those who may read it, and nothing to others.
pub proof fn law_states_are_shown_to_readers(s: StateView, actor: Text)
    ensures
        rules::can_read(s, actor) ==> consensus::visible_state(s, actor) == Outcome::<
            StateView,
        >::Ok(s),
        !rules::can_read(s, actor) ==> consensus::visible_state(s, actor) == Outcome::<
            StateView,
        >::Err(ErrorView::Denied),
{
}

/// Nothing is left to do exactly where the voters are those that are wanted, and each is known
/// with the peer and the addresses that are wanted.
pub proof fn law_settled_voters_are_the_wanted_ones(
    voters: Set<u64>,
    nodes: Map<u64, ConsensusPeerView>,
    desired: Map<u64, ConsensusPeerView>,
)
    ensures
        consensus::is_settled(voters, nodes, desired) <==> {
            &&& forall|id: u64| #[trigger] voters.contains(id) <==> desired.contains_key(id)
            &&& forall|id: u64| #[trigger]
                desired.contains_key(id) ==> nodes.contains_key(id) && nodes[id] == desired[id]
        },
{
    if forall|id: u64| #[trigger] voters.contains(id) <==> desired.contains_key(id) {
        assert(voters =~= desired.dom());
    }
    if voters == desired.dom() {
        assert forall|id: u64| #[trigger] voters.contains(id) <==> desired.contains_key(id) by {}
    }
}

/// Who has to be told of the log first: the wanted voters that are not known as they are wanted,
/// each once, in ascending order.
pub proof fn law_newcomers_are_those_not_known(
    nodes: Map<u64, ConsensusPeerView>,
    desired: Map<u64, ConsensusPeerView>,
)
    requires
        desired.dom().finite(),
    ensures
        ({
            let list = consensus::newcomers(nodes, desired);
            &&& forall|id: u64| #[trigger]
                list.contains(id) <==> desired.contains_key(id) && !(nodes.contains_key(id)
                    && nodes[id] == desired[id])
            &&& forall|a: int, b: int|
                0 <= a < b < list.len() ==> (#[trigger] list[a]) < (#[trigger] list[b])
        }),
{
    collections::lemma_listable::<u64>(desired.dom());
    let keys = collections::items_of::<u64>(desired.dom());
    let p = |id: u64| consensus::is_new(nodes, desired, id);
    let list = keys.filter(p);
    assert forall|id: u64| #[trigger] list.contains(id) <==> desired.contains_key(id) && !(
    nodes.contains_key(id) && nodes[id] == desired[id]) by {
        if list.contains(id) {
            let at = list.index_of(id);
            keys.lemma_filter_pred(p, at);
            keys.lemma_filter_contains_rev(p, id);
        }
        if desired.contains_key(id) && !(nodes.contains_key(id) && nodes[id] == desired[id]) {
            assert(desired.dom().contains(id));
            let at = keys.index_of(id);
            assert(p(keys[at]));
            keys.lemma_filter_contains(p, at);
        }
    }
    logs::lemma_filter_ascends(keys, p);
}

// Configurations.

/// A configuration is sound exactly where there is an address to listen at, 1 to 4096 sessions,
/// relay limits that are all positive where it relays, and at most sixteen addresses to begin
/// with, each of which names its peer.
pub proof fn law_configurations_are_sound(c: NodeConfigView)
    ensures
        ({
            let listens = c.listen.len() >= 1 && 1 <= c.max_sessions && c.max_sessions <= 4096;
            let relays = c.relay is Some ==> {
                let r = c.relay->0;
                &&& r.max_reservations >= 1
                &&& r.max_circuits >= 1
                &&& r.max_circuit_bytes >= 1
                &&& r.max_circuit_duration.seconds >= 1 || r.max_circuit_duration.nanos >= 1
            };
            let named = forall|i: int|
                0 <= i < c.bootstrap.len() ==> (outside::target_of_address(
                    #[trigger] c.bootstrap[i],
                ) is Some && outside::target_of_address(c.bootstrap[i])->0 is Some);
            match node::config_fault(c) {
                None => listens && relays && c.bootstrap.len() <= 16 && named,
                Some(e) => {
                    ||| e == ErrorView::Protocol(
                        "listen address required; max_sessions must be 1..=4096"@,
                    ) && !listens
                    ||| e == ErrorView::Protocol("relay limits must be positive"@) && listens
                        && !relays
                    ||| e == ErrorView::Capacity && listens && relays && c.bootstrap.len() > 16
                    ||| e == ErrorView::Protocol("bootstrap address must end in PeerId"@) && listens
                        && relays && c.bootstrap.len() <= 16 && !named
                },
            }
        }),
{
}

/// A span is as long as its seconds and nanoseconds together.
pub proof fn law_spans_add_up(span: Span)
    ensures
        node::span_nanos(span) == 1_000_000_000 * span.seconds + span.nanos,
        node::span_nanos(span) == 0 <==> span.seconds == 0 && span.nanos == 0,
{
}

/// An address that names the own peer stays; any other one gets the own name at its end.
pub proof fn law_addresses_are_qualified(address: Text, local: Seq<u8>)
    ensures
        ({
            let q = node::qualified(address, local);
            &&& outside::target_of_address(address) == Some(Some(local)) ==> q == address
            &&& outside::target_of_address(address) != Some(Some(local)) ==> {
                &&& q.take(address.len() as int) == address
                &&& q.skip(address.len() as int) == "/p2p/"@ + outside::text_of_peer(local)->0
            }
        }),
{
    let q = node::qualified(address, local);
    if outside::target_of_address(address) != Some(Some(local)) {
        assert(q.take(address.len() as int) =~= address);
        assert(q.skip(address.len() as int) =~= "/p2p/"@ + outside::text_of_peer(local)->0);
    }
}

// Services.

/// A service that is published is found under its identity, in place of what stood there. New ones
/// are taken while there are fewer than 64.
pub proof fn law_services_are_published(m: Map<Text, ServiceView>, s: ServiceView)
    ensures
        ({
            let key = service::uuid_text(s.id.number);
            let proper = service::is_service(s.name, s.protocol);
            match catalog::published(m, s) {
                Ok(next) => {
                    &&& proper && (m.contains_key(key) || m.len() < 64)
                    &&& next.contains_key(key) && next[key] == s
                    &&& next.remove(key) == m.remove(key)
                },
                Err(e) => {
                    ||| e == ErrorView::Protocol("invalid service name or protocol"@) && !proper
                    ||| e == ErrorView::Capacity && proper && !m.contains_key(key) && m.len() >= 64
                },
            }
        }),
{
    let key = service::uuid_text(s.id.number);
    if catalog::published(m, s) is Ok {
        assert(catalog::published(m, s)->Ok_0.remove(key) =~= m.remove(key));
    }
}

/// The directory lists every service once, in the order of the identities, with its name and its
/// protocol; who may use it is not told.
pub proof fn law_directories_are_complete(m: Map<Text, ServiceView>)
    requires
        m.dom().finite(),
        forall|key: Text| #[trigger]
            m.contains_key(key) ==> key == service::uuid_text(m[key].id.number),
    ensures
        ({
            let list = catalog::directory_of(m);
            &&& list.len() == m.len()
            &&& forall|i: int|
                0 <= i < list.len() ==> {
                    &&& m.contains_key((#[trigger] list[i]).id)
                    &&& list[i].name == m[list[i].id].name
                    &&& list[i].protocol == m[list[i].id].protocol
                }
            &&& forall|i: int, j: int|
                0 <= i < j < list.len() ==> order::bytes_before(
                    encode_utf8((#[trigger] list[i]).id),
                    encode_utf8((#[trigger] list[j]).id),
                )
        }),
{
    collections::lemma_listable::<String>(m.dom());
    let keys = collections::items_of::<String>(m.dom());
    let list = catalog::directory_of(m);
    assert forall|i: int| 0 <= i < list.len() implies (#[trigger] list[i]).id == keys[i]
        && m.contains_key(keys[i]) by {
        assert(m.dom().contains(keys[i]));
    }
    assert forall|i: int, j: int| 0 <= i < j < list.len() implies order::bytes_before(
        encode_utf8((#[trigger] list[i]).id),
        encode_utf8((#[trigger] list[j]).id),
    ) by {
        assert(<String as order::Key>::before(keys[i], keys[j]));
    }
}

/// The record can be shown: its identity is one, and its name and protocol are proper.
pub open spec fn presentable(r: ServiceRecordView) -> bool {
    outside::uuid_of_text(r.id) is Ok && service::is_service(r.name, r.protocol)
}

proof fn lemma_records(records: Seq<ServiceRecordView>, n: nat)
    requires
        n <= records.len(),
    ensures
        catalog::records_fault(records, n) is None <==> {
            &&& forall|i: int| 0 <= i < n ==> presentable(#[trigger] records[i])
            &&& forall|i: int, j: int|
                0 <= i < j < n ==> outside::uuid_of_text((#[trigger] records[i]).id)
                    != outside::uuid_of_text((#[trigger] records[j]).id)
        },
    decreases n,
{
    if n > 0 {
        let m = (n - 1) as nat;
        lemma_records(records, m);
        let r = records[n - 1];
        if catalog::records_fault(records, n) is None {
            assert(catalog::records_fault(records, m) is None);
            assert forall|i: int, j: int| 0 <= i < j < n implies outside::uuid_of_text(
                (#[trigger] records[i]).id,
            ) != outside::uuid_of_text((#[trigger] records[j]).id) by {
                if j == n - 1 {
                    assert(catalog::record_id(records[i]) != catalog::record_id(r));
                }
            }
        } else if catalog::records_fault(records, m) is None && presentable(r) {
            let i = choose|i: int|
                0 <= i < n - 1 && catalog::record_id(#[trigger] records[i]) == catalog::record_id(
                    r,
                );
            assert(outside::uuid_of_text(records[i].id) == outside::uuid_of_text(
                records[n - 1].id,
            ));
        }
    }
}

/// A directory is believed exactly where it lists at most 64 services, all presentable, and none
/// twice.
pub proof fn law_directories_are_checked(records: Seq<ServiceRecordView>)
    ensures
        catalog::directory_fault(records) is None <==> {
            &&& records.len() <= 64
            &&& forall|i: int| 0 <= i < records.len() ==> presentable(#[trigger] records[i])
            &&& forall|i: int, j: int|
                0 <= i < j < records.len() ==> outside::uuid_of_text((#[trigger] records[i]).id)
                    != outside::uuid_of_text((#[trigger] records[j]).id)
        },
        records.len() > 64 ==> catalog::directory_fault(records) == Some(ErrorView::Capacity),
        records.len() <= 64 && catalog::directory_fault(records) is Some ==> exists|i: int|
            {
                &&& 0 <= i < records.len()
                &&& catalog::records_fault(records, i as nat) is None
                &&& {
                    let e = catalog::directory_fault(records)->0;
                    let r = #[trigger] records[i];
                    ||| outside::uuid_of_text(r.id) is Err && e == ErrorView::Protocol(
                        outside::uuid_of_text(r.id)->Err_0,
                    )
                    ||| outside::uuid_of_text(r.id) is Ok && !service::is_service(
                        r.name,
                        r.protocol,
                    ) && e == ErrorView::Protocol("invalid service name or protocol"@)
                    ||| presentable(r) && e == ErrorView::Protocol("duplicate service id"@)
                }
            },
{
    lemma_records(records, records.len());
    if records.len() <= 64 && catalog::directory_fault(records) is Some {
        lemma_first_fault(records, records.len());
    }
}

proof fn lemma_first_fault(records: Seq<ServiceRecordView>, n: nat)
    requires
        n <= records.len(),
        catalog::records_fault(records, n) is Some,
    ensures
        exists|i: int|
            {
                &&& 0 <= i < n
                &&& catalog::records_fault(records, i as nat) is None
                &&& {
                    let e = catalog::records_fault(records, n)->0;
                    let r = #[trigger] records[i];
                    ||| outside::uuid_of_text(r.id) is Err && e == ErrorView::Protocol(
                        outside::uuid_of_text(r.id)->Err_0,
                    )
                    ||| outside::uuid_of_text(r.id) is Ok && !service::is_service(
                        r.name,
                        r.protocol,
                    ) && e == ErrorView::Protocol("invalid service name or protocol"@)
                    ||| presentable(r) && e == ErrorView::Protocol("duplicate service id"@)
                }
            },
    decreases n,
{
    if n > 0 {
        let m = (n - 1) as nat;
        if catalog::records_fault(records, m) is Some {
            lemma_first_fault(records, m);
        } else {
            let r = records[m as int];
            assert(catalog::records_fault(records, m) is None);
            assert(presentable(r) || !presentable(r));
        }
    }
}

/// A student is let in exactly where a credential was shown, is admitted for this peer and the
/// profile that it names, is from a circle that is close enough, and of a current student where
/// such are asked for.
pub proof fn law_students_are_let_in(
    trust: federation::TrustPolicyView,
    minimum: Circle,
    current_enrollment: bool,
    shown: Option<PresentedView>,
    peer: Seq<u8>,
    now: u64,
)
    ensures
        ({
            let p = shown->0;
            let worth = federation::admitted(
                trust,
                p.presentation.credential,
                p.delegation,
                p.claims,
                peer,
                p.presentation.profile,
                now,
            );
            let near = (worth->Ok_0).0;
            let claims = (worth->Ok_0).1;
            let passes = shown is Some && worth is Ok && near.level() >= minimum.level() && (
            current_enrollment ==> claims.evidence is CurrentEnrollment
                || claims.evidence is MuaStudentVerification);
            match catalog::student_admission(
                trust,
                minimum,
                current_enrollment,
                shown,
                peer,
                now,
            ) {
                Some(c) => passes && c == claims,
                None => !passes,
            }
        }),
{
}

/// A session is opened exactly where the service is offered here and its policy lets the peer in;
/// what the credential of a student says is passed on. A service that is not offered is not found.
pub proof fn law_sessions_are_admitted(
    m: Map<Text, ServiceView>,
    request: OpenRequestView,
    shown: Option<PresentedView>,
    peer: Seq<u8>,
    local: Seq<u8>,
    clock: Outcome<u64>,
)
    ensures
        ({
            let named = outside::uuid_of_text(request.service_id);
            let key = service::uuid_text(named->Ok_0);
            let offered = m[key].access;
            let now = clock->Ok_0;
            match catalog::admission(m, request, shown, peer, local, clock) {
                Err(e) => {
                    ||| named is Err && e == ErrorView::Protocol(named->Err_0)
                    ||| named is Ok && m.contains_key(key) && clock is Err && e == clock->Err_0
                },
                Ok(AdmissionView::NotFound) => named is Ok && !m.contains_key(key),
                Ok(AdmissionView::Open { student }) => {
                    &&& named is Ok && m.contains_key(key) && clock is Ok
                    &&& match offered {
                        AccessPolicyView::Students { trust, minimum, current_enrollment } => {
                            student is Some && student == catalog::student_admission(
                                trust,
                                minimum,
                                current_enrollment,
                                shown,
                                peer,
                                now,
                            )
                        },
                        _ => student is None && access::authorized(
                            offered,
                            peer,
                            local,
                            ServiceId { number: named->Ok_0 },
                            request.grant,
                            now,
                        ),
                    }
                },
                Ok(AdmissionView::Denied) => {
                    &&& named is Ok && m.contains_key(key) && clock is Ok
                    &&& match offered {
                        AccessPolicyView::Students { trust, minimum, current_enrollment } => {
                            catalog::student_admission(
                                trust,
                                minimum,
                                current_enrollment,
                                shown,
                                peer,
                                now,
                            ) is None
                        },
                        _ => !access::authorized(
                            offered,
                            peer,
                            local,
                            ServiceId { number: named->Ok_0 },
                            request.grant,
                            now,
                        ),
                    }
                },
            }
        }),
{
}

/// The numbers of the answers differ, and an answer is understood as it was meant.
pub proof fn law_answers_are_understood(number: i32)
    ensures
        catalog::status_result(number) is Ok <==> number == 1,
        number == 2 <==> catalog::status_result(number) == Outcome::<()>::Err(ErrorView::Denied),
        number == 3 <==> catalog::status_result(number) == Outcome::<()>::Err(ErrorView::NotFound),
        number == 4 <==> catalog::status_result(number) == Outcome::<()>::Err(ErrorView::Capacity),
        !(1 <= number <= 4) ==> catalog::status_result(number) == Outcome::<()>::Err(
            ErrorView::Protocol("unknown session status"@),
        ),
        Status::Unspecified.number() == 0,
        Status::Accepted.number() == 1,
        Status::Denied.number() == 2,
        Status::NotFound.number() == 3,
        Status::Busy.number() == 4,
{
}

// Connections and searches.

/// A connection is asked for once: who asks while it is being made waits with the others. At most
/// 64 wait, a peer that is connected needs none, and an address without a peer is refused.
pub proof fn law_connections_are_asked_for_once(
    list: Seq<WaitingView>,
    target: Option<Seq<u8>>,
    connected: bool,
)
    ensures
        ({
            let known = exists|i: int|
                0 <= i < list.len() && Some((#[trigger] list[i]).peer) == target;
            match peers::dial_step(list, target, connected) {
                DialStep::Refuse => target is None,
                DialStep::Connected => target is Some && connected,
                DialStep::Full => target is Some && !connected && list.len() >= 64,
                DialStep::Wait => target is Some && !connected && list.len() < 64 && known,
                DialStep::Dial => target is Some && !connected && list.len() < 64 && !known,
            }
        }),
{
    if target is Some {
        let known = exists|i: int|
            0 <= i < list.len() && Some((#[trigger] list[i]).peer) == target;
        assert(peers::awaited(list, target->0) == known) by {
            if peers::awaited(list, target->0) {
                let i = choose|i: int|
                    0 <= i < list.len() && (#[trigger] list[i]).peer == target->0;
                assert(Some(list[i].peer) == target);
            }
            if known {
                let i = choose|i: int|
                    0 <= i < list.len() && Some((#[trigger] list[i]).peer) == target;
                assert(list[i].peer == target->0);
            }
        }
    }
}

/// Who has to wait is not answered yet; everybody else is told at once.
pub proof fn law_askers_are_answered(step: DialStep)
    ensures
        peers::dial_answer(step) is None <==> step is Wait || step is Dial,
        step is Connected ==> peers::dial_answer(step) == Some(Outcome::<()>::Ok(())),
        step is Full ==> peers::dial_answer(step) == Some(
            Outcome::<()>::Err(ErrorView::Capacity),
        ),
        step is Refuse ==> peers::dial_answer(step) == Some(
            Outcome::<()>::Err(ErrorView::Protocol("dial address must end with /p2p/PEER"@)),
        ),
{
}

/// What a search finds joins what was known, in the order in which it was found, up to 128 in all.
pub proof fn law_searches_are_bounded(known: Set<Seq<u8>>, found: Seq<Seq<u8>>)
    requires
        known.finite(),
    ensures
        ({
            let after = peers::with_found(known, found);
            &&& known.subset_of(after)
            &&& forall|p: Seq<u8>| #[trigger]
                after.contains(p) ==> known.contains(p) || found.contains(p)
            &&& known.len() + found.len() <= 128 ==> forall|p: Seq<u8>| #[trigger]
                found.contains(p) ==> after.contains(p)
            &&& known.len() <= 128 ==> after.len() <= 128
            &&& known.len() >= 128 ==> after == known
            &&& forall|i: int|
                0 <= i < found.len() && known.len() + i < 128 ==> after.contains(
                    #[trigger] found[i],
                )
        }),
{
    let after = peers::with_found(known, found);
    let room = if known.len() >= 128 {
        0int
    } else {
        128 - known.len()
    };
    let n = if found.len() <= room {
        found.len() as int
    } else {
        room
    };
    let taken = found.take(n);
    vstd::seq_lib::seq_to_set_is_finite(taken);
    assert forall|i: int| 0 <= i < found.len() && known.len() + i < 128 implies after.contains(
        #[trigger] found[i],
    ) by {
        assert(taken[i] == found[i]);
        assert(taken.to_set().contains(taken[i]));
    }
    assert forall|p: Seq<u8>| #[trigger] after.contains(p) implies known.contains(p)
        || found.contains(p) by {
        if taken.to_set().contains(p) {
            let i = taken.index_of(p);
            assert(found[i] == taken[i]);
        }
    }
    if known.len() + found.len() <= 128 {
        assert forall|p: Seq<u8>| #[trigger] found.contains(p) implies after.contains(p) by {
            let i = found.index_of(p);
            assert(found[i] == p);
            assert(known.len() + i < 128);
        }
    }
    if known.len() >= 128 {
        assert(taken =~= Seq::<Seq<u8>>::empty());
        assert(after =~= known);
    } else {
        taken.lemma_cardinality_of_set();
        vstd::set_lib::lemma_len_union(known, taken.to_set());
    }
}

/// A search that failed without any find has timed out; otherwise all that was found is told, in
/// order.
pub proof fn law_searches_are_concluded(failed: bool, known: Set<Seq<u8>>)
    requires
        known.finite(),
    ensures
        match peers::search_result(failed, known) {
            Err(e) => e == ErrorView::Timeout && failed && known == Set::<Seq<u8>>::empty(),
            Ok(list) => {
                &&& !failed || known != Set::<Seq<u8>>::empty()
                &&& list.len() == known.len()
                &&& forall|p: Seq<u8>| #[trigger] list.contains(p) <==> known.contains(p)
                &&& forall|i: int, j: int|
                    0 <= i < j < list.len() ==> order::bytes_before(
                        #[trigger] list[i],
                        #[trigger] list[j],
                    )
            },
        },
{
    collections::lemma_listable::<PeerId>(known);
    let list = collections::items_of::<PeerId>(known);
    if known.len() == 0 {
        assert(known =~= Set::<Seq<u8>>::empty());
    }
    assert forall|p: Seq<u8>| #[trigger] list.contains(p) <==> known.contains(p) by {
        if list.contains(p) {
            let i = list.index_of(p);
            assert(known.contains(list[i]));
        }
    }
    assert forall|i: int, j: int| 0 <= i < j < list.len() implies order::bytes_before(
        #[trigger] list[i],
        #[trigger] list[j],
    ) by {
        assert(<PeerId as order::Key>::before(list[i], list[j]));
    }
}

/// Different services are searched for under different names.
pub proof fn law_services_have_their_own_searches(a: ServiceId, b: ServiceId)
    ensures
        peers::search_key(a).take("jlucraft/service/"@.len() as int) == "jlucraft/service/"@,
        peers::search_key(a).skip("jlucraft/service/"@.len() as int) == service::uuid_text(
            a.number,
        ),
        peers::search_key(a) == peers::search_key(b) ==> a == b,
{
    let n = "jlucraft/service/"@.len() as int;
    assert(peers::search_key(a).take(n) =~= "jlucraft/service/"@);
    assert(peers::search_key(a).skip(n) =~= service::uuid_text(a.number));
    assert(peers::search_key(b).skip(n) =~= service::uuid_text(b.number));
    if peers::search_key(a) == peers::search_key(b) {
        service::law_identities_have_their_own_texts(a.number, b.number);
    }
}

} // verus!
