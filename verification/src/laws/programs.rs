//! What programs around the library rely on: orders, texts, errors and options.
use vstd::prelude::*;
use vstd::utf8::*;

use crate::access::AccessPolicyView;
use crate::client;
use crate::client::InputView;
use crate::error;
use crate::error::{ErrorView, Outcome};
use crate::model::rules;
use crate::model::views::Text;
use crate::order;
use crate::outside;
use crate::protocol::ServiceRecordView;
use crate::service;
use crate::service::ServiceId;
use crate::terminal;
use crate::terminal::NodeArgsView;
use crate::text;

verus! {

/// Two byte strings agree up to a place, and there the first one ends or has the lower byte.
pub open spec fn parts_at(a: Seq<u8>, b: Seq<u8>, k: int) -> bool {
    &&& 0 <= k <= a.len()
    &&& k < b.len()
    &&& a.take(k) == b.take(k)
    &&& k < a.len() ==> a[k] < b[k]
}

/// A byte string is before another one exactly where it is shorter and begins it, or where it has
/// the lower byte at the first place in which they differ.
pub proof fn law_bytes_are_ordered(a: Seq<u8>, b: Seq<u8>)
    ensures
        order::bytes_before(a, b) <==> exists|k: int| #[trigger] parts_at(a, b, k),
    decreases a.len(),
{
    if b.len() > 0 && a.len() > 0 && a[0] == b[0] {
        let c = a.drop_first();
        let d = b.drop_first();
        law_bytes_are_ordered(c, d);
        if exists|k: int| #[trigger] parts_at(c, d, k) {
            let k = choose|k: int| #[trigger] parts_at(c, d, k);
            assert(a.take(k + 1) =~= seq![a[0]] + c.take(k));
            assert(b.take(k + 1) =~= seq![b[0]] + d.take(k));
            assert(parts_at(a, b, k + 1));
        }
        if exists|k: int| #[trigger] parts_at(a, b, k) {
            let k = choose|k: int| #[trigger] parts_at(a, b, k);
            assert(k > 0);
            assert(c.take(k - 1) =~= a.take(k).drop_first());
            assert(d.take(k - 1) =~= b.take(k).drop_first());
            assert(parts_at(c, d, k - 1));
        }
    } else if b.len() > 0 {
        if a.len() == 0 || a[0] < b[0] {
            assert(a.take(0) =~= b.take(0));
            assert(parts_at(a, b, 0));
        } else if exists|k: int| #[trigger] parts_at(a, b, k) {
            let k = choose|k: int| #[trigger] parts_at(a, b, k);
            if k > 0 {
                assert(a.take(k)[0] == b.take(k)[0]);
            }
        }
    }
}

/// Texts are ordered by their bytes, whatever their characters.
pub proof fn law_texts_are_ordered_by_their_bytes(a: Text, b: Text)
    ensures
        order::text_before(a, b) <==> order::bytes_before(encode_utf8(a), encode_utf8(b)),
        a != b ==> order::text_before(a, b) != order::text_before(b, a),
{
    <String as order::Key>::total(a, b);
    <String as order::Key>::irreflexive(a);
    if order::text_before(a, b) && order::text_before(b, a) {
        <String as order::Key>::transitive(a, b, a);
    }
}

/// Numbers are written in decimal digits: each one with its digit, and a number from ten on as the
/// tenth of it with one digit more.
pub proof fn law_numbers_are_written_in_decimal(n: nat)
    ensures
        ({
            let digits = seq!['0', '1', '2', '3', '4', '5', '6', '7', '8', '9'];
            &&& text::decimal(n).len() >= 1
            &&& text::decimal(n).last() == digits[n as int % 10]
            &&& n < 10 ==> text::decimal(n).len() == 1
            &&& n >= 10 ==> text::decimal(n).drop_last() == text::decimal(n / 10)
        }),
{
    assert(forall|d: nat| d < 10 ==> #[trigger] text::digit(d) == seq![
        '0', '1', '2', '3', '4', '5', '6', '7', '8', '9',
    ][d as int]);
    if n >= 10 {
        assert(text::decimal(n).drop_last() =~= text::decimal(n / 10));
        assert(text::decimal(n).last() == text::digit(n % 10));
    } else {
        assert(text::decimal(n).last() == text::digit(n));
    }
}

/// Sums that do not fit are as large as can be; others are exact.
pub proof fn law_sums_saturate(x: int)
    requires
        x >= 0,
    ensures
        x <= u64::MAX ==> rules::saturated(x) == x,
        x > u64::MAX ==> rules::saturated(x) == u64::MAX,
{
}

/// What each error is told as.
pub proof fn law_errors_have_their_texts(why: Text)
    ensures
        error::error_text(ErrorView::Io(why)) == "I/O: "@ + why,
        error::error_text(ErrorView::Identity(why)) == "invalid identity: "@ + why,
        error::error_text(ErrorView::Protocol(why)) == "invalid protocol message: "@ + why,
        error::error_text(ErrorView::Network(why)) == "network: "@ + why,
        error::error_text(ErrorView::Timeout) == "operation timed out"@,
        error::error_text(ErrorView::Stopped) == "node stopped"@,
        error::error_text(ErrorView::Denied) == "access denied"@,
        error::error_text(ErrorView::NotFound) == "service not found"@,
        error::error_text(ErrorView::Capacity) == "resource limit reached"@,
        error::invalid_view(why) == ErrorView::Protocol(why),
{
}

proof fn lemma_joined(head: Text, a: Text, b: Text)
    requires
        head + a == head + b,
    ensures
        a == b,
{
    assert((head + a).skip(head.len() as int) =~= a);
    assert((head + b).skip(head.len() as int) =~= b);
}

/// Different errors are told differently.
pub proof fn law_errors_are_told_apart(a: ErrorView, b: ErrorView)
    requires
        error::error_text(a) == error::error_text(b),
    ensures
        a == b,
{
    reveal_strlit("I/O: ");
    reveal_strlit("invalid identity: ");
    reveal_strlit("invalid protocol message: ");
    reveal_strlit("network: ");
    reveal_strlit("operation timed out");
    reveal_strlit("node stopped");
    reveal_strlit("access denied");
    reveal_strlit("service not found");
    reveal_strlit("resource limit reached");
    let s = error::error_text(a);
    let t = error::error_text(b);
    assert(s[0] == t[0] && s[1] == t[1] && s[8] == t[8]);
    match (a, b) {
        (ErrorView::Io(x), ErrorView::Io(y)) => lemma_joined("I/O: "@, x, y),
        (ErrorView::Identity(x), ErrorView::Identity(y)) => lemma_joined(
            "invalid identity: "@,
            x,
            y,
        ),
        (ErrorView::Protocol(x), ErrorView::Protocol(y)) => lemma_joined(
            "invalid protocol message: "@,
            x,
            y,
        ),
        (ErrorView::Network(x), ErrorView::Network(y)) => lemma_joined("network: "@, x, y),
        _ => {},
    }
}

/// A change that is refused leaves everything as it was, and one that is made leads to what is
/// expected.
pub proof fn law_refusals_change_nothing<T>(
    r: error::Result<()>,
    before: T,
    after: T,
    expected: Outcome<T>,
)
    ensures
        error::settles(r, before, after, expected) <==> match r {
            Ok(_) => expected == Outcome::<T>::Ok(after),
            Err(e) => expected == Outcome::<T>::Err(e@) && after == before,
        },
        error::settles(r, before, after, expected) ==> error::agrees(r, after, expected),
        error::agrees(r, after, expected) ==> (r is Ok <==> expected is Ok) && (expected is Ok
            ==> after == expected->Ok_0) && (r is Err ==> r->Err_0@ == expected->Err_0),
{
}

// What is asked of a client, and what a terminal is started with.

/// A request goes out where the peer can be read, the address leads to it, and an action comes
/// with the revision that it is made on.
pub proof fn law_inputs_are_checked(input: InputView)
    ensures
        ({
            let peer = outside::peer_of_text(input.peer);
            let target = outside::target_of_address(input.address);
            let leads = peer is Some && target is Some && target->0 == peer;
            match client::checked(input) {
                Ok((to, work)) => {
                    &&& leads && peer == Some(to)
                    &&& input.action is None ==> work is None
                    &&& input.action is Some ==> input.revision is Some && work == Some(
                        (input.revision->0, input.action->0),
                    )
                },
                Err(e) => {
                    ||| e == ErrorView::Protocol("invalid peer"@) && peer is None
                    ||| e == ErrorView::Protocol("invalid address"@) && peer is Some
                        && target is None
                    ||| e == ErrorView::Denied && peer is Some && target is Some && target->0
                        != peer
                    ||| e == ErrorView::Protocol("revision required"@) && leads
                        && input.action is Some && input.revision is None
                },
            }
        }),
{
}

/// A terminal runs with the addresses and limits that it was started with. One that relays for
/// others alone always relays and answers searches.
pub proof fn law_options_become_the_configuration(a: NodeArgsView, standalone_relay: bool)
    ensures
        ({
            let c = terminal::config_of(a, standalone_relay);
            &&& c.listen == a.listen
            &&& c.external_addresses == a.external
            &&& c.bootstrap == a.bootstrap
            &&& c.lan_discovery == a.lan_discovery
            &&& c.discovery_server <==> a.discovery_server || standalone_relay
            &&& c.hole_punching
            &&& c.max_sessions == 128
            &&& c.relay is Some <==> a.relay || standalone_relay
            &&& c.relay is Some ==> {
                let r = c.relay->0;
                &&& r.max_reservations == 128
                &&& r.max_circuits == a.relay_circuits
                &&& r.max_circuit_bytes == a.relay_bytes
                &&& r.max_circuit_duration.seconds == a.relay_seconds
                &&& r.max_circuit_duration.nanos == 0
            }
        }),
{
}

/// A node is reached through a relay at the relay's address, followed by the mark of a circuit and
/// the node's own name; it listens at the same without the name.
pub proof fn law_relays_are_addressed(relay: Text, local: Seq<u8>)
    ensures
        ({
            let at = terminal::reached_at(relay, local);
            let listen = terminal::circuit(relay);
            &&& listen.take(relay.len() as int) == relay
            &&& listen.skip(relay.len() as int) == "/p2p-circuit"@
            &&& at.take(listen.len() as int) == listen
            &&& at.skip(listen.len() as int) == terminal::peer_suffix(local)
            &&& terminal::peer_suffix(local).take("/p2p/"@.len() as int) == "/p2p/"@
            &&& Some(terminal::peer_suffix(local).skip("/p2p/"@.len() as int)) == Some(
                outside::text_of_peer(local)->0,
            )
        }),
{
    let at = terminal::reached_at(relay, local);
    let listen = terminal::circuit(relay);
    let tail = terminal::peer_suffix(local);
    assert(listen.take(relay.len() as int) =~= relay);
    assert(listen.skip(relay.len() as int) =~= "/p2p-circuit"@);
    assert(at.take(listen.len() as int) =~= listen);
    assert(at.skip(listen.len() as int) =~= tail);
    assert(tail.take("/p2p/"@.len() as int) =~= "/p2p/"@);
    assert(tail.skip("/p2p/"@.len() as int) =~= outside::text_of_peer(local)->0);
}

/// Whom a terminal lets in: all, the peers that are named, those with a grant of the issuers that
/// are named, or nobody. The widest option counts.
pub proof fn law_options_become_the_policy(
    public: bool,
    allow_peer: Seq<Seq<u8>>,
    issuer: Seq<Seq<u8>>,
    revoked: Seq<Text>,
)
    ensures
        match terminal::policy_of(public, allow_peer, issuer, revoked) {
            AccessPolicyView::Public => public,
            AccessPolicyView::Peers(peers) => {
                &&& !public && allow_peer.len() >= 1
                &&& forall|p: Seq<u8>| #[trigger] peers.contains(p) <==> allow_peer.contains(p)
            },
            AccessPolicyView::Grants { issuers, revoked: ids } => {
                &&& !public && allow_peer.len() == 0 && issuer.len() >= 1
                &&& forall|p: Seq<u8>| #[trigger] issuers.contains(p) <==> issuer.contains(p)
                &&& forall|t: Text| #[trigger] ids.contains(t) <==> revoked.contains(t)
            },
            AccessPolicyView::Deny => !public && allow_peer.len() == 0 && issuer.len() == 0,
            AccessPolicyView::Students { .. } => false,
        },
{
}

/// A text ends in another one exactly where something stands before it that makes up the whole.
pub proof fn law_ends_are_found(body: Text, end: Text)
    ensures
        terminal::ends_in(body, end) <==> exists|head: Seq<u8>|
            encode_utf8(body) == #[trigger] (head + encode_utf8(end)),
{
    let a = encode_utf8(body);
    let b = encode_utf8(end);
    if terminal::ends_in(body, end) {
        let head = a.take(a.len() - b.len());
        assert(a =~= head + b);
    }
    if exists|head: Seq<u8>| a == #[trigger] (head + b) {
        let head = choose|head: Seq<u8>| a == #[trigger] (head + b);
        assert((head + b).skip(head.len() as int) =~= b);
    }
}

/// A proxy for a player starts on the own machine alone, and with at most one proof.
pub proof fn law_proxies_stay_on_the_machine(loopback: bool, grant: bool, student: bool)
    ensures
        match terminal::proxy_fault(loopback, grant, student) {
            None => loopback && !(grant && student),
            Some(why) => {
                ||| why == "player proxy must bind to loopback"@ && !loopback
                ||| why == "choose one admission proof"@ && loopback && grant && student
            },
        },
{
}

/// A service is offered where some record has its identity.
pub proof fn law_offers_are_found(records: Seq<ServiceRecordView>, id: ServiceId)
    ensures
        terminal::is_offered(records, id) <==> records.map_values(
            |r: ServiceRecordView| r.id,
        ).contains(service::uuid_text(id.number)),
{
    let ids = records.map_values(|r: ServiceRecordView| r.id);
    let wanted = service::uuid_text(id.number);
    if terminal::is_offered(records, id) {
        let i = choose|i: int| 0 <= i < records.len() && (#[trigger] records[i]).id == wanted;
        assert(ids[i] == wanted);
    }
    if ids.contains(wanted) {
        let i = ids.index_of(wanted);
        assert(records[i].id == wanted);
    }
}

} // verus!
