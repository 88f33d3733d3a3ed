//! What terminals decide before they use a node: how it is set up, whom they let in, and whom
//! they trust to be at the other end.
use vstd::prelude::*;
use vstd::string::*;
use vstd::utf8::*;

use crate::access::{AccessPolicy, AccessPolicyView, Grant};
use crate::collections::{OrdSet, StrSet};
use crate::identity::PeerId;
use crate::model::views::Text;
use crate::node;
use crate::node::{NodeConfig, NodeConfigView, RelayConfig, Span};
use crate::order::{same_bytes, same_text, Duplicate};
use crate::outside;
use crate::protocol::{ServiceRecord, ServiceRecordView, MAX_FRAME};
use crate::service;
use crate::service::ServiceId;

verus! {

/// How a terminal sets up its node. Addresses are in their text form.
#[derive(Debug, PartialEq, Eq)]
pub struct NodeArgs {
    pub listen: Vec<String>,
    pub external: Vec<String>,
    pub relay: bool,
    pub relay_circuits: usize,
    pub relay_bytes: u64,
    pub relay_seconds: u64,
    pub bootstrap: Vec<String>,
    pub discovery_server: bool,
    pub lan_discovery: bool,
}

/// What a [`NodeArgs`] stands for.
#[verifier::ext_equal]
pub struct NodeArgsView {
    pub listen: Seq<Text>,
    pub external: Seq<Text>,
    pub relay: bool,
    pub relay_circuits: usize,
    pub relay_bytes: u64,
    pub relay_seconds: u64,
    pub bootstrap: Seq<Text>,
    pub discovery_server: bool,
    pub lan_discovery: bool,
}

impl DeepView for NodeArgs {
    type V = NodeArgsView;

    open spec fn deep_view(&self) -> NodeArgsView {
        NodeArgsView {
            listen: self.listen.deep_view(),
            external: self.external.deep_view(),
            relay: self.relay,
            relay_circuits: self.relay_circuits,
            relay_bytes: self.relay_bytes,
            relay_seconds: self.relay_seconds,
            bootstrap: self.bootstrap.deep_view(),
            discovery_server: self.discovery_server,
            lan_discovery: self.lan_discovery,
        }
    }
}

impl View for NodeArgs {
    type V = NodeArgsView;

    open spec fn view(&self) -> NodeArgsView {
        self.deep_view()
    }
}

impl Duplicate for NodeArgs {
    fn duplicate(&self) -> (r: Self) {
        NodeArgs {
            listen: self.listen.duplicate(),
            external: self.external.duplicate(),
            relay: self.relay,
            relay_circuits: self.relay_circuits,
            relay_bytes: self.relay_bytes,
            relay_seconds: self.relay_seconds,
            bootstrap: self.bootstrap.duplicate(),
            discovery_server: self.discovery_server,
            lan_discovery: self.lan_discovery,
        }
    }
}

impl Clone for NodeArgs {
    fn clone(&self) -> (r: Self)
        ensures
            r@ == self@,
    {
        self.duplicate()
    }
}


/// The set-up of the node. One that stands alone as a relay relays, and answers searches.
pub open spec fn config_of(a: NodeArgsView, standalone_relay: bool) -> NodeConfigView {
    NodeConfigView {
        listen: a.listen,
        external_addresses: a.external,
        relay: if a.relay || standalone_relay {
            Some(
                RelayConfig {
                    max_reservations: 128,
                    max_circuits: a.relay_circuits,
                    max_circuit_bytes: a.relay_bytes,
                    max_circuit_duration: Span { seconds: a.relay_seconds, nanos: 0 },
                },
            )
        } else {
            None
        },
        hole_punching: true,
        max_sessions: 128,
        discovery_server: a.discovery_server || standalone_relay,
        lan_discovery: a.lan_discovery,
        bootstrap: a.bootstrap,
    }
}

impl NodeArgs {
    /// The set-up of the node.
    pub fn config(&self, standalone_relay: bool) -> (r: NodeConfig)
        ensures
            r@ == config_of(self@, standalone_relay),
    {
        let defaults = NodeConfig::default();
        let limits = RelayConfig::default();
        NodeConfig {
            listen: self.listen.duplicate(),
            external_addresses: self.external.duplicate(),
            relay: if self.relay || standalone_relay {
                Some(
                    RelayConfig {
                        max_reservations: limits.max_reservations,
                        max_circuits: self.relay_circuits,
                        max_circuit_bytes: self.relay_bytes,
                        max_circuit_duration: Span::of_seconds(self.relay_seconds),
                    },
                )
            } else {
                None
            },
            hole_punching: defaults.hole_punching,
            max_sessions: defaults.max_sessions,
            discovery_server: self.discovery_server || standalone_relay,
            lan_discovery: self.lan_discovery,
            bootstrap: self.bootstrap.duplicate(),
        }
    }
}

/// The address through a relay at which a node is to listen, and the same with the identity of
/// the node behind it.
pub open spec fn circuit(relay: Text) -> Text {
    relay + "/p2p-circuit"@
}

/// The address at which the node is reached through the relay.
pub open spec fn reached_at(relay: Text, local: Seq<u8>) -> Text {
    circuit(relay) + "/p2p/"@ + outside::text_of_peer(local)->0
}

/// What a node listens at to be reached through a relay, and the address at which it is reached
/// then. `None` where the address of the relay does not end in its identity.
pub fn reservation(relay: &str, local: &PeerId) -> (r: Option<(String, String)>)
    ensures
        match r {
            Some((listen, expected)) => node::names_peer(relay@) && listen@ == circuit(relay@)
                && expected@ == reached_at(relay@, local@),
            None => !node::names_peer(relay@),
        },
{
    match PeerId::of_address(relay) {
        Some(Some(_)) => {
            let mut listen: String = relay.to_owned();
            listen.append("/p2p-circuit");
            let mut expected: String = listen.clone();
            expected.append("/p2p/");
            expected.append(local.text().as_str());
            Some((listen, expected))
        },
        _ => None,
    }
}

/// Whom a terminal lets in.
pub struct AccessArgs {
    pub public: bool,
    pub allow_peer: Vec<PeerId>,
    pub issuer: Vec<PeerId>,
    pub revoked: Vec<String>,
}

/// The policy that the options of a terminal ask for. Without any of them nobody is let in.
pub open spec fn policy_of(
    public: bool,
    allow_peer: Seq<Seq<u8>>,
    issuer: Seq<Seq<u8>>,
    revoked: Seq<Text>,
) -> AccessPolicyView {
    if public {
        AccessPolicyView::Public
    } else if allow_peer.len() > 0 {
        AccessPolicyView::Peers(allow_peer.to_set())
    } else if issuer.len() > 0 {
        AccessPolicyView::Grants { issuers: issuer.to_set(), revoked: revoked.to_set() }
    } else {
        AccessPolicyView::Deny
    }
}

/// One more item of a list makes one more member of the set.
proof fn lemma_next_member<A>(list: Seq<A>, i: int)
    requires
        0 <= i < list.len(),
    ensures
        list.take(i + 1).to_set() == list.take(i).to_set().insert(list[i]),
{
    let a = list.take(i);
    let b = list.take(i + 1);
    assert forall|x: A| #[trigger] b.to_set().contains(x) <==> a.to_set().insert(list[i]).contains(
        x,
    ) by {
        if a.contains(x) {
            let j = a.index_of(x);
            assert(b[j] == x);
        }
        assert(b[i] == list[i]);
        if b.contains(x) {
            let j = b.index_of(x);
            if j < i {
                assert(a[j] == x);
            }
        }
    }
    assert(b.to_set() =~= a.to_set().insert(list[i]));
}

fn peer_set(list: &Vec<PeerId>) -> (r: OrdSet<PeerId>)
    ensures
        r@ == list.deep_view().to_set(),
{
    let ghost view = list.deep_view();
    let mut r: OrdSet<PeerId> = OrdSet::new();
    let mut i: usize = 0;
    assert(view.take(0).to_set() =~= Set::<Seq<u8>>::empty());
    while i < list.len()
        invariant
            i <= list@.len(),
            view == list.deep_view(),
            r@ == view.take(i as int).to_set(),
        decreases list.len() - i,
    {
        proof {
            assert(view[i as int] == list@[i as int].deep_view());
            lemma_next_member(view, i as int);
        }
        let ghost before = r@;
        r.insert(list[i].duplicate());
        assert(r@ == before.insert(view[i as int]));
        i = i + 1;
    }
    assert(view.take(i as int) =~= view);
    r
}

fn text_set(list: &Vec<String>) -> (r: StrSet)
    ensures
        r@ == list.deep_view().to_set(),
{
    let ghost view = list.deep_view();
    let mut r: StrSet = StrSet::new();
    let mut i: usize = 0;
    assert(view.take(0).to_set() =~= Set::<Text>::empty());
    while i < list.len()
        invariant
            i <= list@.len(),
            view == list.deep_view(),
            r@ == view.take(i as int).to_set(),
        decreases list.len() - i,
    {
        proof {
            assert(view[i as int] == list@[i as int]@);
            lemma_next_member(view, i as int);
        }
        let ghost before = r@;
        r.insert(list[i].clone());
        assert(r@ == before.insert(view[i as int]));
        i = i + 1;
    }
    assert(view.take(i as int) =~= view);
    r
}

impl AccessArgs {
    /// The policy that the options ask for.
    pub fn policy(&self) -> (r: AccessPolicy)
        ensures
            r@ == policy_of(
                self.public,
                self.allow_peer.deep_view(),
                self.issuer.deep_view(),
                self.revoked.deep_view(),
            ),
    {
        assert(self.allow_peer.deep_view().len() == self.allow_peer@.len());
        assert(self.issuer.deep_view().len() == self.issuer@.len());
        if self.public {
            AccessPolicy::Public
        } else if self.allow_peer.len() > 0 {
            AccessPolicy::Peers(peer_set(&self.allow_peer))
        } else if self.issuer.len() > 0 {
            AccessPolicy::Grants {
                issuers: peer_set(&self.issuer),
                revoked: text_set(&self.revoked),
            }
        } else {
            AccessPolicy::Deny
        }
    }
}

/// The text ends in the other one, byte for byte.
pub open spec fn ends_in(text: Text, end: Text) -> bool {
    let a = encode_utf8(text);
    let b = encode_utf8(end);
    b.len() <= a.len() && a.skip(a.len() - b.len()) == b
}

fn text_ends_in(text: &str, end: &str) -> (r: bool)
    ensures
        r == ends_in(text@, end@),
{
    let a: &[u8] = text.as_bytes();
    let b: &[u8] = end.as_bytes();
    if b.len() > a.len() {
        return false;
    }
    let tail: &[u8] = vstd::slice::slice_subrange(a, a.len() - b.len(), a.len());
    assert(tail@ =~= a@.skip(a@.len() - b@.len()));
    same_bytes(tail, b)
}

/// How an address ends that leads to the peer.
pub open spec fn peer_suffix(peer: Seq<u8>) -> Text {
    "/p2p/"@ + outside::text_of_peer(peer)->0
}

/// Whether every address leads to the peer that is expected, so that no other one is dialed.
pub fn all_lead_to(addresses: &Vec<String>, peer: &PeerId) -> (r: bool)
    ensures
        r == (forall|i: int|
            0 <= i < addresses@.len() ==> ends_in(
                #[trigger] addresses.deep_view()[i],
                peer_suffix(peer@),
            )),
{
    let ghost view = addresses.deep_view();
    let mut suffix: String = "/p2p/".to_owned();
    suffix.append(peer.text().as_str());
    let mut i: usize = 0;
    while i < addresses.len()
        invariant
            i <= addresses@.len(),
            view == addresses.deep_view(),
            suffix@ == peer_suffix(peer@),
            forall|j: int| 0 <= j < i ==> ends_in(#[trigger] view[j], peer_suffix(peer@)),
        decreases addresses.len() - i,
    {
        assert(view[i as int] == addresses@[i as int]@);
        if !text_ends_in(addresses[i].as_str(), suffix.as_str()) {
            return false;
        }
        i = i + 1;
    }
    true
}

/// Whether a grant that takes so many bytes is read at all.
pub fn grant_fits(len: u64) -> (r: bool)
    ensures
        r == (len <= MAX_FRAME),
{
    len <= MAX_FRAME as u64
}

/// A grant from now on for so many seconds. `None` where it would end after the end of time.
pub fn grant_for(
    subject: PeerId,
    audience: PeerId,
    service: ServiceId,
    now: u64,
    valid_seconds: u64,
) -> (r: Option<Grant>)
    ensures
        match r {
            Some(g) => now + valid_seconds <= u64::MAX && g.subject@ == subject@ && g.audience@
                == audience@ && g.service == service && g.not_before == now && g.expires_at == now
                + valid_seconds,
            None => now + valid_seconds > u64::MAX,
        },
{
    match now.checked_add(valid_seconds) {
        Some(expires_at) => Some(
            Grant { subject, audience, service, not_before: now, expires_at },
        ),
        None => None,
    }
}

/// Why a proxy for a player may not start. It serves this machine alone, and shows one proof.
pub open spec fn proxy_fault(loopback: bool, grant: bool, student: bool) -> Option<Text> {
    if !loopback {
        Some("player proxy must bind to loopback"@)
    } else if grant && student {
        Some("choose one admission proof"@)
    } else {
        None
    }
}

/// Why a proxy for a player may not start.
pub fn check_proxy(loopback: bool, grant: bool, student: bool) -> (r: Option<&'static str>)
    ensures
        match r {
            Some(why) => proxy_fault(loopback, grant, student) == Some(why@),
            None => proxy_fault(loopback, grant, student) is None,
        },
{
    if !loopback {
        Some("player proxy must bind to loopback")
    } else if grant && student {
        Some("choose one admission proof")
    } else {
        None
    }
}

/// The service is among those that a host lists.
pub open spec fn is_offered(records: Seq<ServiceRecordView>, id: ServiceId) -> bool {
    exists|i: int|
        0 <= i < records.len() && (#[trigger] records[i]).id == service::uuid_text(id.number)
}

/// Whether the service is among those that a host lists.
pub fn offers(records: &Vec<ServiceRecord>, id: ServiceId) -> (r: bool)
    ensures
        r == is_offered(records.deep_view(), id),
{
    let ghost view = records.deep_view();
    let name: String = id.text();
    let mut i: usize = 0;
    while i < records.len()
        invariant
            i <= records@.len(),
            view == records.deep_view(),
            name@ == service::uuid_text(id.number),
            forall|j: int| 0 <= j < i ==> (#[trigger] view[j]).id != name@,
        decreases records.len() - i,
    {
        assert(view[i as int] == records@[i as int]@);
        if same_text(records[i].id.as_str(), name.as_str()) {
            return true;
        }
        i = i + 1;
    }
    false
}

} // verus!
