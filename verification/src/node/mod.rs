//! A node of the federation: how it is set up, what it offers, and whom it knows.
use vstd::prelude::*;
use vstd::string::*;

use crate::error;
use crate::error::{invalid, Error, ErrorView, Result};
use crate::identity::PeerId;
use crate::model::views::Text;
use crate::order::{same_text, Duplicate};
use crate::outside;

pub mod catalog;
pub mod peers;

verus! {

/// A span of time: whole seconds, and nanoseconds on top of them.
#[derive(Clone, Copy, Debug, PartialEq, Eq, Structural)]
pub struct Span {
    pub seconds: u64,
    pub nanos: u32,
}

/// The length of a span, in nanoseconds.
pub open spec fn span_nanos(span: Span) -> nat {
    (span.seconds * 1_000_000_000 + span.nanos) as nat
}

impl Span {
    /// A span of whole seconds.
    pub fn of_seconds(seconds: u64) -> (r: Self)
        ensures
            r == (Span { seconds, nanos: 0 }),
    {
        Span { seconds, nanos: 0 }
    }

    /// Whether the span has no length.
    pub fn is_zero(&self) -> (r: bool)
        ensures
            r == (span_nanos(*self) == 0),
    {
        self.seconds == 0 && self.nanos == 0
    }
}

/// The bounds within which a node relays for others.
#[derive(Clone, Copy, Debug, PartialEq, Eq, Structural)]
pub struct RelayConfig {
    pub max_reservations: usize,
    pub max_circuits: usize,
    pub max_circuit_bytes: u64,
    pub max_circuit_duration: Span,
}

impl Default for RelayConfig {
    fn default() -> (r: Self)
        ensures
            r == (RelayConfig {
                max_reservations: 128,
                max_circuits: 128,
                max_circuit_bytes: 268_435_456,
                max_circuit_duration: (Span { seconds: 3600, nanos: 0 }),
            }),
    {
        RelayConfig {
            max_reservations: 128,
            max_circuits: 128,
            max_circuit_bytes: 268_435_456,
            max_circuit_duration: Span::of_seconds(3600),
        }
    }
}

/// How a node is set up. Addresses are in their text form.
#[derive(Debug, PartialEq, Eq)]
pub struct NodeConfig {
    pub listen: Vec<String>,
    /// Addresses that the operator knows to be reachable. No address is taken to be.
    pub external_addresses: Vec<String>,
    pub relay: Option<RelayConfig>,
    pub hole_punching: bool,
    pub max_sessions: usize,
    /// Stable nodes may answer queries for services; the others only ask.
    pub discovery_server: bool,
    pub lan_discovery: bool,
    pub bootstrap: Vec<String>,
}

/// What a [`NodeConfig`] stands for.
#[verifier::ext_equal]
pub struct NodeConfigView {
    pub listen: Seq<Text>,
    pub external_addresses: Seq<Text>,
    pub relay: Option<RelayConfig>,
    pub hole_punching: bool,
    pub max_sessions: usize,
    pub discovery_server: bool,
    pub lan_discovery: bool,
    pub bootstrap: Seq<Text>,
}

impl DeepView for NodeConfig {
    type V = NodeConfigView;

    open spec fn deep_view(&self) -> NodeConfigView {
        NodeConfigView {
            listen: self.listen.deep_view(),
            external_addresses: self.external_addresses.deep_view(),
            relay: self.relay,
            hole_punching: self.hole_punching,
            max_sessions: self.max_sessions,
            discovery_server: self.discovery_server,
            lan_discovery: self.lan_discovery,
            bootstrap: self.bootstrap.deep_view(),
        }
    }
}

impl View for NodeConfig {
    type V = NodeConfigView;

    open spec fn view(&self) -> NodeConfigView {
        self.deep_view()
    }
}

impl Duplicate for NodeConfig {
    fn duplicate(&self) -> (r: Self) {
        NodeConfig {
            listen: self.listen.duplicate(),
            external_addresses: self.external_addresses.duplicate(),
            relay: self.relay,
            hole_punching: self.hole_punching,
            max_sessions: self.max_sessions,
            discovery_server: self.discovery_server,
            lan_discovery: self.lan_discovery,
            bootstrap: self.bootstrap.duplicate(),
        }
    }
}

impl Clone for NodeConfig {
    fn clone(&self) -> (r: Self)
        ensures
            r@ == self@,
    {
        self.duplicate()
    }
}


impl Default for NodeConfig {
    fn default() -> (r: Self)
        ensures
            r@ == (NodeConfigView {
                listen: seq!["/ip4/127.0.0.1/udp/0/quic-v1"@],
                external_addresses: Seq::empty(),
                relay: None,
                hole_punching: true,
                max_sessions: 128,
                discovery_server: false,
                lan_discovery: false,
                bootstrap: Seq::empty(),
            }),
    {
        let mut listen: Vec<String> = Vec::new();
        listen.push("/ip4/127.0.0.1/udp/0/quic-v1".to_owned());
        let r = NodeConfig {
            listen,
            external_addresses: Vec::new(),
            relay: None,
            hole_punching: true,
            max_sessions: 128,
            discovery_server: false,
            lan_discovery: false,
            bootstrap: Vec::new(),
        };
        assert(r@.listen =~= seq!["/ip4/127.0.0.1/udp/0/quic-v1"@]);
        assert(r@.external_addresses =~= Seq::<Text>::empty());
        assert(r@.bootstrap =~= Seq::<Text>::empty());
        r
    }
}

/// The address ends in the identity of a peer.
pub open spec fn names_peer(address: Text) -> bool {
    outside::target_of_address(address) matches Some(target) && target is Some
}

/// The bounds allow for something to be relayed.
pub open spec fn relays(relay: RelayConfig) -> bool {
    relay.max_reservations > 0 && relay.max_circuits > 0 && relay.max_circuit_bytes > 0
        && span_nanos(relay.max_circuit_duration) > 0
}

/// What is wrong with a set-up.
pub open spec fn config_fault(c: NodeConfigView) -> Option<ErrorView> {
    if c.listen.len() == 0 || c.max_sessions == 0 || c.max_sessions > 4096 {
        Some(ErrorView::Protocol("listen address required; max_sessions must be 1..=4096"@))
    } else if c.relay is Some && !relays(c.relay->0) {
        Some(ErrorView::Protocol("relay limits must be positive"@))
    } else if c.bootstrap.len() > 16 {
        Some(ErrorView::Capacity)
    } else if exists|i: int| 0 <= i < c.bootstrap.len() && !names_peer(#[trigger] c.bootstrap[i]) {
        Some(ErrorView::Protocol("bootstrap address must end in PeerId"@))
    } else {
        None
    }
}

impl NodeConfig {
    /// Accepts a set-up that a node can be started with.
    pub fn validate(&self) -> (r: Result<()>)
        ensures
            match config_fault(self@) {
                None => r is Ok,
                Some(e) => r is Err && r->Err_0@ == e,
            },
    {
        assert(self@.listen.len() == self.listen@.len());
        assert(self@.bootstrap.len() == self.bootstrap@.len());
        if self.listen.len() == 0 || self.max_sessions == 0 || self.max_sessions > 4096 {
            return Err(invalid("listen address required; max_sessions must be 1..=4096"));
        }
        match &self.relay {
            Some(relay) => {
                if relay.max_reservations == 0 || relay.max_circuits == 0
                    || relay.max_circuit_bytes == 0 || relay.max_circuit_duration.is_zero() {
                    return Err(invalid("relay limits must be positive"));
                }
            },
            None => {},
        }
        if self.bootstrap.len() > 16 {
            return Err(Error::Capacity);
        }
        let mut i: usize = 0;
        while i < self.bootstrap.len()
            invariant
                i <= self.bootstrap@.len(),
                self@.bootstrap.len() == self.bootstrap@.len(),
                !(self@.listen.len() == 0 || self@.max_sessions == 0 || self@.max_sessions > 4096),
                !(self@.relay is Some && !relays(self@.relay->0)),
                self@.bootstrap.len() <= 16,
                forall|j: int| 0 <= j < i ==> names_peer(#[trigger] self@.bootstrap[j]),
            decreases self.bootstrap.len() - i,
        {
            assert(self@.bootstrap[i as int] == self.bootstrap@[i as int]@);
            let named: bool = match PeerId::of_address(self.bootstrap[i].as_str()) {
                Some(Some(_)) => true,
                _ => false,
            };
            if !named {
                return Err(invalid("bootstrap address must end in PeerId"));
            }
            i = i + 1;
        }
        Ok(())
    }
}

/// The address with the identity of the peer behind it, where it does not end in that already.
pub open spec fn qualified(address: Text, local: Seq<u8>) -> Text {
    if outside::target_of_address(address) == Some(Some(local)) {
        address
    } else {
        address + "/p2p/"@ + outside::text_of_peer(local)->0
    }
}

/// The address with the identity of the peer behind it. Addresses through a relay end in that
/// already.
pub fn qualified_address(address: String, local: &PeerId) -> (r: String)
    ensures
        r@ == qualified(address@, local@),
{
    let ends: bool = match PeerId::of_address(address.as_str()) {
        Some(Some(peer)) => peer.same(local),
        _ => false,
    };
    if ends {
        return address;
    }
    let mut r: String = address;
    r.append("/p2p/");
    r.append(local.text().as_str());
    r
}

/// Whether the list holds the text.
pub(crate) fn holds(list: &Vec<String>, text: &str) -> (r: bool)
    ensures
        r == list.deep_view().contains(text@),
{
    let ghost view = list.deep_view();
    let mut i: usize = 0;
    while i < list.len()
        invariant
            i <= list@.len(),
            view == list.deep_view(),
            forall|j: int| 0 <= j < i ==> #[trigger] view[j] != text@,
        decreases list.len() - i,
    {
        assert(view[i as int] == list@[i as int]@);
        if same_text(list[i].as_str(), text) {
            return true;
        }
        i = i + 1;
    }
    false
}

/// One more item is all that comes in.
proof fn lemma_one_more(list: Seq<Text>, item: Text)
    ensures
        forall|a: Text| #[trigger] list.push(item).contains(a) <==> list.contains(a) || a == item,
{
    assert forall|a: Text| #[trigger] list.push(item).contains(a) <==> list.contains(a) || a
        == item by {
        if list.contains(a) {
            let i = list.index_of(a);
            assert(list.push(item)[i] == a);
        }
        assert(list.push(item)[list.len() as int] == item);
        if list.push(item).contains(a) && a != item {
            let i = list.push(item).index_of(a);
            assert(list[i] == a);
        }
    }
}

/// Adds an address at which the node listens, where it is not known yet.
pub fn add_address(list: &mut Vec<String>, address: String)
    ensures
        final(list).deep_view() == (if old(list).deep_view().contains(address@) {
            old(list).deep_view()
        } else {
            old(list).deep_view().push(address@)
        }),
        forall|a: Text| #[trigger]
            final(list).deep_view().contains(a) <==> old(list).deep_view().contains(a) || a
                == address@,
{
    if !holds(list, address.as_str()) {
        let ghost before = list.deep_view();
        let ghost a = address@;
        list.push(address);
        assert(list.deep_view() =~= before.push(a));
        proof {
            lemma_one_more(before, a);
        }
    }
}

/// Removes addresses at which the node does not listen any more.
pub fn remove_addresses(list: &mut Vec<String>, expired: &Vec<String>)
    ensures
        final(list).deep_view() == old(list).deep_view().filter(
            |a: Text| !expired.deep_view().contains(a),
        ),
        forall|a: Text| #[trigger]
            final(list).deep_view().contains(a) <==> old(list).deep_view().contains(a)
                && !expired.deep_view().contains(a),
{
    let ghost view = list.deep_view();
    let ghost p = |a: Text| !expired.deep_view().contains(a);
    let mut r: Vec<String> = Vec::new();
    let mut i: usize = 0;
    proof {
        reveal(Seq::filter);
        assert(view.take(0).filter(p) =~= Seq::<Text>::empty());
        assert(r.deep_view() =~= Seq::<Text>::empty());
    }
    while i < list.len()
        invariant
            i <= list@.len(),
            view == list.deep_view(),
            view == old(list).deep_view(),
            p == (|a: Text| !expired.deep_view().contains(a)),
            r.deep_view() == view.take(i as int).filter(p),
        decreases list.len() - i,
    {
        let ghost before = r.deep_view();
        proof {
            reveal(Seq::filter);
            assert(view[i as int] == list@[i as int]@);
            assert(view.take(i + 1).drop_last() =~= view.take(i as int));
            assert(view.take(i + 1).last() == view[i as int]);
        }
        if !holds(expired, list[i].as_str()) {
            assert(p(view[i as int]));
            r.push(list[i].clone());
            assert(r.deep_view() =~= before.push(view[i as int]));
        } else {
            assert(!p(view[i as int]));
        }
        i = i + 1;
    }
    assert(view.take(i as int) =~= view);
    proof {
        assert forall|a: Text| #[trigger] view.filter(p).contains(a) <==> view.contains(a)
            && !expired.deep_view().contains(a) by {
            if view.filter(p).contains(a) {
                let j = view.filter(p).index_of(a);
                view.lemma_filter_pred(p, j);
                view.lemma_filter_contains_rev(p, a);
            }
            if view.contains(a) && p(a) {
                let j = view.index_of(a);
                view.lemma_filter_contains(p, j);
            }
        }
    }
    *list = r;
}

/// The time in seconds of a clock that tells milliseconds.
pub fn seconds(ms: u128) -> (r: u64)
    requires
        ms <= u64::MAX * 1000 + 999,
    ensures
        r == ms / 1000,
        1000 * r <= ms < 1000 * r + 1000,
{
    (ms / 1000) as u64
}

/// A clock that stands before 1970: the error as it is shown to a reader, and in brackets as it
/// is written for a developer.
pub open spec fn clock_fault(shown: Text, written: Text) -> ErrorView {
    ErrorView::Network(shown + " ("@ + written + ")"@)
}

/// The time, in seconds, that is read off a clock that tells milliseconds and may stand before
/// 1970.
pub fn seconds_told(clock: std::result::Result<u128, (String, String)>) -> (r: Result<u64>)
    requires
        clock matches Ok(ms) ==> ms <= u64::MAX * 1000 + 999,
    ensures
        match clock {
            Ok(ms) => r is Ok && r->Ok_0 == ms / 1000,
            Err((shown, written)) => r is Err && r->Err_0@ == clock_fault(shown@, written@),
        },
{
    match clock {
        Ok(ms) => Ok(seconds(ms)),
        Err((shown, written)) => {
            let mut text: String = shown;
            text.append(" (");
            text.append(written.as_str());
            text.append(")");
            Err(Error::Network(text))
        },
    }
}

/// The time now, in seconds since 1970. Nothing is said of what the time is.
pub fn now_seconds() -> (r: Result<u64>)
    ensures
        r matches Err(e) ==> exists|shown: Text, written: Text|
            e@ == #[trigger] clock_fault(shown, written),
{
    seconds_told(outside::clock_millis())
}

} // verus!
