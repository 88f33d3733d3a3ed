//! Whom a node knows: connections that are being made, and searches for services.
use vstd::prelude::*;
use vstd::string::*;

use crate::collections;
use crate::collections::OrdSet;
use crate::error::{Error, ErrorView, Outcome, Result};
use crate::identity::PeerId;
use crate::model::views::Text;
use crate::node;
use crate::order::Duplicate;
use crate::service;
use crate::service::ServiceId;

verus! {

/// How many requests wait at a time.
pub const COMMAND_CAPACITY: usize = 64;

/// How many hosts of a service are told at a time.
pub const MAX_PROVIDERS: usize = 128;

/// How many addresses are taken from a peer that tells its own.
pub const MAX_CLAIMED_ADDRESSES: usize = 16;

/// How many peers are taken from one search of the local network.
pub const MAX_LOCAL_PEERS: usize = 64;

/// The protocol in which nodes search for services.
pub const DISCOVERY_PROTOCOL: &'static str = "/jlucraft/union/kad/1";

/// A request that waits for a connection with a peer.
pub struct Waiting {
    pub peer: PeerId,
    pub ticket: u64,
}

/// What a [`Waiting`] stands for.
pub struct WaitingView {
    pub peer: Seq<u8>,
    pub ticket: u64,
}

impl DeepView for Waiting {
    type V = WaitingView;

    open spec fn deep_view(&self) -> WaitingView {
        WaitingView { peer: self.peer@, ticket: self.ticket }
    }
}

impl View for Waiting {
    type V = WaitingView;

    open spec fn view(&self) -> WaitingView {
        self.deep_view()
    }
}

impl Duplicate for Waiting {
    fn duplicate(&self) -> (r: Self) {
        Waiting { peer: self.peer.duplicate(), ticket: self.ticket }
    }
}

/// What is done about a request for a connection.
#[derive(Clone, Copy, Debug, PartialEq, Eq, Structural)]
pub enum DialStep {
    /// The address does not tell whom it leads to.
    Refuse,
    /// There is a connection.
    Connected,
    /// Too many requests wait.
    Full,
    /// A connection is being made already, and the request waits for it.
    Wait,
    /// A connection is to be made now.
    Dial,
}

/// Some request waits for the peer.
pub open spec fn awaited(list: Seq<WaitingView>, peer: Seq<u8>) -> bool {
    exists|i: int| 0 <= i < list.len() && (#[trigger] list[i]).peer == peer
}

/// What is done about a request for a connection with the target.
pub open spec fn dial_step(list: Seq<WaitingView>, target: Option<Seq<u8>>, connected: bool) -> DialStep {
    match target {
        None => DialStep::Refuse,
        Some(peer) => if connected {
            DialStep::Connected
        } else if list.len() >= COMMAND_CAPACITY {
            DialStep::Full
        } else if awaited(list, peer) {
            DialStep::Wait
        } else {
            DialStep::Dial
        },
    }
}

/// What the request is answered that is not made to wait.
pub open spec fn dial_answer(step: DialStep) -> Option<Outcome<()>> {
    match step {
        DialStep::Refuse => Some(Err(ErrorView::Protocol("dial address must end with /p2p/PEER"@))),
        DialStep::Connected => Some(Ok(())),
        DialStep::Full => Some(Err(ErrorView::Capacity)),
        DialStep::Wait => None,
        DialStep::Dial => None,
    }
}

impl DialStep {
    /// What the request is answered that is not made to wait.
    pub fn answer(self) -> (r: Option<Result<()>>)
        ensures
            match dial_answer(self) {
                None => r is None,
                Some(Ok(_)) => r is Some && r->0 is Ok,
                Some(Err(e)) => r is Some && r->0 is Err && r->0->Err_0@ == e,
            },
    {
        match self {
            DialStep::Refuse => Some(
                Err(Error::Protocol("dial address must end with /p2p/PEER".to_owned())),
            ),
            DialStep::Connected => Some(Ok(())),
            DialStep::Full => Some(Err(Error::Capacity)),
            DialStep::Wait => None,
            DialStep::Dial => None,
        }
    }
}

/// The requests that wait for connections, in the order in which they came.
pub struct Dials {
    waiting: Vec<Waiting>,
}

impl View for Dials {
    type V = Seq<WaitingView>;

    closed spec fn view(&self) -> Seq<WaitingView> {
        self.waiting.deep_view()
    }
}

/// The tickets of the requests that wait for the peer.
pub open spec fn tickets_for(list: Seq<WaitingView>, peer: Seq<u8>) -> Seq<u64> {
    list.filter(|w: WaitingView| w.peer == peer).map_values(|w: WaitingView| w.ticket)
}

/// The requests that wait for other peers.
pub open spec fn waiting_for_others(list: Seq<WaitingView>, peer: Seq<u8>) -> Seq<WaitingView> {
    list.filter(|w: WaitingView| w.peer != peer)
}

impl Dials {
    #[verifier::type_invariant]
    closed spec fn bounded(&self) -> bool {
        self.waiting@.len() <= COMMAND_CAPACITY
    }

    /// No request waits.
    pub fn new() -> (r: Self)
        ensures
            r@ == Seq::<WaitingView>::empty(),
    {
        let r = Dials { waiting: Vec::new() };
        assert(r@ =~= Seq::<WaitingView>::empty());
        r
    }

    /// How many requests wait; never more than there is room for.
    pub fn len(&self) -> (r: usize)
        ensures
            r == self@.len(),
            r <= COMMAND_CAPACITY,
    {
        proof {
            use_type_invariant(self);
        }
        self.waiting.len()
    }

    fn awaits(&self, peer: &PeerId) -> (r: bool)
        ensures
            r == awaited(self@, peer@),
    {
        let ghost view = self@;
        let mut i: usize = 0;
        while i < self.waiting.len()
            invariant
                i <= self.waiting@.len(),
                view == self@,
                view.len() == self.waiting@.len(),
                forall|j: int| 0 <= j < i ==> (#[trigger] view[j]).peer != peer@,
            decreases self.waiting.len() - i,
        {
            assert(view[i as int] == self.waiting@[i as int].deep_view());
            if self.waiting[i].peer.same(peer) {
                return true;
            }
            i = i + 1;
        }
        false
    }

    /// What is done about a request for a connection. `connected` tells whether there is one.
    pub fn ask(&self, target: Option<&PeerId>, connected: bool) -> (r: DialStep)
        ensures
            r == dial_step(
                self@,
                match target {
                    Some(peer) => Some(peer@),
                    None => None,
                },
                connected,
            ),
    {
        match target {
            None => DialStep::Refuse,
            Some(peer) => if connected {
                DialStep::Connected
            } else if self.len() >= COMMAND_CAPACITY {
                DialStep::Full
            } else if self.awaits(peer) {
                DialStep::Wait
            } else {
                DialStep::Dial
            },
        }
    }

    /// Lets a request wait for a connection that is being made.
    pub fn wait(&mut self, peer: PeerId, ticket: u64)
        requires
            old(self)@.len() < COMMAND_CAPACITY,
        ensures
            final(self)@ == old(self)@.push(WaitingView { peer: peer@, ticket }),
    {
        proof {
            use_type_invariant(&*self);
        }
        let mut waiting: Vec<Waiting> = Vec::new();
        std::mem::swap(&mut waiting, &mut self.waiting);
        let ghost before = waiting.deep_view();
        let ghost w = WaitingView { peer: peer@, ticket };
        waiting.push(Waiting { peer, ticket });
        assert(waiting.deep_view() =~= before.push(w));
        self.waiting = waiting;
    }

    /// Takes out the requests that wait for the peer, now that there is a connection or none can
    /// be made.
    pub fn resolve(&mut self, peer: &PeerId) -> (r: Vec<u64>)
        ensures
            r@ == tickets_for(old(self)@, peer@),
            final(self)@ == waiting_for_others(old(self)@, peer@),
    {
        proof {
            use_type_invariant(&*self);
        }
        let ghost view = self@;
        let ghost here = |w: WaitingView| w.peer == peer@;
        let ghost there = |w: WaitingView| w.peer != peer@;
        let ghost ticket = |w: WaitingView| w.ticket;
        let mut tickets: Vec<u64> = Vec::new();
        let mut rest: Vec<Waiting> = Vec::new();
        let mut i: usize = 0;
        proof {
            reveal(Seq::filter);
            assert(view.take(0).filter(here) =~= Seq::<WaitingView>::empty());
            assert(view.take(0).filter(there) =~= Seq::<WaitingView>::empty());
            assert(view.take(0).filter(here).map_values(ticket) =~= Seq::<u64>::empty());
            assert(rest.deep_view() =~= Seq::<WaitingView>::empty());
        }
        while i < self.waiting.len()
            invariant
                i <= self.waiting@.len(),
                view == self@,
                *self == *old(self),
                view.len() == self.waiting@.len(),
                view.len() <= COMMAND_CAPACITY,
                here == (|w: WaitingView| w.peer == peer@),
                there == (|w: WaitingView| w.peer != peer@),
                ticket == (|w: WaitingView| w.ticket),
                tickets@ == view.take(i as int).filter(here).map_values(ticket),
                rest.deep_view() == view.take(i as int).filter(there),
                rest@.len() <= i,
            decreases self.waiting.len() - i,
        {
            let ghost w = view[i as int];
            proof {
                reveal(Seq::filter);
                assert(w == self.waiting@[i as int].deep_view());
                assert(view.take(i + 1).drop_last() =~= view.take(i as int));
                assert(view.take(i + 1).last() == w);
            }
            if self.waiting[i].peer.same(peer) {
                assert(here(w) && !there(w));
                tickets.push(self.waiting[i].ticket);
                assert(view.take(i as int).filter(here).push(w).map_values(ticket)
                    =~= view.take(i as int).filter(here).map_values(ticket).push(ticket(w)));
            } else {
                assert(!here(w) && there(w));
                let ghost before = rest.deep_view();
                rest.push(self.waiting[i].duplicate());
                assert(rest.deep_view() =~= before.push(w));
            }
            i = i + 1;
        }
        assert(view.take(i as int) =~= view);
        self.waiting = rest;
        tickets
    }

    /// Drops the requests that nobody waits for any more.
    pub fn prune(&mut self, closed: &OrdSet<u64>)
        ensures
            final(self)@ == old(self)@.filter(|w: WaitingView| !closed@.contains(w.ticket)),
    {
        proof {
            use_type_invariant(&*self);
        }
        let ghost view = self@;
        let ghost open = |w: WaitingView| !closed@.contains(w.ticket);
        let mut rest: Vec<Waiting> = Vec::new();
        let mut i: usize = 0;
        proof {
            reveal(Seq::filter);
            assert(view.take(0).filter(open) =~= Seq::<WaitingView>::empty());
            assert(rest.deep_view() =~= Seq::<WaitingView>::empty());
        }
        while i < self.waiting.len()
            invariant
                i <= self.waiting@.len(),
                view == self@,
                *self == *old(self),
                view.len() == self.waiting@.len(),
                view.len() <= COMMAND_CAPACITY,
                open == (|w: WaitingView| !closed@.contains(w.ticket)),
                rest.deep_view() == view.take(i as int).filter(open),
                rest@.len() <= i,
            decreases self.waiting.len() - i,
        {
            let ghost w = view[i as int];
            proof {
                reveal(Seq::filter);
                assert(w == self.waiting@[i as int].deep_view());
                assert(view.take(i + 1).drop_last() =~= view.take(i as int));
                assert(view.take(i + 1).last() == w);
            }
            if !closed.contains(&self.waiting[i].ticket) {
                assert(open(w));
                let ghost before = rest.deep_view();
                rest.push(self.waiting[i].duplicate());
                assert(rest.deep_view() =~= before.push(w));
            } else {
                assert(!open(w));
            }
            i = i + 1;
        }
        assert(view.take(i as int) =~= view);
        self.waiting = rest;
    }
}

/// Refuses one more search while too many are under way.
pub fn check_search(count: usize) -> (r: Result<()>)
    ensures
        count < COMMAND_CAPACITY ==> r is Ok,
        count >= COMMAND_CAPACITY ==> r is Err && r->Err_0@ == ErrorView::Capacity,
{
    if count >= COMMAND_CAPACITY {
        Err(Error::Capacity)
    } else {
        Ok(())
    }
}

/// The hosts that are known, with as many of those just found as there is room for.
pub open spec fn with_found(known: Set<Seq<u8>>, found: Seq<Seq<u8>>) -> Set<Seq<u8>> {
    let room = if known.len() >= MAX_PROVIDERS {
        0int
    } else {
        MAX_PROVIDERS - known.len()
    };
    known.union(
        found.take(
            if found.len() <= room {
                found.len() as int
            } else {
                room
            },
        ).to_set(),
    )
}

/// Takes note of hosts that a search has found. Never more are kept than are told at a time.
pub fn collect(known: &mut OrdSet<PeerId>, found: &Vec<PeerId>)
    ensures
        final(known)@ == with_found(old(known)@, found.deep_view()),
        old(known)@.len() <= MAX_PROVIDERS ==> final(known)@.len() <= MAX_PROVIDERS,
{
    let n: usize = known.len();
    let room: usize = if n >= MAX_PROVIDERS {
        0
    } else {
        MAX_PROVIDERS - n
    };
    let count: usize = if found.len() <= room {
        found.len()
    } else {
        room
    };
    let ghost start = known@;
    let ghost view = found.deep_view();
    let mut i: usize = 0;
    assert(view.take(0).to_set() =~= Set::<Seq<u8>>::empty());
    assert(start.union(view.take(0).to_set()) =~= start);
    while i < count
        invariant
            i <= count,
            count <= found@.len(),
            view == found.deep_view(),
            start == old(known)@,
            known@ == start.union(view.take(i as int).to_set()),
            known@.finite(),
            known@.len() <= start.len() + i,
        decreases count - i,
    {
        let peer: PeerId = found[i].duplicate();
        let ghost before = known@;
        proof {
            assert(view[i as int] == found@[i as int].deep_view());
            assert(view.take(i + 1) =~= view.take(i as int).push(view[i as int]));
            assert(view.take(i + 1).to_set() =~= view.take(i as int).to_set().insert(
                view[i as int],
            )) by {
                let a = view.take(i as int);
                let x = view[i as int];
                assert forall|y: Seq<u8>| #[trigger] a.push(x).to_set().contains(y) <==> a.to_set().insert(
                    x,
                ).contains(y) by {
                    if a.contains(y) {
                        let j = a.index_of(y);
                        assert(a.push(x)[j] == y);
                    }
                    assert(a.push(x)[a.len() as int] == x);
                    if a.push(x).contains(y) {
                        let j = a.push(x).index_of(y);
                        if j < a.len() {
                            assert(a[j] == y);
                        }
                    }
                }
            }
        }
        known.insert(peer);
        assert(known@ =~= before.insert(view[i as int]));
        i = i + 1;
        assert(known@ =~= start.union(view.take(i as int).to_set()));
    }
}

/// The result of a search: the hosts in order, or an error where it failed with none found.
pub open spec fn search_result(failed: bool, known: Set<Seq<u8>>) -> Outcome<Seq<Seq<u8>>> {
    if failed && known.len() == 0 {
        Err(ErrorView::Timeout)
    } else {
        Ok(collections::items_of::<PeerId>(known))
    }
}

/// The result of a search. That a peer says it hosts a service gives it no authority.
pub fn conclude(failed: bool, known: &OrdSet<PeerId>) -> (r: Result<Vec<PeerId>>)
    ensures
        match search_result(failed, known@) {
            Ok(list) => r is Ok && r->Ok_0.deep_view() == list,
            Err(e) => r is Err && r->Err_0@ == e,
        },
{
    if failed && known.is_empty() {
        return Err(Error::Timeout);
    }
    Ok(known.item_list())
}

/// Under what name a service is searched for.
pub open spec fn search_key(id: ServiceId) -> Text {
    "jlucraft/service/"@ + service::uuid_text(id.number)
}

/// Under what name a service is searched for.
pub fn provider_key(id: ServiceId) -> (r: String)
    ensures
        r@ == search_key(id),
{
    let mut r: String = "jlucraft/service/".to_owned();
    r.append(id.text().as_str());
    r
}

/// Whether a peer that speaks the given protocols answers searches.
pub fn answers_searches(protocols: &Vec<String>) -> (r: bool)
    ensures
        r == protocols.deep_view().contains(DISCOVERY_PROTOCOL@),
{
    node::holds(protocols, DISCOVERY_PROTOCOL)
}

/// Every request is answered once: taking out those that wait for a peer leaves none of them
/// behind, takes no other, and loses none.
pub proof fn law_requests_are_answered_once(list: Seq<WaitingView>, peer: Seq<u8>)
    ensures
        !awaited(waiting_for_others(list, peer), peer),
        tickets_for(list, peer).len() + waiting_for_others(list, peer).len() == list.len(),
        forall|i: int|
            0 <= i < list.len() ==> (if (#[trigger] list[i]).peer == peer {
                tickets_for(list, peer).contains(list[i].ticket)
            } else {
                waiting_for_others(list, peer).contains(list[i])
            }),
    decreases list.len(),
{
    let here = |w: WaitingView| w.peer == peer;
    let there = |w: WaitingView| w.peer != peer;
    let ticket = |w: WaitingView| w.ticket;
    reveal(Seq::filter);
    if list.len() > 0 {
        let t = list.drop_last();
        let w = list.last();
        law_requests_are_answered_once(t, peer);
        let tickets = tickets_for(list, peer);
        let rest = waiting_for_others(list, peer);
        let f = t.filter(here);
        if here(w) {
            assert(list.filter(here) == f.push(w));
            assert(tickets =~= tickets_for(t, peer).push(w.ticket));
            assert(rest == waiting_for_others(t, peer));
            assert(tickets[tickets.len() - 1] == w.ticket);
        } else {
            assert(there(w));
            assert(tickets == tickets_for(t, peer));
            assert(rest == waiting_for_others(t, peer).push(w));
            assert(rest[rest.len() - 1] == w);
        }
        assert forall|i: int| 0 <= i < list.len() implies (if (#[trigger] list[i]).peer == peer {
            tickets.contains(list[i].ticket)
        } else {
            rest.contains(list[i])
        }) by {
            if i < t.len() {
                assert(t[i] == list[i]);
                if list[i].peer == peer {
                    let j = tickets_for(t, peer).index_of(list[i].ticket);
                    assert(tickets[j] == list[i].ticket);
                } else {
                    let j = waiting_for_others(t, peer).index_of(list[i]);
                    assert(rest[j] == list[i]);
                }
            }
        }
        assert(!awaited(rest, peer)) by {
            let before = waiting_for_others(t, peer);
            assert forall|i: int| 0 <= i < rest.len() implies (#[trigger] rest[i]).peer != peer by {
                if i < before.len() {
                    assert(rest[i] == before[i]);
                }
            }
        }
    }
}

} // verus!
