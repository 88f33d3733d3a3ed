//! Consensus on commands among voters, over authenticated streams. It withstands voters that
//! stop, not voters that lie.
use vstd::prelude::*;
use vstd::string::*;

use crate::collections;
use crate::collections::{OrdMap, OrdSet};
use crate::error;
use crate::error::{Error, ErrorView, Outcome, Result};
use crate::governance::{validate_consensus_members, ConsensusPeer, State};
use crate::identity::PeerId;
use crate::journal;
use crate::journal::{Command, CommandView, SignedCommand, SignedCommandView};
use crate::model::rules;
use crate::model::views::{ConsensusPeerView, StateView, Text};
use crate::order::{same_text, Duplicate};
use crate::outside;

pub mod network;
pub mod store;

verus! {

/// A voter.
pub type Peer = ConsensusPeer;

/// A signed command as it is given to all voters, with the time at which it is carried out.
#[derive(Debug, PartialEq, Eq)]
pub struct Replicated {
    pub cluster: String,
    pub command: SignedCommand,
    pub time_ms: u64,
}

/// What a [`Replicated`] stands for.
#[verifier::ext_equal]
pub struct ReplicatedView {
    pub cluster: Text,
    pub command: SignedCommandView,
    pub time_ms: u64,
}

impl DeepView for Replicated {
    type V = ReplicatedView;

    open spec fn deep_view(&self) -> ReplicatedView {
        ReplicatedView {
            cluster: self.cluster@,
            command: self.command.deep_view(),
            time_ms: self.time_ms,
        }
    }
}

impl View for Replicated {
    type V = ReplicatedView;

    open spec fn view(&self) -> ReplicatedView {
        self.deep_view()
    }
}

impl Duplicate for Replicated {
    fn duplicate(&self) -> (r: Self) {
        Replicated {
            cluster: self.cluster.clone(),
            command: self.command.duplicate(),
            time_ms: self.time_ms,
        }
    }
}

impl Clone for Replicated {
    fn clone(&self) -> (r: Self)
        ensures
            r@ == self@,
    {
        self.duplicate()
    }
}


/// What became of an entry of the log.
#[derive(Debug, PartialEq, Eq)]
pub struct Applied {
    pub revision: u64,
    pub error: Option<String>,
}

/// What a [`Applied`] stands for.
#[verifier::ext_equal]
pub struct AppliedView {
    pub revision: u64,
    pub error: Option<Text>,
}

impl DeepView for Applied {
    type V = AppliedView;

    open spec fn deep_view(&self) -> AppliedView {
        AppliedView {
            revision: self.revision,
            error: self.error.deep_view(),
        }
    }
}

impl View for Applied {
    type V = AppliedView;

    open spec fn view(&self) -> AppliedView {
        self.deep_view()
    }
}

impl Duplicate for Applied {
    fn duplicate(&self) -> (r: Self) {
        Applied {
            revision: self.revision,
            error: self.error.duplicate(),
        }
    }
}

impl Clone for Applied {
    fn clone(&self) -> (r: Self)
        ensures
            r@ == self@,
    {
        self.duplicate()
    }
}


/// A voter of a cluster. `cluster` is the digest of the first state.
pub struct Cluster {
    pub id: u64,
    pub peers: OrdMap<u64, Peer>,
    pub cluster: String,
}

/// Why a voter may not start: the voters are not valid, the number is none, or it is that of
/// another peer.
pub open spec fn start_fault(id: u64, peers: Map<u64, ConsensusPeerView>, local: Text) -> Option<
    ErrorView,
> {
    if rules::voters_fault(peers) is Some {
        rules::voters_fault(peers)
    } else if id == 0 || (peers.contains_key(id) && peers[id].peer != local) {
        Some(ErrorView::Denied)
    } else {
        None
    }
}

/// The first state of a cluster: one that nothing has happened in, with the given voters.
pub open spec fn cluster_genesis(s: StateView, peers: Map<u64, ConsensusPeerView>) -> Outcome<
    StateView,
> {
    if rules::voters_fault(peers) is Some {
        Err(rules::voters_fault(peers)->0)
    } else if s.revision != 0 || (s.consensus_members != Map::<u64, ConsensusPeerView>::empty()
        && s.consensus_members != peers) {
        Err(ErrorView::Denied)
    } else {
        Ok(StateView { consensus_members: peers, ..s })
    }
}

/// The leader, where it is another voter.
pub open spec fn other_leader(
    own: u64,
    leader: Option<u64>,
    nodes: Map<u64, ConsensusPeerView>,
) -> Option<(u64, ConsensusPeerView)> {
    match leader {
        Some(id) => if id != own && nodes.contains_key(id) {
            Some((id, nodes[id]))
        } else {
            None
        },
        None => None,
    }
}

/// The peer has the given number among the voters.
pub open spec fn is_voter(id: u64, peer: Text, nodes: Map<u64, ConsensusPeerView>) -> bool {
    nodes.contains_key(id) && nodes[id].peer == peer
}

/// The command, where the peer that sends it has signed it.
pub open spec fn accepted_command(
    c: SignedCommandView,
    decoded: std::result::Result<CommandView, Text>,
    actor: Text,
) -> Outcome<CommandView> {
    match journal::opened(c, decoded) {
        Err(e) => Err(e),
        Ok(pair) => if pair.0 != actor {
            Err(ErrorView::Denied)
        } else {
            Ok(pair.1)
        },
    }
}

/// The state that a command would lead to now.
pub open spec fn foreseen(s: StateView, actor: Text, command: CommandView, now: u64) -> Outcome<
    StateView,
> {
    if command.expires_ms < now {
        Err(ErrorView::Denied)
    } else {
        rules::apply(s, actor, command.revision, now, command.action)
    }
}

/// The state, for one who may see it.
pub open spec fn visible_state(s: StateView, actor: Text) -> Outcome<StateView> {
    if rules::can_read(s, actor) {
        Ok(s)
    } else {
        Err(ErrorView::Denied)
    }
}

/// The state, for one who may see it.
pub fn read_state(state: &State, actor: &str) -> (r: Result<State>)
    ensures
        error::outcome(r) == visible_state(state@, actor@),
{
    if !state.can_read(actor) {
        return Err(Error::Denied);
    }
    Ok(state.duplicate())
}

/// The voters are those that the federation has chosen.
pub open spec fn is_settled(
    voters: Set<u64>,
    nodes: Map<u64, ConsensusPeerView>,
    desired: Map<u64, ConsensusPeerView>,
) -> bool {
    &&& voters == desired.dom()
    &&& forall|id: u64| #[trigger] desired.contains_key(id) ==> !is_new(nodes, desired, id)
}

/// The voter is not known yet, or is known under other addresses.
pub open spec fn is_new(
    nodes: Map<u64, ConsensusPeerView>,
    desired: Map<u64, ConsensusPeerView>,
    id: u64,
) -> bool {
    !nodes.contains_key(id) || nodes[id] != desired[id]
}

/// The voters that have to be made known first, in ascending order.
pub open spec fn newcomers(
    nodes: Map<u64, ConsensusPeerView>,
    desired: Map<u64, ConsensusPeerView>,
) -> Seq<u64> {
    collections::keys_of::<u64, ConsensusPeerView>(desired).filter(
        |id: u64| is_new(nodes, desired, id),
    )
}

/// How the voters become those that the federation has chosen: these are made known first, and
/// then those vote.
pub struct Plan {
    pub learners: Vec<u64>,
    pub voters: OrdSet<u64>,
}

/// Whether two voters are the same, with the same addresses.
fn same_peer(a: &Peer, b: &Peer) -> (r: bool)
    ensures
        r == (a@ == b@),
{
    if !same_text(a.peer.as_str(), b.peer.as_str()) || a.addresses.len() != b.addresses.len() {
        assert(a.addresses.deep_view().len() == a.addresses@.len());
        assert(b.addresses.deep_view().len() == b.addresses@.len());
        return false;
    }
    let ghost x = a.addresses.deep_view();
    let ghost y = b.addresses.deep_view();
    let mut i: usize = 0;
    while i < a.addresses.len()
        invariant
            i <= a.addresses@.len(),
            a.addresses@.len() == b.addresses@.len(),
            x == a.addresses.deep_view(),
            y == b.addresses.deep_view(),
            a@.addresses == x,
            b@.addresses == y,
            forall|j: int| 0 <= j < i ==> #[trigger] x[j] == y[j],
        decreases a.addresses.len() - i,
    {
        assert(x[i as int] == a.addresses@[i as int]@);
        assert(y[i as int] == b.addresses@[i as int]@);
        if !same_text(a.addresses[i].as_str(), b.addresses[i].as_str()) {
            return false;
        }
        i = i + 1;
    }
    assert(x =~= y);
    true
}

/// Whether two sets of voters are the same, each with the same addresses.
fn same_peers(a: &OrdMap<u64, Peer>, b: &OrdMap<u64, Peer>) -> (r: bool)
    ensures
        r == (a@ == b@),
{
    let n: usize = a.len();
    let m: usize = b.len();
    if n != m {
        return false;
    }
    let ghost keys = a.keys();
    let mut i: usize = 0;
    while i < n
        invariant
            i <= n,
            n == keys.len(),
            n == a@.len(),
            keys == a.keys(),
            collections::lists::<u64, ConsensusPeerView>(a@, keys),
            forall|j: int|
                0 <= j < i ==> b@.contains_key(#[trigger] keys[j]) && b@[keys[j]] == a@[keys[j]],
        decreases n - i,
    {
        assert(a@.dom().contains(keys[i as int]));
        match b.get(a.key(i)) {
            Some(peer) => {
                if !same_peer(a.value(i), peer) {
                    return false;
                }
            },
            None => {
                return false;
            },
        }
        i = i + 1;
    }
    proof {
        assert forall|id: u64| #[trigger] a@.dom().contains(id) implies b@.dom().contains(id)
            && b@[id] == a@[id] by {
            let j = keys.index_of(id);
            assert(keys[j] == id);
        }
        assert(a@.dom().subset_of(b@.dom()));
        vstd::set_lib::lemma_subset_equality(a@.dom(), b@.dom());
        assert(a@ =~= b@);
    }
    true
}

/// Whether a voter is not known yet, or is known under other addresses.
fn unknown(nodes: &OrdMap<u64, Peer>, id: u64, peer: &Peer) -> (r: bool)
    ensures
        r == (!nodes@.contains_key(id) || nodes@[id] != peer@),
{
    match nodes.get(&id) {
        Some(known) => !same_peer(known, peer),
        None => true,
    }
}

impl Cluster {
    /// Refuses to start a voter under the number of another peer.
    pub fn check_start(id: u64, peers: &OrdMap<u64, Peer>, local: &PeerId) -> (r: Result<()>)
        ensures
            match start_fault(id, peers@, outside::text_of_peer(local@)->0) {
                None => r is Ok,
                Some(e) => r is Err && r->Err_0@ == e,
            },
    {
        match validate_consensus_members(peers) {
            Ok(_) => {},
            Err(e) => {
                return Err(e);
            },
        }
        if id == 0 {
            return Err(Error::Denied);
        }
        match peers.get(&id) {
            Some(peer) => {
                let own = local.text();
                if !same_text(peer.peer.as_str(), own.as_str()) {
                    return Err(Error::Denied);
                }
            },
            None => {},
        }
        Ok(())
    }

    /// The first state of a cluster with the given voters.
    pub fn genesis(state: State, peers: &OrdMap<u64, Peer>) -> (r: Result<State>)
        ensures
            error::outcome(r) == cluster_genesis(state@, peers@),
            rules::well_formed(state@) && r is Ok ==> rules::well_formed(r->Ok_0@),
    {
        match validate_consensus_members(peers) {
            Ok(_) => {},
            Err(e) => {
                return Err(e);
            },
        }
        if state.revision != 0 || (!state.consensus_members.is_empty() && !same_peers(
            &state.consensus_members,
            peers,
        )) {
            return Err(Error::Denied);
        }
        let mut state = state;
        state.consensus_members = peers.duplicate();
        Ok(state)
    }

    /// The command, where the peer that sends it has signed it. `decoded` is what its payload
    /// holds.
    pub fn accept_command(
        command: &SignedCommand,
        decoded: std::result::Result<Command, String>,
        actor: &str,
    ) -> (r: Result<Command>)
        ensures
            error::outcome(r) == accepted_command(command@, journal::decoding(decoded), actor@),
    {
        match command.verify(decoded) {
            Ok((signer, body)) => {
                if !same_text(signer.as_str(), actor) {
                    return Err(Error::Denied);
                }
                Ok(body)
            },
            Err(e) => Err(e),
        }
    }

    /// Refuses a command before it is given to the voters, where the state as it is known would
    /// refuse it.
    pub fn preflight(state: &State, actor: &str, command: Command, now: u64) -> (r: Result<()>)
        requires
            rules::well_formed(state@),
        ensures
            match foreseen(state@, actor@, command@, now) {
                Ok(_) => r is Ok,
                Err(e) => r is Err && r->Err_0@ == e,
            },
    {
        if command.expires_ms < now {
            return Err(Error::Denied);
        }
        let mut next: State = state.duplicate();
        next.apply(actor, command.revision, now, command.action)
    }

    /// What the voters are given for a command.
    pub fn replicate(&self, command: SignedCommand, now: u64) -> (r: Replicated)
        ensures
            r@ == (ReplicatedView {
                cluster: self.cluster@,
                command: command@,
                time_ms: now,
            }),
    {
        Replicated { cluster: self.cluster.clone(), command, time_ms: now }
    }

    /// The leader, where it is another voter.
    pub fn remote_leader(&self, leader: Option<u64>, nodes: &OrdMap<u64, Peer>) -> (r: Option<
        (u64, Peer),
    >)
        ensures
            match other_leader(self.id, leader, nodes@) {
                Some(pair) => r is Some && (r->0).0 == pair.0 && (r->0).1@ == pair.1,
                None => r is None,
            },
    {
        match leader {
            Some(id) => {
                if id == self.id {
                    return None;
                }
                match nodes.get(&id) {
                    Some(peer) => Some((id, peer.duplicate())),
                    None => None,
                }
            },
            None => None,
        }
    }

    /// Whether a peer may speak as the voter with the given number. Those that vote now may
    /// until the others have agreed that they are removed, and those that the federation has
    /// chosen may already.
    pub fn accepts(
        id: u64,
        peer: &str,
        nodes: &OrdMap<u64, Peer>,
        members: &OrdMap<u64, Peer>,
    ) -> (r: bool)
        ensures
            r == (is_voter(id, peer@, nodes@) || is_voter(id, peer@, members@)),
            r <==> (nodes@.contains_key(id) && nodes@[id].peer == peer@) || (members@.contains_key(
                id,
            ) && members@[id].peer == peer@),
    {
        match nodes.get(&id) {
            Some(known) => {
                if same_text(known.peer.as_str(), peer) {
                    return true;
                }
            },
            None => {},
        }
        match members.get(&id) {
            Some(known) => same_text(known.peer.as_str(), peer),
            None => false,
        }
    }

    /// What the leader has to do so that the voters become those that the federation has chosen.
    pub fn plan(
        &self,
        leader: Option<u64>,
        voters: &OrdSet<u64>,
        nodes: &OrdMap<u64, Peer>,
        desired: &OrdMap<u64, Peer>,
    ) -> (r: Option<Plan>)
        ensures
            r is None <==> leader != Some(self.id) || is_settled(voters@, nodes@, desired@),
            r matches Some(plan) ==> plan.learners@ == newcomers(nodes@, desired@)
                && plan.voters@ == desired@.dom(),
            r matches Some(plan) ==> forall|id: u64| #[trigger]
                plan.voters@.contains(id) <==> desired@.contains_key(id),
    {
        match leader {
            Some(id) => {
                if id != self.id {
                    return None;
                }
            },
            None => {
                return None;
            },
        }
        let ghost keys = desired.keys();
        let ghost p = |id: u64| is_new(nodes@, desired@, id);
        let n: usize = desired.len();
        let mut learners: Vec<u64> = Vec::new();
        let mut chosen: OrdSet<u64> = OrdSet::new();
        let mut same: bool = true;
        let mut i: usize = 0;
        proof {
            collections::lemma_items_of::<u64>(desired@.dom(), keys);
            reveal(Seq::filter);
            assert(keys.take(0).filter(p) =~= Seq::<u64>::empty());
        }
        while i < n
            invariant
                i <= n,
                n == keys.len(),
                keys == desired.keys(),
                collections::lists::<u64, ConsensusPeerView>(desired@, keys),
                p == (|id: u64| is_new(nodes@, desired@, id)),
                learners@ == keys.take(i as int).filter(p),
                forall|id: u64| #[trigger]
                    chosen@.contains(id) <==> collections::among(keys, i as int, id),
                same == (forall|j: int| 0 <= j < i ==> voters@.contains(#[trigger] keys[j])),
            decreases n - i,
        {
            let id: u64 = *desired.key(i);
            proof {
                reveal(Seq::filter);
                assert(keys.take(i + 1).drop_last() =~= keys.take(i as int));
                assert(keys.take(i + 1).last() == keys[i as int]);
                collections::lemma_among_next(keys, i as int);
            }
            if unknown(nodes, id, desired.value(i)) {
                assert(p(id));
                learners.push(id);
            } else {
                assert(!p(id));
            }
            if !voters.contains(&id) {
                same = false;
                assert(!voters@.contains(keys[i as int]));
            }
            let ghost before = chosen@;
            chosen.insert(id);
            assert(chosen@ == before.insert(id));
            i = i + 1;
        }
        let count: usize = voters.len();
        proof {
            collections::lemma_among_all::<u64>(desired@.dom(), keys);
            assert(keys.take(n as int) =~= keys);
            assert(chosen@ =~= desired@.dom());
            lemma_settled(voters@, nodes@, desired@, keys);
        }
        if learners.len() == 0 && same && count == n {
            return None;
        }
        Some(Plan { learners, voters: chosen })
    }
}

/// When the voters are those that the federation has chosen.
proof fn lemma_settled(
    voters: Set<u64>,
    nodes: Map<u64, ConsensusPeerView>,
    desired: Map<u64, ConsensusPeerView>,
    keys: Seq<u64>,
)
    requires
        voters.finite(),
        desired.dom().finite(),
        collections::lists::<u64, ConsensusPeerView>(desired, keys),
    ensures
        is_settled(voters, nodes, desired) <==> newcomers(nodes, desired).len() == 0
            && voters.len() == keys.len() && (forall|j: int|
            0 <= j < keys.len() ==> voters.contains(#[trigger] keys[j])),
{
    let p = |id: u64| is_new(nodes, desired, id);
    collections::lemma_items_of::<u64>(desired.dom(), keys);
    lemma_filter(keys, p);
    assert(desired.dom() =~= keys.to_set()) by {
        assert forall|id: u64| desired.dom().contains(id) <==> keys.contains(id) by {}
    }
    assert(keys.no_duplicates()) by {
        assert forall|i: int, j: int| 0 <= i < keys.len() && 0 <= j < keys.len() && i
            != j implies keys[i] != keys[j] by {
            if i < j {
                assert(<u64 as crate::order::Key>::before(keys[i], keys[j]));
            } else {
                assert(<u64 as crate::order::Key>::before(keys[j], keys[i]));
            }
        }
    }
    keys.unique_seq_to_set();
    if is_settled(voters, nodes, desired) {
        assert forall|j: int| 0 <= j < keys.len() implies voters.contains(#[trigger] keys[j]) by {
            assert(desired.dom().contains(keys[j]));
        }
        if newcomers(nodes, desired).len() > 0 {
            let id = keys.filter(p)[0];
            assert(keys.filter(p).contains(id));
            assert(desired.contains_key(id));
        }
    }
    if newcomers(nodes, desired).len() == 0 && voters.len() == keys.len() && (forall|j: int|
        0 <= j < keys.len() ==> voters.contains(#[trigger] keys[j])) {
        assert(desired.dom().subset_of(voters)) by {
            assert forall|id: u64| desired.dom().contains(id) implies voters.contains(id) by {
                let j = keys.index_of(id);
                assert(keys[j] == id);
            }
        }
        vstd::set_lib::lemma_subset_equality(desired.dom(), voters);
        assert forall|id: u64| #[trigger] desired.contains_key(id) implies !is_new(
            nodes,
            desired,
            id,
        ) by {
            assert(desired.dom().contains(id));
            if is_new(nodes, desired, id) {
                assert(keys.filter(p).contains(id));
            }
        }
    }
}

/// What a filtered list holds.
proof fn lemma_filter(s: Seq<u64>, p: spec_fn(u64) -> bool)
    ensures
        forall|x: u64| #[trigger] s.filter(p).contains(x) <==> s.contains(x) && p(x),
    decreases s.len(),
{
    reveal(Seq::filter);
    if s.len() > 0 {
        let t = s.drop_last();
        lemma_filter(t, p);
        assert forall|x: u64| #[trigger] s.filter(p).contains(x) <==> s.contains(x) && p(x) by {
            assert(s =~= t.push(s.last()));
            if t.contains(x) {
                let j = t.index_of(x);
                assert(s[j] == x);
            }
            if s.contains(x) {
                let j = s.index_of(x);
                if j < t.len() {
                    assert(t[j] == x);
                }
            }
            if p(s.last()) {
                let f = t.filter(p);
                assert(s.filter(p) == f.push(s.last()));
                if f.contains(x) {
                    let j = f.index_of(x);
                    assert(s.filter(p)[j] == x);
                }
                if x == s.last() {
                    assert(s.filter(p)[f.len() as int] == x);
                }
                if s.filter(p).contains(x) {
                    let j = s.filter(p).index_of(x);
                    if j < f.len() {
                        assert(f[j] == x);
                    }
                }
            }
        }
    }
}

/// A plan leads where it should: once its newcomers are known and its voters vote, nothing is
/// left to do.
pub proof fn law_plans_settle(
    nodes: Map<u64, ConsensusPeerView>,
    desired: Map<u64, ConsensusPeerView>,
)
    requires
        desired.dom().finite(),
    ensures
        ({
            let learners = newcomers(nodes, desired);
            let known = nodes.union_prefer_right(
                desired.restrict(Set::new(|id: u64| learners.contains(id))),
            );
            is_settled(desired.dom(), known, desired)
        }),
{
    let p = |id: u64| is_new(nodes, desired, id);
    collections::lemma_listable::<u64>(desired.dom());
    let keys = collections::keys_of::<u64, ConsensusPeerView>(desired);
    lemma_filter(keys, p);
    let learners = newcomers(nodes, desired);
    let known = nodes.union_prefer_right(
        desired.restrict(Set::new(|id: u64| learners.contains(id))),
    );
    assert forall|id: u64| #[trigger] desired.contains_key(id) implies !is_new(
        known,
        desired,
        id,
    ) by {
        assert(desired.dom().contains(id));
        assert(keys.contains(id));
        if is_new(nodes, desired, id) {
            assert(p(id));
            assert(learners.contains(id));
        } else {
            assert(!p(id));
            assert(!learners.contains(id));
        }
    }
}

/// A command that is not refused beforehand is carried out by a voter that has the same state:
/// what is given to the voters names the cluster and the time, and the peer that sent the command
/// has signed it.
pub proof fn law_foreseen_commands_are_carried_out(
    s: store::StoreView,
    request: ReplicatedView,
    decoded: std::result::Result<CommandView, Text>,
    actor: Text,
)
    requires
        accepted_command(request.command, decoded, actor) is Ok,
        request.cluster == s.genesis,
    ensures
        ({
            let command = accepted_command(request.command, decoded, actor)->Ok_0;
            store::decided(s, request, decoded) == foreseen(
                s.machine.state,
                actor,
                command,
                request.time_ms,
            )
        }),
{
}

/// What a peer is told of a command that the voters were given.
pub fn conclude(applied: Applied) -> (r: Result<()>)
    ensures
        match applied@.error {
            None => r is Ok,
            Some(why) => r is Err && r->Err_0@ == ErrorView::Protocol(why),
        },
{
    match applied.error {
        None => Ok(()),
        Some(why) => Err(Error::Protocol(why)),
    }
}

} // verus!
