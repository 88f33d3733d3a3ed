//! The state of the federation, and the commands that change it. Hosting resources do not
//! confer authority.
use vstd::prelude::*;
use vstd::string::*;

use crate::collections;
use crate::collections::{OrdMap, OrdSet, StrMap, StrSet};
use crate::council::{protected, Ballot, Council, Feedback, Proposal};
use crate::devices::Invitation;
use crate::error;
use crate::error::{invalid, Error, Result};
use crate::laws;
use crate::model::rules;
use crate::model::views::{
    ConsensusPeerView, LeagueView, MemberView, ProposalView, SeasonView, SeatView, StateView,
    TeamView, Text,
};
use crate::order::{same_bytes, same_text, Duplicate};
use crate::outside;
use crate::season::{Dispute, Schedule, Season};
use crate::text::{identifier, within};

verus! {

/// A voter of the replicated log: its identity and where it can be reached.
#[derive(Debug, PartialEq, Eq)]
pub struct ConsensusPeer {
    pub peer: String,
    pub addresses: Vec<String>,
}

/// An enrolled person: the club, and the devices that act for the person.
#[derive(Debug, PartialEq, Eq)]
pub struct Member {
    pub club: String,
    pub device: String,
    pub additional_devices: StrSet,
}

/// The rules of a league.
#[derive(Debug, Clone, Copy, PartialEq, Eq, Structural)]
pub struct Rules {
    pub cross_club: bool,
    pub seats: usize,
    pub reconnect_min_ms: u64,
    pub reconnect_max_ms: u64,
}

/// A team: who leads it, who has joined, who may join, and whether it takes part.
#[derive(Debug, PartialEq, Eq)]
pub struct Team {
    pub captain: String,
    pub members: StrSet,
    pub invited: StrSet,
    pub registered: bool,
}

/// Where a league stands.
#[derive(Debug, Clone, Copy, PartialEq, Eq, Structural)]
pub enum Phase {
    Registration,
    Playing,
    Finished,
}

/// A place in the match. The epoch tells one occupation of a place from the next.
#[derive(Debug, PartialEq, Eq)]
pub struct Seat {
    pub player: String,
    pub epoch: u64,
    pub disconnected_until: Option<u64>,
}

/// Measured by the authoritative game proxy, not self-reported by players.
#[derive(Debug, Clone, Copy, PartialEq, Eq, Structural)]
pub struct ConnectionHealth {
    pub rtt_ms: u64,
    pub jitter_ms: u64,
    pub recovery_ms: u64,
}

/// One competition and its match.
#[derive(Debug, PartialEq, Eq)]
pub struct League {
    pub rules: Rules,
    pub organizer: String,
    pub host: String,
    pub scorer: String,
    pub phase: Phase,
    pub teams: StrMap<Team>,
    pub online: StrSet,
    pub seats: StrMap<Vec<Seat>>,
    pub played: StrSet,
    pub player_scores: StrMap<i64>,
    pub team_scores: StrMap<i64>,
    pub score_events: StrMap<String>,
    pub paused_since: Option<u64>,
    pub schedule: Option<Schedule>,
    pub manual_pause: bool,
    pub infrastructure_down: bool,
    pub random_seed: [u8; 32],
    pub draw: u64,
    pub epoch: u64,
    pub health: StrMap<ConnectionHealth>,
}

/// The state of the federation. Hosting resources do not confer authority.
#[derive(Debug, PartialEq, Eq)]
pub struct State {
    pub revision: u64,
    pub admins: StrSet,
    pub members: StrMap<Member>,
    pub leagues: StrMap<League>,
    pub clock_ms: u64,
    pub council: Option<Council>,
    pub consensus_members: OrdMap<u64, ConsensusPeer>,
    pub retired_consensus_ids: OrdSet<u64>,
    pub proposals: StrMap<Proposal>,
    pub ballots: StrMap<Ballot>,
    pub feedback: StrMap<Feedback>,
    pub seasons: StrMap<Season>,
    pub disputes: StrMap<Dispute>,
    pub device_invitations: StrMap<Invitation>,
    pub revoked_devices: StrSet,
}

/// A command to the federation.
#[derive(Debug, PartialEq, Eq)]
pub enum Action {
    InviteMemberDevice { id: String, device: String, expires_ms: u64 },
    AcceptMemberDevice { id: String },
    RevokeMemberDevice { device: String },
    CreateSeason { id: String, title: String },
    ScheduleLeague { season: String, league: String, schedule: Schedule },
    PauseLeague { league: String, paused: bool },
    DisputeResult { id: String, league: String, reason: String },
    ResolveDispute { id: String, response: String, players: StrMap<i64>, teams: StrMap<i64> },
    SetConsensusMembers { members: OrdMap<u64, ConsensusPeer> },
    InstallCouncil { council: Council },
    UpdateCouncil { council: Council },
    Propose { id: String, action: Box<Action>, expires_ms: u64 },
    ApproveProposal { id: String },
    ExecuteProposal { id: String },
    CancelProposal { id: String },
    CreateBallot { id: String, title: String, options: Vec<String>, closes_ms: u64 },
    MemberVote { id: String, option: usize },
    SubmitFeedback { id: String, category: String, text: String },
    RespondFeedback { id: String, text: String },
    GrantAdmin { device: String },
    RevokeAdmin { device: String },
    RotateMemberDevice { member: String, device: String },
    Enroll { member: String, club: String, device: String },
    CreateLeague { league: String, rules: Rules, host: String, scorer: String },
    CreateTeam { league: String, team: String },
    Invite { league: String, team: String, member: String },
    Accept { league: String, team: String },
    Register { league: String, team: String },
    Presence { league: String, member: String, online: bool, health: ConnectionHealth },
    Start { league: String, seed: [u8; 32] },
    Tick { league: String },
    Infrastructure { league: String, healthy: bool },
    Score { league: String, event: String, players: StrMap<i64>, teams: StrMap<i64> },
    Finish { league: String },
}

/// Where a member is to be sent.
#[derive(Debug, PartialEq, Eq)]
pub enum Route {
    Match { team: String, epoch: u64 },
    Waiting,
    Unavailable,
}

impl Member {
    /// Whether the device acts for the member.
    pub fn owns(&self, device: &str) -> (r: bool)
        ensures
            r == rules::owns(self@, device@),
    {
        same_text(self.device.as_str(), device) || self.additional_devices.contains(device)
    }

    /// The principal device, then the further ones in ascending order.
    pub fn devices(&self) -> (r: Vec<String>)
        ensures
            r.deep_view() == seq![self@.device] + collections::items_of::<String>(
                self@.additional_devices,
            ),
    {
        let mut r: Vec<String> = Vec::new();
        r.push(self.device.clone());
        let mut more = self.additional_devices.item_list();
        let ghost further = more.deep_view();
        r.append(&mut more);
        assert(r.deep_view() =~= seq![self@.device] + further);
        r
    }
}

/// The member that owns the device.
pub(crate) fn find_owner(members: &StrMap<Member>, device: &str) -> (r: Option<String>)
    ensures
        r.deep_view() == rules::owner(members@, device@),
        r is Some ==> members@.contains_key(r->0@),
        r is None ==> !rules::enrolled(members@, device@),
        r is Some ==> rules::enrolled(members@, device@) && rules::owns(
            members@[r->0@],
            device@,
        ),
{
    let ghost keys = members.keys();
    let ghost test = rules::owner_test(device@);
    let n: usize = members.len();
    let mut i: usize = 0;
    while i < n
        invariant
            i <= n,
            n == keys.len(),
            keys == members.keys(),
            collections::lists::<String, MemberView>(members@, keys),
            test == rules::owner_test(device@),
            forall|j: int| 0 <= j < i ==> !test(#[trigger] keys[j], members@[keys[j]]),
        decreases n - i,
    {
        let ghost k = keys[i as int];
        assert(members@.dom().contains(k));
        assert(test(k, members@[k]) == rules::owns(members@[k], device@));
        if members.value(i).owns(device) {
            proof {
                collections::lemma_first_at::<String, MemberView>(
                    members@,
                    keys,
                    test,
                    i as int,
                );
                assert(members@.contains_key(k));
            }
            return Some(members.key(i).clone());
        }
        i = i + 1;
    }
    proof {
        collections::lemma_first_none::<String, MemberView>(members@, keys, test);
    }
    None
}

/// The digits of a number below sixteen.
fn hex_digit(n: u8) -> (r: char)
    requires
        n < 16,
    ensures
        r == rules::hex_digit(n),
{
    if n < 10 {
        (48 + n) as char
    } else {
        (87 + n) as char
    }
}

/// The SHA-256 digest in hexadecimal digits.
pub fn digest(bytes: &[u8]) -> (r: String)
    ensures
        r@ == rules::digest(bytes@),
{
    let hash: Vec<u8> = outside::hash(bytes);
    let mut r: String = String::new();
    let mut i: usize = 0;
    while i < hash.len()
        invariant
            i <= hash.len(),
            hash@ == outside::sha256(bytes@),
            hash@.len() == 32,
            r@ == rules::hex(hash@.take(i as int)),
        decreases hash.len() - i,
    {
        let ghost before = r@;
        r.push(hex_digit(hash[i] / 16));
        r.push(hex_digit(hash[i] % 16));
        proof {
            assert(r@ =~= rules::hex(hash@.take(i + 1)));
        }
        i = i + 1;
    }
    assert(hash@.take(i as int) =~= hash@);
    r
}

/// Whether some league is hosted or scored by the device.
fn serves_league(leagues: &StrMap<League>, actor: &str) -> (r: bool)
    ensures
        r == exists|id: Text| #[trigger]
            leagues@.contains_key(id) && (leagues@[id].host == actor@ || leagues@[id].scorer
                == actor@),
{
    let ghost keys = leagues.keys();
    let n: usize = leagues.len();
    let mut i: usize = 0;
    while i < n
        invariant
            i <= n,
            n == keys.len(),
            keys == leagues.keys(),
            collections::lists::<String, LeagueView>(leagues@, keys),
            forall|j: int|
                0 <= j < i ==> leagues@[#[trigger] keys[j]].host != actor@
                    && leagues@[keys[j]].scorer != actor@,
        decreases n - i,
    {
        let ghost k = keys[i as int];
        let league = leagues.value(i);
        if same_text(league.host.as_str(), actor) || same_text(league.scorer.as_str(), actor) {
            assert(leagues@.contains_key(k));
            return true;
        }
        i = i + 1;
    }
    assert forall|id: Text| #[trigger] leagues@.contains_key(id) implies leagues@[id].host != actor@
        && leagues@[id].scorer != actor@ by {
        assert(leagues@.dom().contains(id));
        let j = keys.index_of(id);
        assert(keys[j] == id);
    }
    false
}

/// Whether the member plays in some match that goes on.
fn in_match(leagues: &StrMap<League>, member: &str) -> (r: bool)
    ensures
        r == rules::in_match(leagues@, member@),
{
    let ghost keys = leagues.keys();
    let n: usize = leagues.len();
    let mut i: usize = 0;
    while i < n
        invariant
            i <= n,
            n == keys.len(),
            keys == leagues.keys(),
            collections::lists::<String, LeagueView>(leagues@, keys),
            forall|j: int|
                0 <= j < i ==> !(leagues@[#[trigger] keys[j]].phase == Phase::Playing
                    && rules::team_of(leagues@[keys[j]], member@) is Some),
        decreases n - i,
    {
        let ghost k = keys[i as int];
        let league = leagues.value(i);
        if league.phase == Phase::Playing && league.team_of(member).is_some() {
            assert(leagues@.contains_key(k));
            return true;
        }
        i = i + 1;
    }
    assert forall|id: Text| #[trigger] leagues@.contains_key(id) implies !(leagues@[id].phase
        == Phase::Playing && rules::team_of(leagues@[id], member@) is Some) by {
        assert(leagues@.dom().contains(id));
        let j = keys.index_of(id);
        assert(keys[j] == id);
    }
    false
}

/// The leagues, with the member absent from each of them.
fn without_member(leagues: &StrMap<League>, member: &str) -> (r: StrMap<League>)
    ensures
        r@ == leagues@.map_values(|l: LeagueView| rules::absent(l, member@)),
{
    let ghost keys = leagues.keys();
    let ghost f = |l: LeagueView| rules::absent(l, member@);
    let n: usize = leagues.len();
    let mut r: StrMap<League> = StrMap::new();
    let mut i: usize = 0;
    while i < n
        invariant
            i <= n,
            n == keys.len(),
            keys == leagues.keys(),
            collections::lists::<String, LeagueView>(leagues@, keys),
            f == (|l: LeagueView| rules::absent(l, member@)),
            forall|k: Text| #[trigger]
                r@.contains_key(k) <==> collections::among(keys, i as int, k),
            forall|j: int| 0 <= j < i ==> r@[#[trigger] keys[j]] == f(leagues@[keys[j]]),
        decreases n - i,
    {
        let ghost before = r@;
        let ghost k = keys[i as int];
        let mut league = leagues.value(i).duplicate();
        league.online.remove(member);
        league.health.remove(member);
        assert(league@ =~= rules::absent(leagues@[k], member@));
        r.insert(leagues.key(i).clone(), league);
        i = i + 1;
        proof {
            collections::lemma_next_among::<String, LeagueView>(
                keys,
                i - 1,
                before,
                r@,
                f(leagues@[k]),
            );
        }
    }
    proof {
        collections::lemma_mapped::<String, LeagueView, LeagueView>(leagues@, keys, f, r@);
    }
    r
}

/// What is wrong with an address of the peer.
fn check_address(address: &str, peer: &[u8]) -> (r: Result<()>)
    ensures
        match rules::address_fault(address@, peer@) {
            Some(e) => r is Err && r->Err_0@ == e,
            None => r is Ok,
        },
{
    if !within(address, 2048) {
        return Err(Error::Capacity);
    }
    match outside::parse_address(address) {
        Some(Some(target)) => if same_bytes(target.as_slice(), peer) {
            Ok(())
        } else {
            Err(Error::Denied)
        },
        _ => Err(Error::Denied),
    }
}

/// The first bad address decides.
proof fn lemma_addresses_fault(addresses: Seq<Text>, peer: Seq<u8>, i: int)
    requires
        0 <= i <= addresses.len(),
        forall|j: int| 0 <= j < i ==> rules::address_fault(#[trigger] addresses[j], peer) is None,
        i < addresses.len() ==> rules::address_fault(addresses[i], peer) is Some,
    ensures
        rules::addresses_fault(addresses, peer) == (if i < addresses.len() {
            rules::address_fault(addresses[i], peer)
        } else {
            None
        }),
    decreases addresses.len(),
{
    if addresses.len() > 0 && i > 0 {
        let rest = addresses.drop_first();
        assert(rules::address_fault(addresses[0], peer) is None);
        assert forall|j: int| 0 <= j < i - 1 implies rules::address_fault(
            #[trigger] rest[j],
            peer,
        ) is None by {
            assert(rest[j] == addresses[j + 1]);
        }
        lemma_addresses_fault(rest, peer, i - 1);
    }
}

/// Accepts addresses that all lead to the peer.
fn check_addresses(addresses: &Vec<String>, peer: &[u8]) -> (r: Result<()>)
    ensures
        match rules::addresses_fault(addresses.deep_view(), peer@) {
            Some(e) => r is Err && r->Err_0@ == e,
            None => r is Ok,
        },
{
    let ghost view = addresses.deep_view();
    let mut i: usize = 0;
    while i < addresses.len()
        invariant
            i <= addresses.len(),
            view == addresses.deep_view(),
            forall|j: int| 0 <= j < i ==> rules::address_fault(#[trigger] view[j], peer@) is None,
        decreases addresses.len() - i,
    {
        assert(view[i as int] == addresses@[i as int].deep_view());
        match check_address(addresses[i].as_str(), peer) {
            Ok(_) => {},
            Err(e) => {
                proof {
                    lemma_addresses_fault(view, peer@, i as int);
                }
                return Err(e);
            },
        }
        i = i + 1;
    }
    proof {
        lemma_addresses_fault(view, peer@, i as int);
    }
    Ok(())
}

/// Whether one of the byte strings is the given one.
fn has_bytes(list: &Vec<Vec<u8>>, bytes: &[u8]) -> (r: bool)
    ensures
        r == exists|j: int| 0 <= j < list@.len() && #[trigger] list@[j]@ == bytes@,
{
    let mut i: usize = 0;
    while i < list.len()
        invariant
            i <= list.len(),
            forall|j: int| 0 <= j < i ==> #[trigger] list@[j]@ != bytes@,
        decreases list.len() - i,
    {
        if same_bytes(list[i].as_slice(), bytes) {
            return true;
        }
        i = i + 1;
    }
    false
}

/// Accepts one, three, five or seven voters, each with a number, an identity of its own and
/// addresses that lead to it. Numbers and identities are explicit, never inferred from
/// addresses.
pub fn validate_consensus_members(peers: &OrdMap<u64, ConsensusPeer>) -> (r: Result<()>)
    ensures
        match rules::voters_fault(peers@) {
            Some(e) => r is Err && r->Err_0@ == e,
            None => r is Ok,
        },
{
    let n: usize = peers.len();
    if n != 1 && n != 3 && n != 5 && n != 7 {
        return Err(Error::Denied);
    }
    let ghost keys = peers.keys();
    let ghost test = rules::voter_test(peers@);
    let mut seen: Vec<Vec<u8>> = Vec::new();
    let mut i: usize = 0;
    while i < n
        invariant
            i <= n,
            n == keys.len(),
            n == peers@.len(),
            n == 1 || n == 3 || n == 5 || n == 7,
            keys == peers.keys(),
            collections::lists::<u64, ConsensusPeerView>(peers@, keys),
            test == rules::voter_test(peers@),
            forall|j: int| 0 <= j < i ==> !test(#[trigger] keys[j], peers@[keys[j]]),
            seen@.len() == i,
            forall|j: int|
                #![trigger keys[j]]
                0 <= j < i ==> outside::peer_of_text(peers@[keys[j]].peer) == Some(seen@[j]@),
        decreases n - i,
    {
        let id: u64 = *peers.key(i);
        let voter = peers.value(i);
        assert(id == keys[i as int]);
        assert(test(id, peers@[id]) == (rules::voter_fault(peers@, id) is Some));
        let peer = match outside::parse_peer(voter.peer.as_str()) {
            Some(peer) => peer,
            None => {
                proof {
                    collections::lemma_first_at::<u64, ConsensusPeerView>(
                        peers@,
                        keys,
                        test,
                        i as int,
                    );
                }
                return Err(Error::Denied);
            },
        };
        let repeated: bool = has_bytes(&seen, peer.as_slice());
        proof {
            if repeated {
                let j = choose|j: int| 0 <= j < seen@.len() && #[trigger] seen@[j]@ == peer@;
                assert(outside::peer_of_text(peers@[keys[j]].peer) == Some(peer@));
                assert(peers@.dom().contains(keys[j]));
                assert(peers@.contains_key(keys[j]) && keys[j] < id);
                assert(rules::repeats(peers@, id));
            } else if rules::repeats(peers@, id) {
                let o = choose|o: u64| #[trigger]
                    peers@.contains_key(o) && o < id && outside::peer_of_text(peers@[o].peer)
                        == outside::peer_of_text(peers@[id].peer);
                assert(peers@.dom().contains(o));
                let j = keys.index_of(o);
                assert(keys[j] == o);
                if j > i {
                    assert(keys[i as int] < keys[j]);
                }
                assert(j < i);
                assert(seen@[j]@ == peer@);
            }
        }
        if id == 0 || repeated || voter.addresses.len() == 0 || voter.addresses.len() > 8 {
            proof {
                collections::lemma_first_at::<u64, ConsensusPeerView>(peers@, keys, test, i as int);
            }
            return Err(Error::Denied);
        }
        match check_addresses(&voter.addresses, peer.as_slice()) {
            Ok(_) => {},
            Err(e) => {
                proof {
                    collections::lemma_first_at::<u64, ConsensusPeerView>(
                        peers@,
                        keys,
                        test,
                        i as int,
                    );
                }
                return Err(e);
            },
        }
        seen.push(peer);
        i = i + 1;
    }
    proof {
        collections::lemma_first_none::<u64, ConsensusPeerView>(peers@, keys, test);
    }
    Ok(())
}

impl State {
    /// Whether the actor may see the state.
    pub fn can_read(&self, actor: &str) -> (r: bool)
        ensures
            r == rules::can_read(self@, actor@),
    {
        if self.revoked_devices.contains(actor) {
            return false;
        }
        if self.admins.contains(actor) || find_owner(&self.members, actor).is_some()
            || serves_league(&self.leagues, actor) {
            return true;
        }
        match &self.council {
            Some(council) => council.represents(actor),
            None => false,
        }
    }

    /// A federation with the given administrators, and nothing else.
    pub fn new(admins: StrSet) -> (r: Result<Self>)
        ensures
            match r {
                Ok(s) => s@ == rules::new_state(admins@) && rules::well_formed(s@),
                Err(_) => true,
            },
            error::outcome(r) == rules::created(admins@),
    {
        if admins.is_empty() {
            return Err(invalid("at least one explicit administrator required"));
        }
        let ghost items = admins.items();
        let n: usize = admins.len();
        let mut i: usize = 0;
        while i < n
            invariant
                i <= n,
                n == items.len(),
                items == admins.items(),
                admins@.len() > 0,
                collections::lists_set::<String>(admins@, items),
                forall|j: int| 0 <= j < i ==> rules::is_peer(#[trigger] items[j]),
            decreases n - i,
        {
            if outside::parse_peer(admins.item(i).as_str()).is_none() {
                assert(admins@.contains(items[i as int]));
                return Err(invalid("invalid admin PeerId"));
            }
            i = i + 1;
        }
        assert forall|device: Text| #[trigger] admins@.contains(device) implies rules::is_peer(
            device,
        ) by {
            let j = items.index_of(device);
            assert(items[j] == device);
        }
        let s = State {
            revision: 0,
            admins,
            members: StrMap::new(),
            leagues: StrMap::new(),
            clock_ms: 0,
            council: None,
            consensus_members: OrdMap::new(),
            retired_consensus_ids: OrdSet::new(),
            proposals: StrMap::new(),
            ballots: StrMap::new(),
            feedback: StrMap::new(),
            seasons: StrMap::new(),
            disputes: StrMap::new(),
            device_invitations: StrMap::new(),
            revoked_devices: StrSet::new(),
        };
        assert(s@ =~= rules::new_state(admins@));
        Ok(s)
    }

    /// Carries out a command that was made on the given revision. After an error the state is
    /// what it was.
    pub fn apply(&mut self, actor: &str, revision: u64, now_ms: u64, action: Action) -> (r: Result<
        (),
    >)
        requires
            rules::well_formed(old(self)@),
        ensures
            error::settles(
                r,
                old(self)@,
                final(self)@,
                rules::apply(old(self)@, actor@, revision, now_ms, action@),
            ),
            r is Err ==> *final(self) == *old(self),
            rules::well_formed(final(self)@),
    {
        if self.revoked_devices.contains(actor) {
            return Err(Error::Denied);
        }
        if revision != self.revision {
            return Err(invalid("revision conflict"));
        }
        if now_ms < self.clock_ms {
            return Err(invalid("clock moved backwards"));
        }
        let mut next = self.duplicate();
        let ghost command = action@;
        match next.transition(actor, now_ms, action) {
            Ok(_) => {},
            Err(e) => {
                return Err(e);
            },
        }
        proof {
            laws::commands::lemma_step_well_formed(self@, actor@, now_ms, command, false);
        }
        next.revision = match next.revision.checked_add(1) {
            Some(revision) => revision,
            None => {
                return Err(invalid("revision overflow"));
            },
        };
        next.clock_ms = now_ms;
        *self = next;
        Ok(())
    }

    fn transition(&mut self, actor: &str, now: u64, action: Action) -> (r: Result<()>)
        requires
            rules::well_formed(old(self)@),
        ensures
            error::settles(r, old(self)@, final(self)@, rules::step(old(self)@, actor@, now, action@, false)),
    {
        self.transition_authorized(actor, now, action, false)
    }

    fn grant_admin(&mut self, admin: bool, device: String) -> (r: Result<()>)
        ensures
            error::settles(r, old(self)@, final(self)@, rules::grant_admin(old(self)@, admin, device@)),
    {
        if !admin {
            return Err(Error::Denied);
        }
        if outside::parse_peer(device.as_str()).is_none() {
            return Err(invalid("invalid administrator device"));
        }
        if !self.admins.insert(device) {
            assert(self@.admins =~= old(self)@.admins);
            return Err(invalid("administrator already exists"));
        }
        Ok(())
    }

    fn revoke_admin(&mut self, admin: bool, device: String) -> (r: Result<()>)
        ensures
            error::settles(r, old(self)@, final(self)@, rules::revoke_admin(old(self)@, admin, device@)),
    {
        if !admin {
            return Err(Error::Denied);
        }
        if self.admins.len() <= 1 {
            return Err(invalid("cannot remove last administrator"));
        }
        if !self.admins.remove(device.as_str()) {
            assert(self@.admins =~= old(self)@.admins);
            return Err(Error::NotFound);
        }
        Ok(())
    }

    /// Marks devices as revoked.
    fn revoke_all(&mut self, devices: &Vec<String>)
        ensures
            final(self)@ == (StateView {
                revoked_devices: final(self)@.revoked_devices,
                ..old(self)@
            }),
            forall|device: Text| #[trigger]
                final(self)@.revoked_devices.contains(device) <==> old(
                    self,
                )@.revoked_devices.contains(device) || devices.deep_view().contains(device),
    {
        let ghost view = devices.deep_view();
        let mut i: usize = 0;
        while i < devices.len()
            invariant
                i <= devices.len(),
                view == devices.deep_view(),
                self@ == (StateView { revoked_devices: self@.revoked_devices, ..old(self)@ }),
                forall|k: Text| #[trigger]
                    self@.revoked_devices.contains(k) <==> old(self)@.revoked_devices.contains(k)
                        || collections::among(view, i as int, k),
            decreases devices.len() - i,
        {
            assert(view[i as int] == devices@[i as int].deep_view());
            self.revoked_devices.insert(devices[i].clone());
            proof {
                collections::lemma_among_next(view, i as int);
            }
            i = i + 1;
        }
        assert forall|k: Text| collections::among(view, i as int, k) <==> view.contains(k) by {
            if view.contains(k) {
                let j = view.index_of(k);
                assert(view[j] == k);
            }
        }
    }

    fn rotate_device(&mut self, admin: bool, member: String, device: String) -> (r: Result<()>)
        ensures
            error::settles(
                r,
                old(self)@,
                final(self)@,
                rules::rotate_device(old(self)@, admin, member@, device@),
            ),
    {
        let ghost start = self@;
        let ghost expected = rules::rotate_device(start, admin, member@, device@);
        if !admin {
            return Err(Error::Denied);
        }
        if outside::parse_peer(device.as_str()).is_none() {
            return Err(invalid("invalid member device"));
        }
        if self.revoked_devices.contains(device.as_str()) || find_owner(
            &self.members,
            device.as_str(),
        ).is_some() {
            return Err(invalid("device already enrolled"));
        }
        if in_match(&self.leagues, member.as_str()) {
            return Err(invalid("cannot replace member device during a match"));
        }
        let mut m = match self.members.remove(member.as_str()) {
            Some(m) => m,
            None => {
                assert(self@.members =~= start.members);
                return Err(Error::NotFound);
            },
        };
        let ghost before = m@;
        let gone = m.devices();
        let further: usize = m.additional_devices.len();
        self.revoke_all(&gone);
        m.additional_devices = StrSet::new();
        m.device = device;
        self.leagues = without_member(&self.leagues, member.as_str());
        self.members.insert(member, m);
        proof {
            let list = gone.deep_view();
            let more = collections::items_of::<String>(before.additional_devices);
            collections::lemma_listable::<String>(before.additional_devices);
            assert forall|k: Text| list.contains(k) <==> rules::devices_of(before).contains(k) by {
                if list.contains(k) {
                    let j = list.index_of(k);
                    if j > 0 {
                        assert(list[j] == more[j - 1]);
                    }
                }
                if k == before.device {
                    assert(list[0] == k);
                }
                if before.additional_devices.contains(k) {
                    let j = more.index_of(k);
                    assert(list[j + 1] == k);
                }
            }
            let next = expected->Ok_0;
            assert(self@.members =~= next.members);
            assert(self@.revoked_devices =~= next.revoked_devices);
            assert(self@.leagues =~= next.leagues);
            assert(self@ =~= next);
        }
        Ok(())
    }

    fn enroll(&mut self, admin: bool, member: String, club: String, device: String) -> (r: Result<
        (),
    >)
        ensures
            error::settles(
                r,
                old(self)@,
                final(self)@,
                rules::enroll(old(self)@, admin, member@, club@, device@),
            ),
    {
        if !admin {
            return Err(Error::Denied);
        }
        match identifier(member.as_str()) {
            Ok(_) => {},
            Err(e) => {
                return Err(e);
            },
        }
        match identifier(club.as_str()) {
            Ok(_) => {},
            Err(e) => {
                return Err(e);
            },
        }
        if outside::parse_peer(device.as_str()).is_none() {
            return Err(invalid("invalid member device"));
        }
        if self.members.contains_key(member.as_str()) || self.revoked_devices.contains(
            device.as_str(),
        ) || find_owner(&self.members, device.as_str()).is_some() {
            return Err(invalid("member/device already enrolled"));
        }
        self.members.insert(member, Member { club, device, additional_devices: StrSet::new() });
        Ok(())
    }

    fn create_league(
        &mut self,
        actor: &str,
        admin: bool,
        league: String,
        rules: Rules,
        host: String,
        scorer: String,
    ) -> (r: Result<()>)
        ensures
            error::settles(
                r,
                old(self)@,
                final(self)@,
                rules::create_league(
                    old(self)@,
                    actor@,
                    admin,
                    league@,
                    rules,
                    host@,
                    scorer@,
                ),
            ),
    {
        if !admin {
            return Err(Error::Denied);
        }
        match identifier(league.as_str()) {
            Ok(_) => {},
            Err(e) => {
                return Err(e);
            },
        }
        if outside::parse_peer(host.as_str()).is_none() || outside::parse_peer(
            scorer.as_str(),
        ).is_none() {
            return Err(invalid("invalid authority PeerId"));
        }
        if rules.seats == 0 || rules.seats > 256 || rules.reconnect_min_ms == 0
            || rules.reconnect_max_ms < rules.reconnect_min_ms || rules.reconnect_max_ms
            > 600_000 {
            return Err(invalid("invalid league rules"));
        }
        if self.leagues.contains_key(league.as_str()) {
            return Err(invalid("league already exists"));
        }
        let entry = League {
            rules,
            organizer: actor.to_owned(),
            host,
            scorer,
            phase: Phase::Registration,
            teams: StrMap::new(),
            online: StrSet::new(),
            seats: StrMap::new(),
            played: StrSet::new(),
            player_scores: StrMap::new(),
            team_scores: StrMap::new(),
            score_events: StrMap::new(),
            paused_since: None,
            schedule: None,
            manual_pause: false,
            infrastructure_down: false,
            random_seed: [0u8;32],
            draw: 0,
            epoch: 0,
            health: StrMap::new(),
        };
        assert(entry@ =~= rules::new_league(actor@, rules, host@, scorer@));
        self.leagues.insert(league, entry);
        Ok(())
    }

    fn set_voters(&mut self, admin: bool, members: OrdMap<u64, ConsensusPeer>) -> (r: Result<()>)
        ensures
            error::settles(r, old(self)@, final(self)@, rules::set_voters(old(self)@, admin, members@)),
    {
        let ghost start = self@;
        if !admin {
            return Err(Error::Denied);
        }
        match validate_consensus_members(&members) {
            Ok(_) => {},
            Err(e) => {
                return Err(e);
            },
        }
        if self.any_taken(&members) {
            return Err(Error::Denied);
        }
        self.retire(&members);
        self.consensus_members = members;
        proof {
            let expected = rules::set_voters(start, admin, members@)->Ok_0;
            assert(self@.retired_consensus_ids =~= expected.retired_consensus_ids);
        }
        Ok(())
    }

    /// Whether a number was given up, or stands for another peer.
    fn any_taken(&self, members: &OrdMap<u64, ConsensusPeer>) -> (r: bool)
        ensures
            r == exists|id: u64| #[trigger]
                members@.contains_key(id) && rules::taken(self@, members@, id),
    {
        let ghost keys = members.keys();
        let n: usize = members.len();
        let mut i: usize = 0;
        while i < n
            invariant
                i <= n,
                n == keys.len(),
                keys == members.keys(),
                collections::lists::<u64, ConsensusPeerView>(members@, keys),
                forall|j: int| 0 <= j < i ==> !rules::taken(self@, members@, #[trigger] keys[j]),
            decreases n - i,
        {
            let ghost k = keys[i as int];
            let id: u64 = *members.key(i);
            let moved: bool = match self.consensus_members.get(&id) {
                Some(old) => !same_text(old.peer.as_str(), members.value(i).peer.as_str()),
                None => false,
            };
            if self.retired_consensus_ids.contains(&id) || moved {
                assert(members@.contains_key(k));
                return true;
            }
            i = i + 1;
        }
        assert forall|id: u64| #[trigger] members@.contains_key(id) implies !rules::taken(
            self@,
            members@,
            id,
        ) by {
            assert(members@.dom().contains(id));
            let j = keys.index_of(id);
            assert(keys[j] == id);
        }
        false
    }

    /// Gives up the numbers of voters that are no longer wanted.
    fn retire(&mut self, members: &OrdMap<u64, ConsensusPeer>)
        ensures
            final(self)@ == (StateView {
                retired_consensus_ids: final(self)@.retired_consensus_ids,
                ..old(self)@
            }),
            forall|id: u64| #[trigger]
                final(self)@.retired_consensus_ids.contains(id) <==> old(
                    self,
                )@.retired_consensus_ids.contains(id) || (old(
                    self,
                )@.consensus_members.contains_key(id) && !members@.contains_key(id)),
    {
        let list = self.consensus_members.key_list();
        let ghost keys = list.deep_view();
        let mut i: usize = 0;
        while i < list.len()
            invariant
                i <= list.len(),
                keys == list.deep_view(),
                self@ == (StateView {
                    retired_consensus_ids: self@.retired_consensus_ids,
                    ..old(self)@
                }),
                forall|id: u64| #[trigger]
                    self@.retired_consensus_ids.contains(id) <==> old(
                        self,
                    )@.retired_consensus_ids.contains(id) || (collections::among(
                        keys,
                        i as int,
                        id,
                    ) && !members@.contains_key(id)),
            decreases list.len() - i,
        {
            assert(keys[i as int] == list@[i as int].deep_view());
            let id: u64 = list[i];
            if !members.contains_key(&id) {
                self.retired_consensus_ids.insert(id);
            }
            proof {
                collections::lemma_among_next(keys, i as int);
            }
            i = i + 1;
        }
        proof {
            collections::lemma_among_all::<u64>(old(self)@.consensus_members.dom(), keys);
            assert forall|id: u64| #[trigger]
                self@.retired_consensus_ids.contains(id) <==> old(
                    self,
                )@.retired_consensus_ids.contains(id) || (old(
                    self,
                )@.consensus_members.contains_key(id) && !members@.contains_key(id)) by {
                assert(collections::among(keys, i as int, id) <==> old(
                    self,
                )@.consensus_members.dom().contains(id));
            }
        }
    }

    /// Whether a team of that name takes part in another league of a season of this league,
    /// under another captain.
    fn name_taken(&self, league: &str, team: &str, player: &Option<String>) -> (r: bool)
        ensures
            r == rules::name_taken(self@, league@, team@, player.deep_view()),
    {
        let ghost keys = self.seasons.keys();
        let n: usize = self.seasons.len();
        let mut i: usize = 0;
        while i < n
            invariant
                i <= n,
                n == keys.len(),
                keys == self.seasons.keys(),
                collections::lists::<String, SeasonView>(self.seasons@, keys),
                forall|j: int|
                    0 <= j < i && self.seasons@[#[trigger] keys[j]].leagues.contains(league@)
                        ==> !clashes(
                        self@,
                        self.seasons@[keys[j]].leagues,
                        league@,
                        team@,
                        player.deep_view(),
                    ),
            decreases n - i,
        {
            let ghost k = keys[i as int];
            let season = self.seasons.value(i);
            if season.leagues.contains(league) && self.clash(
                &season.leagues,
                league,
                team,
                player,
            ) {
                proof {
                    let other = choose|other: Text|
                        is_clash(
                            self@,
                            self.seasons@[k].leagues,
                            league@,
                            team@,
                            player.deep_view(),
                            other,
                        );
                    assert(self@.seasons.contains_key(k) && self@.leagues.contains_key(other));
                }
                return true;
            }
            i = i + 1;
        }
        proof {
            if rules::name_taken(self@, league@, team@, player.deep_view()) {
                let (season, other) = choose|season: Text, other: Text|
                    #![trigger self@.seasons.contains_key(season), self@.leagues.contains_key(other)]
                    {
                        &&& self@.seasons.contains_key(season)
                        &&& self@.leagues.contains_key(other)
                        &&& self@.seasons[season].leagues.contains(league@)
                        &&& self@.seasons[season].leagues.contains(other)
                        &&& other != league@
                        &&& self@.leagues[other].teams.contains_key(team@)
                        &&& Some(self@.leagues[other].teams[team@].captain) != player.deep_view()
                    };
                assert(self.seasons@.dom().contains(season));
                let j = keys.index_of(season);
                assert(keys[j] == season);
                assert(is_clash(
                    self@,
                    self.seasons@[season].leagues,
                    league@,
                    team@,
                    player.deep_view(),
                    other,
                ));
            }
        }
        false
    }

    /// Whether a team of that name takes part in one of the leagues but this one, under
    /// another captain.
    fn clash(&self, leagues: &StrSet, league: &str, team: &str, player: &Option<String>) -> (r:
        bool)
        ensures
            r == clashes(self@, leagues@, league@, team@, player.deep_view()),
    {
        let ghost items = leagues.items();
        let n: usize = leagues.len();
        let mut i: usize = 0;
        while i < n
            invariant
                i <= n,
                n == items.len(),
                items == leagues.items(),
                collections::lists_set::<String>(leagues@, items),
                forall|j: int|
                    0 <= j < i ==> !is_clash(
                        self@,
                        leagues@,
                        league@,
                        team@,
                        player.deep_view(),
                        #[trigger] items[j],
                    ),
            decreases n - i,
        {
            let other = leagues.item(i);
            let ghost k = items[i as int];
            if !same_text(other.as_str(), league) {
                match self.leagues.get(other.as_str()) {
                    Some(l) => match l.teams.get(team) {
                        Some(t) => {
                            let mine: bool = match player {
                                Some(player) => same_text(t.captain.as_str(), player.as_str()),
                                None => false,
                            };
                            if !mine {
                                assert(is_clash(
                                    self@,
                                    leagues@,
                                    league@,
                                    team@,
                                    player.deep_view(),
                                    k,
                                ));
                                return true;
                            }
                        },
                        None => {},
                    },
                    None => {},
                }
            }
            i = i + 1;
        }
        assert forall|other: Text| !is_clash(
            self@,
            leagues@,
            league@,
            team@,
            player.deep_view(),
            other,
        ) by {
            if leagues@.contains(other) {
                let j = items.index_of(other);
                assert(items[j] == other);
            }
        }
        false
    }

    /// Carries out a command to one league.
    fn league_transition(&mut self, actor: &str, now: u64, id: String, action: Action) -> (r:
        Result<()>)
        requires
            rules::well_formed(old(self)@),
            rules::league_id(action@) == Some(id@),
        ensures
            error::settles(
                r,
                old(self)@,
                final(self)@,
                rules::league_transition(old(self)@, actor@, now, action@),
            ),
    {
        let ghost start = self@;
        let ghost command = action@;
        let ghost name = id@;
        let player = find_owner(&self.members, actor);
        match &action {
            Action::CreateTeam { league, team } => {
                if self.name_taken(id.as_str(), team.as_str(), &player) {
                    return Err(invalid("season team name belongs to another captain"));
                }
            },
            _ => {},
        }
        let mut l = match self.leagues.get(id.as_str()) {
            Some(l) => l.duplicate(),
            None => {
                return Err(Error::NotFound);
            },
        };
        let members = &self.members;
        let done = match action {
            Action::CreateTeam { league, team } => l.create_team(now, player, team),
            Action::Invite { league, team, member } => l.invite(members, now, player, team, member),
            Action::Accept { league, team } => l.accept(members, now, player, team),
            Action::Register { league, team } => l.register(now, player, team),
            Action::Presence { league, member, online, health } => l.presence(
                members,
                actor,
                now,
                member,
                online,
                health,
            ),
            Action::Start { league, seed } => l.start(actor, now, seed),
            Action::Tick { league } => l.tick(actor, now),
            Action::Infrastructure { league, healthy } => l.infrastructure(actor, now, healthy),
            Action::Score { league, event, players, teams } => l.score(
                actor,
                event,
                &players,
                &teams,
            ),
            Action::Finish { league } => l.finish(actor),
            _ => Err(invalid("unsupported action")),
        };
        match done {
            Ok(_) => {},
            Err(e) => {
                return Err(e);
            },
        }
        self.leagues.insert(id, l);
        proof {
            let expected = rules::league_transition(start, actor@, now, command)->Ok_0;
            assert(self@.leagues =~= expected.leagues);
        }
        Ok(())
    }

    /// Carries out a command. With `approved`, the council stands behind it.
    pub(crate) fn transition_authorized(
        &mut self,
        actor: &str,
        now: u64,
        action: Action,
        approved: bool,
    ) -> (r: Result<()>)
        requires
            rules::well_formed(old(self)@),
        ensures
            error::settles(
                r,
                old(self)@,
                final(self)@,
                rules::step(old(self)@, actor@, now, action@, approved),
            ),
        decreases
                (if action@ is ExecuteProposal {
                    1int
                } else {
                    0int
                }),
                2int,
    {
        if self.council.is_some() && protected(&action) && !approved {
            return Err(Error::Denied);
        }
        let admin: bool = approved || self.admins.contains(actor);
        match action {
            Action::InviteMemberDevice { .. } => self.device_transition(actor, now, action),
            Action::AcceptMemberDevice { .. } => self.device_transition(actor, now, action),
            Action::RevokeMemberDevice { .. } => self.device_transition(actor, now, action),
            Action::CreateSeason { .. } => self.season_transition(actor, now, action, admin),
            Action::ScheduleLeague { .. } => self.season_transition(actor, now, action, admin),
            Action::PauseLeague { .. } => self.season_transition(actor, now, action, admin),
            Action::DisputeResult { .. } => self.season_transition(actor, now, action, admin),
            Action::ResolveDispute { .. } => self.season_transition(actor, now, action, admin),
            Action::SetConsensusMembers { members } => self.set_voters(admin, members),
            Action::InstallCouncil { .. } => self.council_transition(actor, now, action, approved),
            Action::UpdateCouncil { .. } => self.council_transition(actor, now, action, approved),
            Action::Propose { .. } => self.council_transition(actor, now, action, approved),
            Action::ApproveProposal { .. } => self.council_transition(actor, now, action, approved),
            Action::ExecuteProposal { .. } => self.council_transition(actor, now, action, approved),
            Action::CancelProposal { .. } => self.council_transition(actor, now, action, approved),
            Action::CreateBallot { .. } => self.council_transition(actor, now, action, approved),
            Action::MemberVote { .. } => self.council_transition(actor, now, action, approved),
            Action::SubmitFeedback { .. } => self.council_transition(actor, now, action, approved),
            Action::RespondFeedback { .. } => self.council_transition(actor, now, action, approved),
            Action::GrantAdmin { device } => self.grant_admin(admin, device),
            Action::RevokeAdmin { device } => self.revoke_admin(admin, device),
            Action::RotateMemberDevice { member, device } => self.rotate_device(
                admin,
                member,
                device,
            ),
            Action::Enroll { member, club, device } => self.enroll(admin, member, club, device),
            Action::CreateLeague { league, rules, host, scorer } => self.create_league(
                actor,
                admin,
                league,
                rules,
                host,
                scorer,
            ),
            _ => {
                let id = match league_of(&action) {
                    Some(id) => id,
                    None => {
                        return Err(invalid("unsupported action"));
                    },
                };
                self.league_transition(actor, now, id, action)
            },
        }
    }
}

/// Whether a league is in order.
fn league_ok(members: &StrMap<Member>, league: &League) -> (r: bool)
    ensures
        r == rules::league_ok(members@, league@),
{
    if league.rules.reconnect_min_ms > league.rules.reconnect_max_ms {
        return false;
    }
    let ghost l = league@;
    let ghost places = league.seats.keys();
    let n: usize = league.seats.len();
    let mut i: usize = 0;
    while i < n
        invariant
            i <= n,
            n == places.len(),
            l == league@,
            places == league.seats.keys(),
            collections::lists::<String, Seq<SeatView>>(l.seats, places),
            forall|j: int| 0 <= j < i ==> l.teams.contains_key(#[trigger] places[j]),
        decreases n - i,
    {
        if !league.teams.contains_key(league.seats.key(i).as_str()) {
            assert(l.seats.dom().contains(places[i as int]));
            assert(l.seats.contains_key(places[i as int]));
            return false;
        }
        i = i + 1;
    }
    assert forall|t: Text| #[trigger] l.seats.contains_key(t) implies l.teams.contains_key(t) by {
        assert(l.seats.dom().contains(t));
        let j = places.index_of(t);
        assert(places[j] == t);
    }
    let ghost names = league.teams.keys();
    let m: usize = league.teams.len();
    let mut k: usize = 0;
    while k < m
        invariant
            k <= m,
            m == names.len(),
            l == league@,
            names == league.teams.keys(),
            collections::lists::<String, TeamView>(l.teams, names),
            forall|j: int|
                0 <= j < k ==> members@.contains_key(l.teams[#[trigger] names[j]].captain),
        decreases m - k,
    {
        if !members.contains_key(league.teams.value(k).captain.as_str()) {
            assert(l.teams.contains_key(names[k as int]));
            return false;
        }
        k = k + 1;
    }
    assert forall|t: Text| #[trigger] l.teams.contains_key(t) implies members@.contains_key(
        l.teams[t].captain,
    ) by {
        assert(l.teams.dom().contains(t));
        let j = names.index_of(t);
        assert(names[j] == t);
    }
    true
}

impl State {
    /// Whether the state is well-formed, as every state is that commands have led to.
    pub fn is_well_formed(&self) -> (r: bool)
        ensures
            r == rules::well_formed(self@),
    {
        let ghost s = self@;
        let ghost ids = self.leagues.keys();
        let n: usize = self.leagues.len();
        let mut i: usize = 0;
        while i < n
            invariant
                i <= n,
                n == ids.len(),
                s == self@,
                ids == self.leagues.keys(),
                collections::lists::<String, LeagueView>(s.leagues, ids),
                forall|j: int|
                    0 <= j < i ==> rules::league_ok(s.members, s.leagues[#[trigger] ids[j]]),
            decreases n - i,
        {
            if !league_ok(&self.members, self.leagues.value(i)) {
                assert(s.leagues.contains_key(ids[i as int]));
                return false;
            }
            i = i + 1;
        }
        assert forall|id: Text| #[trigger] s.leagues.contains_key(id) implies rules::league_ok(
            s.members,
            s.leagues[id],
        ) by {
            assert(s.leagues.dom().contains(id));
            let j = ids.index_of(id);
            assert(ids[j] == id);
        }
        let ghost names = self.proposals.keys();
        let m: usize = self.proposals.len();
        let mut k: usize = 0;
        while k < m
            invariant
                k <= m,
                m == names.len(),
                s == self@,
                names == self.proposals.keys(),
                collections::lists::<String, ProposalView>(s.proposals, names),
                forall|j: int|
                    0 <= j < k ==> rules::protected(s.proposals[#[trigger] names[j]].action),
            decreases m - k,
        {
            if !protected(&self.proposals.value(k).action) {
                assert(s.proposals.contains_key(names[k as int]));
                return false;
            }
            k = k + 1;
        }
        assert forall|id: Text| #[trigger] s.proposals.contains_key(id) implies rules::protected(
            s.proposals[id].action,
        ) by {
            assert(s.proposals.dom().contains(id));
            let j = names.index_of(id);
            assert(names[j] == id);
        }
        true
    }
}

/// The league that a command is for.
fn league_of(action: &Action) -> (r: Option<String>)
    ensures
        r.deep_view() == rules::league_id(action@),
{
    match action {
        Action::CreateTeam { league, .. } => Some(league.clone()),
        Action::Invite { league, .. } => Some(league.clone()),
        Action::Accept { league, .. } => Some(league.clone()),
        Action::Register { league, .. } => Some(league.clone()),
        Action::Presence { league, .. } => Some(league.clone()),
        Action::Start { league, .. } => Some(league.clone()),
        Action::Tick { league } => Some(league.clone()),
        Action::Infrastructure { league, .. } => Some(league.clone()),
        Action::Score { league, .. } => Some(league.clone()),
        Action::Finish { league } => Some(league.clone()),
        _ => None,
    }
}

/// In the other league a team of that name plays under another captain.
spec fn is_clash(
    s: StateView,
    leagues: Set<Text>,
    league: Text,
    team: Text,
    player: Option<Text>,
    other: Text,
) -> bool {
    &&& leagues.contains(other)
    &&& other != league
    &&& s.leagues.contains_key(other)
    &&& s.leagues[other].teams.contains_key(team)
    &&& Some(s.leagues[other].teams[team].captain) != player
}

spec fn clashes(
    s: StateView,
    leagues: Set<Text>,
    league: Text,
    team: Text,
    player: Option<Text>,
) -> bool {
    exists|other: Text| is_clash(s, leagues, league, team, player, other)
}

} // verus!
