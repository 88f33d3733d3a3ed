//! What each command does: the next state, or the error that leaves the state as it is.
use vstd::prelude::*;
use vstd::utf8::*;

use crate::collections;
use crate::error::{ErrorView, Outcome};
use crate::governance::{ConnectionHealth, Phase, Rules};
use crate::model::views::{
    ActionView, BallotView, ConsensusPeerView, CouncilView, DisputeView, FeedbackView,
    InvitationView, LeagueView, MemberView, ProposalView, ResolutionView, RouteView, SeasonView,
    SeatView, StateView, TeamView, Text,
};
use crate::order;
use crate::outside;
use crate::season::Schedule;
use crate::text;

verus! {

// Errors.

pub open spec fn denied<T>() -> Outcome<T> {
    Err(ErrorView::Denied)
}

pub open spec fn missing<T>() -> Outcome<T> {
    Err(ErrorView::NotFound)
}

pub open spec fn full<T>() -> Outcome<T> {
    Err(ErrorView::Capacity)
}

pub open spec fn refused<T>(message: Text) -> Outcome<T> {
    Err(ErrorView::Protocol(message))
}

// Times.

/// The largest number that a `u64` can hold, where `x` does not fit.
pub open spec fn saturated(x: int) -> u64 {
    if x > u64::MAX {
        u64::MAX
    } else {
        x as u64
    }
}

// Devices and people.

/// The text is the identity of a peer.
pub open spec fn is_peer(device: Text) -> bool {
    outside::peer_of_text(device) is Some
}

pub open spec fn owns(m: MemberView, device: Text) -> bool {
    m.device == device || m.additional_devices.contains(device)
}

/// Some member owns the device.
pub open spec fn enrolled(members: Map<Text, MemberView>, device: Text) -> bool {
    exists|id: Text| #[trigger] members.contains_key(id) && owns(members[id], device)
}

/// The member that owns the device: the first one, should there be several.
pub open spec fn owner(members: Map<Text, MemberView>, device: Text) -> Option<Text> {
    collections::first_key::<String, MemberView>(members, owner_test(device))
}

pub open spec fn owner_test(device: Text) -> spec_fn(Text, MemberView) -> bool {
    |id: Text, m: MemberView| owns(m, device)
}

pub open spec fn devices_of(m: MemberView) -> Set<Text> {
    m.additional_devices.insert(m.device)
}

/// The invitations that have not expired.
pub open spec fn live_invitations(all: Map<Text, InvitationView>, now: u64) -> Map<
    Text,
    InvitationView,
> {
    Map::new(|id: Text| all.contains_key(id) && all[id].expires_ms > now, |id: Text| all[id])
}

/// The invitations of other devices.
pub open spec fn invitations_without(all: Map<Text, InvitationView>, device: Text) -> Map<
    Text,
    InvitationView,
> {
    Map::new(|id: Text| all.contains_key(id) && all[id].device != device, |id: Text| all[id])
}

pub open spec fn invite_device(
    s: StateView,
    actor: Text,
    now: u64,
    id: Text,
    device: Text,
    expires_ms: u64,
) -> Outcome<StateView> {
    if id.len() == 0 || !text::fits(id, 128) || expires_ms <= now || expires_ms > saturated(
        now + 600_000,
    ) {
        denied()
    } else if !is_peer(device) || s.revoked_devices.contains(device) || enrolled(
        s.members,
        device,
    ) {
        denied()
    } else {
        match owner(s.members, actor) {
            None => denied(),
            Some(member) => {
                let live = live_invitations(s.device_invitations, now);
                if s.members[member].additional_devices.len() >= 7 {
                    full()
                } else if live.len() >= 4096 || live.contains_key(id) {
                    full()
                } else {
                    Ok(
                        StateView {
                            device_invitations: live.insert(
                                id,
                                InvitationView { member, device, expires_ms },
                            ),
                            ..s
                        },
                    )
                }
            },
        }
    }
}

pub open spec fn accept_device(s: StateView, actor: Text, now: u64, id: Text) -> Outcome<
    StateView,
> {
    if !s.device_invitations.contains_key(id) {
        missing()
    } else {
        let i = s.device_invitations[id];
        if i.device != actor || i.expires_ms <= now || s.revoked_devices.contains(actor)
            || enrolled(s.members, actor) {
            denied()
        } else if !s.members.contains_key(i.member) {
            missing()
        } else {
            let m = s.members[i.member];
            if m.additional_devices.len() >= 7 {
                full()
            } else {
                Ok(
                    StateView {
                        members: s.members.insert(
                            i.member,
                            MemberView {
                                additional_devices: m.additional_devices.insert(actor),
                                ..m
                            },
                        ),
                        device_invitations: s.device_invitations.remove(id),
                        ..s
                    },
                )
            }
        }
    }
}

/// The least of the devices.
pub open spec fn is_least(devices: Set<Text>, device: Text) -> bool {
    &&& devices.contains(device)
    &&& forall|o: Text| #[trigger]
        devices.contains(o) && o != device ==> order::text_before(device, o)
}

pub open spec fn least(devices: Set<Text>) -> Text {
    choose|device: Text| is_least(devices, device)
}

/// The member without one of its devices. The first further device takes the place of the
/// principal one.
pub open spec fn without_device(m: MemberView, device: Text) -> MemberView {
    if m.device == device {
        MemberView {
            device: least(m.additional_devices),
            additional_devices: m.additional_devices.remove(least(m.additional_devices)),
            ..m
        }
    } else {
        MemberView { additional_devices: m.additional_devices.remove(device), ..m }
    }
}

pub open spec fn revoke_device(s: StateView, actor: Text, device: Text) -> Outcome<StateView> {
    match owner(s.members, actor) {
        None => denied(),
        Some(id) => {
            let m = s.members[id];
            if !owns(m, device) || (m.device == device && m.additional_devices.len() == 0) {
                denied()
            } else {
                Ok(
                    StateView {
                        members: s.members.insert(id, without_device(m, device)),
                        revoked_devices: s.revoked_devices.insert(device),
                        device_invitations: invitations_without(s.device_invitations, device),
                        ..s
                    },
                )
            }
        },
    }
}

pub open spec fn grant_admin(s: StateView, admin: bool, device: Text) -> Outcome<StateView> {
    if !admin {
        denied()
    } else if !is_peer(device) {
        refused("invalid administrator device"@)
    } else if s.admins.contains(device) {
        refused("administrator already exists"@)
    } else {
        Ok(StateView { admins: s.admins.insert(device), ..s })
    }
}

pub open spec fn revoke_admin(s: StateView, admin: bool, device: Text) -> Outcome<StateView> {
    if !admin {
        denied()
    } else if s.admins.len() <= 1 {
        refused("cannot remove last administrator"@)
    } else if !s.admins.contains(device) {
        missing()
    } else {
        Ok(StateView { admins: s.admins.remove(device), ..s })
    }
}

/// The member is absent from the league.
pub open spec fn absent(l: LeagueView, member: Text) -> LeagueView {
    LeagueView { online: l.online.remove(member), health: l.health.remove(member), ..l }
}

/// The member plays in some match that goes on.
pub open spec fn in_match(leagues: Map<Text, LeagueView>, member: Text) -> bool {
    exists|id: Text| #[trigger]
        leagues.contains_key(id) && leagues[id].phase == Phase::Playing && team_of(
            leagues[id],
            member,
        ) is Some
}

pub open spec fn rotate_device(
    s: StateView,
    admin: bool,
    member: Text,
    device: Text,
) -> Outcome<StateView> {
    if !admin {
        denied()
    } else if !is_peer(device) {
        refused("invalid member device"@)
    } else if s.revoked_devices.contains(device) || enrolled(s.members, device) {
        refused("device already enrolled"@)
    } else if in_match(s.leagues, member) {
        refused("cannot replace member device during a match"@)
    } else if !s.members.contains_key(member) {
        missing()
    } else {
        let m = s.members[member];
        Ok(
            StateView {
                members: s.members.insert(
                    member,
                    MemberView { device, additional_devices: Set::empty(), ..m },
                ),
                revoked_devices: s.revoked_devices.union(devices_of(m)),
                leagues: s.leagues.map_values(|l: LeagueView| absent(l, member)),
                ..s
            },
        )
    }
}

pub open spec fn enroll(
    s: StateView,
    admin: bool,
    member: Text,
    club: Text,
    device: Text,
) -> Outcome<StateView> {
    if !admin {
        denied()
    } else if !text::is_identifier(member) || !text::is_identifier(club) {
        refused("invalid identifier"@)
    } else if !is_peer(device) {
        refused("invalid member device"@)
    } else if s.members.contains_key(member) || s.revoked_devices.contains(device) || enrolled(
        s.members,
        device,
    ) {
        refused("member/device already enrolled"@)
    } else {
        Ok(
            StateView {
                members: s.members.insert(
                    member,
                    MemberView { club, device, additional_devices: Set::empty() },
                ),
                ..s
            },
        )
    }
}

/// Who may see the state.
pub open spec fn can_read(s: StateView, actor: Text) -> bool {
    &&& !s.revoked_devices.contains(actor)
    &&& {
        ||| s.admins.contains(actor)
        ||| enrolled(s.members, actor)
        ||| exists|id: Text| #[trigger]
            s.leagues.contains_key(id) && (s.leagues[id].host == actor || s.leagues[id].scorer
                == actor)
        ||| s.council matches Some(c) && represents(c, actor)
    }
}

// The voters of the replicated log.

/// What is wrong with an address of the given peer.
pub open spec fn address_fault(address: Text, peer: Seq<u8>) -> Option<ErrorView> {
    if !text::fits(address, 2048) {
        Some(ErrorView::Capacity)
    } else if outside::target_of_address(address) != Some(Some(peer)) {
        Some(ErrorView::Denied)
    } else {
        None
    }
}

/// What is wrong with the first bad one of the addresses of the given peer.
pub open spec fn addresses_fault(addresses: Seq<Text>, peer: Seq<u8>) -> Option<ErrorView>
    decreases addresses.len(),
{
    if addresses.len() == 0 {
        None
    } else if address_fault(addresses[0], peer) is Some {
        address_fault(addresses[0], peer)
    } else {
        addresses_fault(addresses.drop_first(), peer)
    }
}

/// A voter with a smaller number is the same peer.
pub open spec fn repeats(peers: Map<u64, ConsensusPeerView>, id: u64) -> bool {
    exists|o: u64| #[trigger]
        peers.contains_key(o) && o < id && outside::peer_of_text(peers[o].peer)
            == outside::peer_of_text(peers[id].peer)
}

/// What is wrong with the voter of the given number.
pub open spec fn voter_fault(peers: Map<u64, ConsensusPeerView>, id: u64) -> Option<ErrorView> {
    let voter = peers[id];
    match outside::peer_of_text(voter.peer) {
        None => Some(ErrorView::Denied),
        Some(peer) => if id == 0 || repeats(peers, id) || voter.addresses.len() == 0
            || voter.addresses.len() > 8 {
            Some(ErrorView::Denied)
        } else {
            addresses_fault(voter.addresses, peer)
        },
    }
}

/// What is wrong with a set of voters: its size, or the first bad voter.
pub open spec fn voters_fault(peers: Map<u64, ConsensusPeerView>) -> Option<ErrorView> {
    if peers.len() != 1 && peers.len() != 3 && peers.len() != 5 && peers.len() != 7 {
        Some(ErrorView::Denied)
    } else {
        match collections::first_key::<u64, ConsensusPeerView>(peers, voter_test(peers)) {
            Some(id) => voter_fault(peers, id),
            None => None,
        }
    }
}

pub open spec fn voter_test(peers: Map<u64, ConsensusPeerView>) -> spec_fn(
    u64,
    ConsensusPeerView,
) -> bool {
    |id: u64, p: ConsensusPeerView| voter_fault(peers, id) is Some
}

/// The number was given up, or stands for another peer.
pub open spec fn taken(s: StateView, members: Map<u64, ConsensusPeerView>, id: u64) -> bool {
    s.retired_consensus_ids.contains(id) || (s.consensus_members.contains_key(id)
        && s.consensus_members[id].peer != members[id].peer)
}

pub open spec fn set_voters(
    s: StateView,
    admin: bool,
    members: Map<u64, ConsensusPeerView>,
) -> Outcome<StateView> {
    if !admin {
        denied()
    } else if voters_fault(members) is Some {
        Err(voters_fault(members)->0)
    } else if exists|id: u64| #[trigger] members.contains_key(id) && taken(s, members, id) {
        denied()
    } else {
        Ok(
            StateView {
                retired_consensus_ids: s.retired_consensus_ids.union(
                    s.consensus_members.dom().difference(members.dom()),
                ),
                consensus_members: members,
                ..s
            },
        )
    }
}

// Leagues.

pub open spec fn team_of(l: LeagueView, member: Text) -> Option<Text> {
    collections::first_key::<String, TeamView>(l.teams, roster_test(member))
}

pub open spec fn roster_test(member: Text) -> spec_fn(Text, TeamView) -> bool {
    |id: Text, t: TeamView| t.members.contains(member)
}

pub open spec fn plays_for_registered_team(l: LeagueView, member: Text) -> bool {
    team_of(l, member) matches Some(team) && l.teams[team].registered
}

/// A position among the seats of a team that the member occupies.
pub open spec fn sits_at(seats: Seq<SeatView>, member: Text, i: int) -> bool {
    0 <= i < seats.len() && seats[i].player == member
}

pub open spec fn seated(seats: Seq<SeatView>, member: Text) -> bool {
    exists|i: int| #[trigger] sits_at(seats, member, i)
}

/// The first of the seats that the member occupies.
pub open spec fn first_seat(seats: Seq<SeatView>, member: Text) -> SeatView
    decreases seats.len(),
{
    if seats.len() <= 1 || seats[0].player == member {
        seats[0]
    } else {
        first_seat(seats.drop_first(), member)
    }
}

/// The first team that has a seat for the member.
pub open spec fn seat_team(l: LeagueView, member: Text) -> Option<Text> {
    collections::first_key::<String, Seq<SeatView>>(l.seats, seat_test(member))
}

pub open spec fn seat_test(member: Text) -> spec_fn(Text, Seq<SeatView>) -> bool {
    |id: Text, seats: Seq<SeatView>| seated(seats, member)
}

pub open spec fn route(l: LeagueView, member: Text) -> RouteView {
    if l.phase != Phase::Playing {
        RouteView::Unavailable
    } else {
        match seat_team(l, member) {
            Some(team) => RouteView::Match {
                team,
                epoch: first_seat(l.seats[team], member).epoch,
            },
            None => if plays_for_registered_team(l, member) {
                RouteView::Waiting
            } else {
                RouteView::Unavailable
            },
        }
    }
}

/// Why the league does not take registrations.
pub open spec fn registration_fault(l: LeagueView, now: u64) -> Option<ErrorView> {
    if l.phase != Phase::Registration {
        Some(ErrorView::Protocol("registration closed"@))
    } else if l.schedule matches Some(w) && (now < w.opens_ms || now >= w.closes_ms) {
        Some(ErrorView::Denied)
    } else {
        None
    }
}

pub open spec fn create_league(
    s: StateView,
    actor: Text,
    admin: bool,
    league: Text,
    rules: Rules,
    host: Text,
    scorer: Text,
) -> Outcome<StateView> {
    if !admin {
        denied()
    } else if !text::is_identifier(league) {
        refused("invalid identifier"@)
    } else if !is_peer(host) || !is_peer(scorer) {
        refused("invalid authority PeerId"@)
    } else if !(1 <= rules.seats <= 256 && 1 <= rules.reconnect_min_ms <= rules.reconnect_max_ms
        <= 600_000) {
        refused("invalid league rules"@)
    } else if s.leagues.contains_key(league) {
        refused("league already exists"@)
    } else {
        Ok(
            StateView {
                leagues: s.leagues.insert(league, new_league(actor, rules, host, scorer)),
                ..s
            },
        )
    }
}

pub open spec fn new_league(organizer: Text, rules: Rules, host: Text, scorer: Text) -> LeagueView {
    LeagueView {
        rules,
        organizer,
        host,
        scorer,
        phase: Phase::Registration,
        teams: Map::empty(),
        online: Set::empty(),
        seats: Map::empty(),
        played: Set::empty(),
        player_scores: Map::empty(),
        team_scores: Map::empty(),
        score_events: Map::empty(),
        paused_since: None,
        schedule: None,
        manual_pause: false,
        infrastructure_down: false,
        random_seed: Seq::new(32, |i: int| 0u8),
        draw: 0,
        epoch: 0,
        health: Map::empty(),
    }
}

/// A team of that name takes part in another league of a season of this league, under
/// another captain.
pub open spec fn name_taken(s: StateView, league: Text, team: Text, player: Option<Text>) -> bool {
    exists|season: Text, other: Text|
        #![trigger s.seasons.contains_key(season), s.leagues.contains_key(other)]
        {
            &&& s.seasons.contains_key(season)
            &&& s.leagues.contains_key(other)
            &&& s.seasons[season].leagues.contains(league)
            &&& s.seasons[season].leagues.contains(other)
            &&& other != league
            &&& s.leagues[other].teams.contains_key(team)
            &&& Some(s.leagues[other].teams[team].captain) != player
        }
}

pub open spec fn create_team(l: LeagueView, now: u64, player: Option<Text>, team: Text) -> Outcome<
    LeagueView,
> {
    if registration_fault(l, now) is Some {
        Err(registration_fault(l, now)->0)
    } else if !text::is_identifier(team) {
        refused("invalid identifier"@)
    } else {
        match player {
            None => denied(),
            Some(p) => if team_of(l, p) is Some || l.teams.contains_key(team) {
                refused("already in a team or team exists"@)
            } else {
                Ok(
                    LeagueView {
                        teams: l.teams.insert(
                            team,
                            TeamView {
                                captain: p,
                                members: Set::empty().insert(p),
                                invited: Set::empty(),
                                registered: false,
                            },
                        ),
                        ..l
                    },
                )
            },
        }
    }
}

pub open spec fn invite(
    members: Map<Text, MemberView>,
    l: LeagueView,
    now: u64,
    player: Option<Text>,
    team: Text,
    member: Text,
) -> Outcome<LeagueView> {
    if registration_fault(l, now) is Some {
        Err(registration_fault(l, now)->0)
    } else if !members.contains_key(member) || !l.teams.contains_key(team) {
        missing()
    } else if Some(l.teams[team].captain) != player {
        denied()
    } else {
        let t = l.teams[team];
        Ok(
            LeagueView {
                teams: l.teams.insert(team, TeamView { invited: t.invited.insert(member), ..t }),
                ..l
            },
        )
    }
}

pub open spec fn accept(
    members: Map<Text, MemberView>,
    l: LeagueView,
    now: u64,
    player: Option<Text>,
    team: Text,
) -> Outcome<LeagueView> {
    if registration_fault(l, now) is Some {
        Err(registration_fault(l, now)->0)
    } else {
        match player {
            None => denied(),
            Some(p) => if team_of(l, p) is Some {
                refused("member already belongs to a team"@)
            } else if !l.teams.contains_key(team) {
                missing()
            } else {
                let t = l.teams[team];
                if !t.invited.contains(p) {
                    denied()
                } else if !l.rules.cross_club && members[p].club != members[t.captain].club {
                    refused("cross-club teams disabled"@)
                } else {
                    Ok(
                        LeagueView {
                            teams: l.teams.insert(
                                team,
                                TeamView {
                                    invited: t.invited.remove(p),
                                    members: t.members.insert(p),
                                    registered: false,
                                    ..t
                                },
                            ),
                            ..l
                        },
                    )
                }
            },
        }
    }
}

pub open spec fn register(l: LeagueView, now: u64, player: Option<Text>, team: Text) -> Outcome<
    LeagueView,
> {
    if registration_fault(l, now) is Some {
        Err(registration_fault(l, now)->0)
    } else if !l.teams.contains_key(team) {
        missing()
    } else if Some(l.teams[team].captain) != player {
        denied()
    } else {
        Ok(
            LeagueView {
                teams: l.teams.insert(team, TeamView { registered: true, ..l.teams[team] }),
                ..l
            },
        )
    }
}

// Seats.

/// A number as eight bytes, the most significant one first.
pub open spec fn be_bytes(n: u64) -> Seq<u8> {
    Seq::new(8, |i: int| ((n >> ((56 - 8 * i) as u64)) & 0xff) as u8)
}

/// What the lot of a player in a draw is made from.
pub open spec fn lot(seed: Seq<u8>, draw: u64, player: Text) -> Seq<u8> {
    outside::sha256(seed + be_bytes(draw) + encode_utf8(player))
}

/// In the given draw, `a` comes before `b`: its lot is smaller, or it is the same and so
/// the name decides.
pub open spec fn drawn_before(seed: Seq<u8>, draw: u64, a: Text, b: Text) -> bool {
    ||| order::bytes_before(lot(seed, draw, a), lot(seed, draw, b))
    ||| lot(seed, draw, a) == lot(seed, draw, b) && order::text_before(a, b)
}

/// The player can take a seat of the team.
pub open spec fn eligible(l: LeagueView, team: Text, player: Text) -> bool {
    &&& l.teams[team].members.contains(player)
    &&& l.online.contains(player)
    &&& !seated(l.seats[team], player)
}

/// The player is the one that the draw for a seat of the team selects.
pub open spec fn is_drawn(l: LeagueView, team: Text, player: Text) -> bool {
    &&& eligible(l, team, player)
    &&& forall|o: Text| #[trigger]
        eligible(l, team, o) && o != player ==> drawn_before(l.random_seed, l.draw, player, o)
}

pub open spec fn draw(l: LeagueView, team: Text) -> Option<Text> {
    if exists|player: Text| is_drawn(l, team, player) {
        Some(choose|player: Text| is_drawn(l, team, player))
    } else {
        None
    }
}

/// The player takes a further seat of the team.
pub open spec fn take_seat(l: LeagueView, team: Text, player: Text) -> LeagueView {
    let epoch = (l.epoch + 1) as u64;
    LeagueView {
        draw: (l.draw + 1) as u64,
        epoch,
        played: l.played.insert(player),
        seats: l.seats.insert(
            team,
            l.seats[team].push(SeatView { player, epoch, disconnected_until: None }),
        ),
        ..l
    }
}

/// Seats are given to drawn players while the team has free seats and eligible players.
pub open spec fn fill_team(l: LeagueView, team: Text) -> Outcome<LeagueView>
    decreases l.rules.seats - l.seats[team].len(),
{
    if l.seats[team].len() >= l.rules.seats {
        Ok(l)
    } else {
        match draw(l, team) {
            None => Ok(l),
            Some(player) => if l.draw == u64::MAX {
                refused("draw overflow"@)
            } else if l.epoch == u64::MAX {
                refused("seat epoch overflow"@)
            } else {
                fill_team(take_seat(l, team, player), team)
            },
        }
    }
}

/// The first `n` of the teams fill their seats, one after the other.
pub open spec fn fill_teams(l: LeagueView, teams: Seq<Text>, n: nat) -> Outcome<LeagueView>
    decreases n,
{
    if n == 0 {
        Ok(l)
    } else {
        match fill_teams(l, teams, (n - 1) as nat) {
            Ok(next) => fill_team(next, teams[n - 1]),
            Err(e) => Err(e),
        }
    }
}

/// Every team with seats, in the order of the names, fills its free ones.
pub open spec fn fill_vacancies(l: LeagueView) -> Outcome<LeagueView> {
    let teams = collections::keys_of::<String, Seq<SeatView>>(l.seats);
    fill_teams(l, teams, teams.len())
}

/// The seat is still held at the given time.
pub open spec fn held(seat: SeatView, now: u64) -> bool {
    seat.disconnected_until matches Some(until) ==> until > now
}

/// Only the seats that are still held.
pub open spec fn kept(seats: Seq<SeatView>, now: u64) -> Seq<SeatView> {
    seats.filter(|seat: SeatView| held(seat, now))
}

pub open spec fn vacated(l: LeagueView, now: u64) -> LeagueView {
    LeagueView { seats: l.seats.map_values(|seats: Seq<SeatView>| kept(seats, now)), ..l }
}

pub open spec fn replace_expired(l: LeagueView, now: u64) -> Outcome<LeagueView> {
    fill_vacancies(vacated(l, now))
}

/// How long a seat is kept for a player with such a connection. Observed recovery time
/// counts beside the round trip.
pub open spec fn grace(h: ConnectionHealth, rules: Rules) -> u64 {
    let measured = saturated(8 * h.rtt_ms + 4 * h.jitter_ms + 2 * h.recovery_ms);
    if measured < rules.reconnect_min_ms {
        rules.reconnect_min_ms
    } else if measured > rules.reconnect_max_ms {
        rules.reconnect_max_ms
    } else {
        measured
    }
}

/// What becomes of a seat when a member connects or disconnects.
pub open spec fn seat_after_presence(
    seat: SeatView,
    member: Text,
    online: bool,
    until: u64,
) -> SeatView {
    if seat.player != member {
        seat
    } else if online {
        SeatView { disconnected_until: None, ..seat }
    } else if seat.disconnected_until is None {
        SeatView { disconnected_until: Some(until), ..seat }
    } else {
        seat
    }
}

pub open spec fn seats_after_presence(
    seats: Seq<SeatView>,
    member: Text,
    online: bool,
    until: u64,
) -> Seq<SeatView> {
    seats.map_values(|seat: SeatView| seat_after_presence(seat, member, online, until))
}

/// The match goes on and is not paused.
pub open spec fn running(l: LeagueView) -> bool {
    l.phase == Phase::Playing && l.paused_since is None
}

/// The member is online or not, and so are its seats.
pub open spec fn with_presence(
    l: LeagueView,
    member: Text,
    online: bool,
    until: u64,
) -> LeagueView {
    LeagueView {
        online: if online {
            l.online.insert(member)
        } else {
            l.online.remove(member)
        },
        seats: l.seats.map_values(
            |seats: Seq<SeatView>| seats_after_presence(seats, member, online, until),
        ),
        ..l
    }
}

pub open spec fn presence(
    members: Map<Text, MemberView>,
    l: LeagueView,
    actor: Text,
    now: u64,
    member: Text,
    online: bool,
    health: ConnectionHealth,
) -> Outcome<LeagueView> {
    if actor != l.host || !members.contains_key(member) {
        denied()
    } else if l.phase == Phase::Finished {
        refused("league finished"@)
    } else if health.rtt_ms > 60_000 || health.jitter_ms > 60_000 || health.recovery_ms > 600_000 {
        refused("invalid measured health"@)
    } else {
        let measured = LeagueView { health: l.health.insert(member, health), ..l };
        let current = if running(l) {
            replace_expired(measured, now)
        } else {
            Ok(measured)
        };
        match current {
            Err(e) => Err(e),
            Ok(settled) => {
                let until = saturated(now + grace(health, l.rules));
                let next = with_presence(settled, member, online, until);
                if online && running(next) {
                    fill_vacancies(next)
                } else {
                    Ok(next)
                }
            },
        }
    }
}

/// The member belongs to a registered team.
pub open spec fn rostered(l: LeagueView, member: Text) -> bool {
    exists|team: Text| #[trigger]
        l.teams.contains_key(team) && l.teams[team].registered && l.teams[team].members.contains(
            member,
        )
}

pub open spec fn is_registered(l: LeagueView, team: Text) -> bool {
    l.teams.contains_key(team) && l.teams[team].registered
}

/// The match begins: every registered team gets seats, and every score starts at zero.
pub open spec fn kicked_off(l: LeagueView, seed: Seq<u8>) -> LeagueView {
    LeagueView {
        random_seed: seed,
        phase: Phase::Playing,
        seats: l.seats.union_prefer_right(
            Map::new(|team: Text| is_registered(l, team), |team: Text| Seq::<SeatView>::empty()),
        ),
        team_scores: l.team_scores.union_prefer_right(
            Map::new(|team: Text| is_registered(l, team), |team: Text| 0i64),
        ),
        player_scores: l.player_scores.union_prefer_right(
            Map::new(|p: Text| rostered(l, p), |p: Text| 0i64),
        ),
        ..l
    }
}

pub open spec fn start(l: LeagueView, actor: Text, now: u64, seed: Seq<u8>) -> Outcome<
    LeagueView,
> {
    if actor != l.organizer {
        denied()
    } else if l.phase != Phase::Registration {
        refused("registration closed"@)
    } else if l.schedule matches Some(w) && now < w.starts_ms {
        denied()
    } else {
        fill_vacancies(kicked_off(l, seed))
    }
}

pub open spec fn tick(l: LeagueView, actor: Text, now: u64) -> Outcome<LeagueView> {
    if actor != l.host {
        denied()
    } else if l.phase != Phase::Playing {
        refused("not playing"@)
    } else if l.paused_since is None {
        replace_expired(l, now)
    } else {
        Ok(l)
    }
}

/// The deadline of a seat moves by the length of a pause.
pub open spec fn extended(seat: SeatView, pause: int) -> SeatView {
    match seat.disconnected_until {
        Some(until) => SeatView { disconnected_until: Some(saturated(until + pause)), ..seat },
        None => seat,
    }
}

pub open spec fn all_extended(seats: Seq<SeatView>, pause: int) -> Seq<SeatView> {
    seats.map_values(|seat: SeatView| extended(seat, pause))
}

/// The time between two moments, if the second one is not before the first.
pub open spec fn elapsed(from: u64, to: u64) -> int {
    if to > from {
        to - from
    } else {
        0
    }
}

/// A pause begins, goes on or ends, as the two reasons for it say.
pub open spec fn update_pause(l: LeagueView, now: u64) -> LeagueView {
    if l.manual_pause || l.infrastructure_down {
        LeagueView {
            paused_since: if l.paused_since is Some {
                l.paused_since
            } else {
                Some(now)
            },
            ..l
        }
    } else {
        match l.paused_since {
            None => l,
            Some(since) => LeagueView {
                paused_since: None,
                seats: l.seats.map_values(
                    |seats: Seq<SeatView>| all_extended(seats, elapsed(since, now)),
                ),
                ..l
            },
        }
    }
}

pub open spec fn infrastructure(l: LeagueView, actor: Text, now: u64, healthy: bool) -> Outcome<
    LeagueView,
> {
    if actor != l.host {
        denied()
    } else {
        Ok(update_pause(LeagueView { infrastructure_down: !healthy, ..l }, now))
    }
}

// Scores.

/// The sum does not fit.
pub open spec fn overflows(a: i64, b: i64) -> bool {
    a + b > i64::MAX || a + b < i64::MIN
}

/// Why a score cannot change by `delta`. With `allowed`, only what is in it may change.
pub open spec fn delta_fault(
    scores: Map<Text, i64>,
    allowed: Option<Set<Text>>,
    stranger: ErrorView,
    overflow: ErrorView,
    id: Text,
    delta: i64,
) -> Option<ErrorView> {
    if allowed matches Some(set) && !set.contains(id) {
        Some(stranger)
    } else if !scores.contains_key(id) {
        Some(ErrorView::NotFound)
    } else if overflows(scores[id], delta) {
        Some(overflow)
    } else {
        None
    }
}

/// The scores with the changes.
pub open spec fn changed(scores: Map<Text, i64>, deltas: Map<Text, i64>) -> Map<Text, i64> {
    Map::new(
        |id: Text| scores.contains_key(id),
        |id: Text|
            if deltas.contains_key(id) {
                (scores[id] + deltas[id]) as i64
            } else {
                scores[id]
            },
    )
}

/// The scores with the changes, or what is wrong with the first change that cannot be made.
pub open spec fn add_deltas(
    scores: Map<Text, i64>,
    deltas: Map<Text, i64>,
    allowed: Option<Set<Text>>,
    stranger: ErrorView,
    overflow: ErrorView,
) -> Outcome<Map<Text, i64>> {
    match collections::first_key::<String, i64>(
        deltas,
        delta_test(scores, allowed, stranger, overflow),
    ) {
        Some(id) => Err(delta_fault(scores, allowed, stranger, overflow, id, deltas[id])->0),
        None => Ok(changed(scores, deltas)),
    }
}

pub open spec fn delta_test(
    scores: Map<Text, i64>,
    allowed: Option<Set<Text>>,
    stranger: ErrorView,
    overflow: ErrorView,
) -> spec_fn(Text, i64) -> bool {
    |id: Text, delta: i64| delta_fault(scores, allowed, stranger, overflow, id, delta) is Some
}

/// Both score maps of the league change, the players' one first.
pub open spec fn rescored(
    l: LeagueView,
    players: Map<Text, i64>,
    teams: Map<Text, i64>,
    stranger: ErrorView,
    overflow: ErrorView,
) -> Outcome<LeagueView> {
    match add_deltas(l.player_scores, players, Some(l.played), stranger, overflow) {
        Err(e) => Err(e),
        Ok(player_scores) => match add_deltas(l.team_scores, teams, None, stranger, overflow) {
            Err(e) => Err(e),
            Ok(team_scores) => Ok(LeagueView { player_scores, team_scores, ..l }),
        },
    }
}

/// One of the sixteen digits.
pub open spec fn hex_digit(n: u8) -> char {
    if n < 10 {
        (48 + n) as char
    } else {
        (87 + n) as char
    }
}

/// Two digits for each byte.
pub open spec fn hex(bytes: Seq<u8>) -> Text {
    Seq::new(
        2 * bytes.len(),
        |i: int|
            if i % 2 == 0 {
                hex_digit(bytes[i / 2] / 16)
            } else {
                hex_digit(bytes[i / 2] % 16)
            },
    )
}

pub open spec fn digest(bytes: Seq<u8>) -> Text {
    hex(outside::sha256(bytes))
}

pub open spec fn score(
    l: LeagueView,
    actor: Text,
    event: Text,
    players: Map<Text, i64>,
    teams: Map<Text, i64>,
) -> Outcome<LeagueView> {
    let mark = digest(outside::score_json(players, teams));
    if actor != l.scorer {
        denied()
    } else if !text::is_identifier(event) {
        refused("invalid identifier"@)
    } else if l.score_events.contains_key(event) {
        if l.score_events[event] == mark {
            Ok(l)
        } else {
            refused("score event id reused with different payload"@)
        }
    } else if l.phase != Phase::Playing {
        refused("not playing"@)
    } else {
        match rescored(
            l,
            players,
            teams,
            ErrorView::Protocol("player has not participated"@),
            ErrorView::Protocol("score overflow"@),
        ) {
            Err(e) => Err(e),
            Ok(next) => Ok(
                LeagueView { score_events: next.score_events.insert(event, mark), ..next },
            ),
        }
    }
}

pub open spec fn finish(l: LeagueView, actor: Text) -> Outcome<LeagueView> {
    if actor != l.scorer {
        denied()
    } else if l.phase == Phase::Registration {
        refused("not started"@)
    } else {
        Ok(LeagueView { phase: Phase::Finished, ..l })
    }
}

/// What a command to one league does to the league.
pub open spec fn league_step(
    members: Map<Text, MemberView>,
    l: LeagueView,
    actor: Text,
    player: Option<Text>,
    now: u64,
    action: ActionView,
) -> Outcome<LeagueView> {
    match action {
        ActionView::CreateTeam { league, team } => create_team(l, now, player, team),
        ActionView::Invite { league, team, member } => invite(
            members,
            l,
            now,
            player,
            team,
            member,
        ),
        ActionView::Accept { league, team } => accept(members, l, now, player, team),
        ActionView::Register { league, team } => register(l, now, player, team),
        ActionView::Presence { league, member, online, health } => presence(
            members,
            l,
            actor,
            now,
            member,
            online,
            health,
        ),
        ActionView::Start { league, seed } => start(l, actor, now, seed),
        ActionView::Tick { league } => tick(l, actor, now),
        ActionView::Infrastructure { league, healthy } => infrastructure(l, actor, now, healthy),
        ActionView::Score { league, event, players, teams } => score(
            l,
            actor,
            event,
            players,
            teams,
        ),
        ActionView::Finish { league } => finish(l, actor),
        _ => refused("unsupported action"@),
    }
}

/// The league that a command is for.
pub open spec fn league_id(action: ActionView) -> Option<Text> {
    match action {
        ActionView::CreateTeam { league, team } => Some(league),
        ActionView::Invite { league, team, member } => Some(league),
        ActionView::Accept { league, team } => Some(league),
        ActionView::Register { league, team } => Some(league),
        ActionView::Presence { league, member, online, health } => Some(league),
        ActionView::Start { league, seed } => Some(league),
        ActionView::Tick { league } => Some(league),
        ActionView::Infrastructure { league, healthy } => Some(league),
        ActionView::Score { league, event, players, teams } => Some(league),
        ActionView::Finish { league } => Some(league),
        _ => None,
    }
}

/// What a command to one league does.
pub open spec fn league_transition(
    s: StateView,
    actor: Text,
    now: u64,
    action: ActionView,
) -> Outcome<StateView> {
    let player = owner(s.members, actor);
    let id = league_id(action)->0;
    if action is CreateTeam && name_taken(s, id, action->CreateTeam_team, player) {
        refused("season team name belongs to another captain"@)
    } else if !s.leagues.contains_key(id) {
        missing()
    } else {
        match league_step(s.members, s.leagues[id], actor, player, now, action) {
            Ok(next) => Ok(StateView { leagues: s.leagues.insert(id, next), ..s }),
            Err(e) => Err(e),
        }
    }
}

// Seasons.

pub open spec fn create_season(s: StateView, admin: bool, id: Text, title: Text) -> Outcome<
    StateView,
> {
    if !admin || s.seasons.contains_key(id) || s.seasons.len() >= 1024 || !text::is_text(id, 128)
        || !text::is_text(title, 256) {
        denied()
    } else {
        Ok(
            StateView {
                seasons: s.seasons.insert(id, SeasonView { title, leagues: Set::empty() }),
                ..s
            },
        )
    }
}

/// Another season has the league.
pub open spec fn in_other_season(s: StateView, season: Text, league: Text) -> bool {
    exists|id: Text| #[trigger]
        s.seasons.contains_key(id) && id != season && s.seasons[id].leagues.contains(league)
}

pub open spec fn any_registered(l: LeagueView) -> bool {
    exists|id: Text| #[trigger] l.teams.contains_key(id) && l.teams[id].registered
}

pub open spec fn schedule_league(
    s: StateView,
    admin: bool,
    now: u64,
    season: Text,
    league: Text,
    schedule: Schedule,
) -> Outcome<StateView> {
    if !admin || schedule.opens_ms >= schedule.closes_ms || schedule.closes_ms > schedule.starts_ms
        || schedule.closes_ms <= now || in_other_season(s, season, league) {
        denied()
    } else if !s.leagues.contains_key(league) {
        missing()
    } else {
        let l = s.leagues[league];
        if l.phase != Phase::Registration || any_registered(l) {
            denied()
        } else if !s.seasons.contains_key(season) {
            missing()
        } else {
            let held = s.seasons[season];
            Ok(
                StateView {
                    seasons: s.seasons.insert(
                        season,
                        SeasonView { leagues: held.leagues.insert(league), ..held },
                    ),
                    leagues: s.leagues.insert(
                        league,
                        LeagueView { schedule: Some(schedule), ..l },
                    ),
                    ..s
                },
            )
        }
    }
}

pub open spec fn pause_league(
    s: StateView,
    actor: Text,
    now: u64,
    league: Text,
    paused: bool,
) -> Outcome<StateView> {
    if !s.leagues.contains_key(league) {
        missing()
    } else {
        let l = s.leagues[league];
        if actor != l.organizer || l.phase != Phase::Playing {
            denied()
        } else {
            let next = update_pause(LeagueView { manual_pause: paused, ..l }, now);
            Ok(StateView { leagues: s.leagues.insert(league, next), ..s })
        }
    }
}

/// The member has an objection to the league's result that is not settled.
pub open spec fn disputes_already(s: StateView, member: Text, league: Text) -> bool {
    exists|id: Text| #[trigger]
        s.disputes.contains_key(id) && s.disputes[id].member == member && s.disputes[id].league
            == league && s.disputes[id].resolution is None
}

pub open spec fn dispute(
    s: StateView,
    actor: Text,
    now: u64,
    id: Text,
    league: Text,
    reason: Text,
) -> Outcome<StateView> {
    if !text::is_text(id, 128) || !text::is_text(reason, 4096) || s.disputes.contains_key(id)
        || s.disputes.len() >= 10000 {
        denied()
    } else {
        match owner(s.members, actor) {
            None => denied(),
            Some(member) => if !s.leagues.contains_key(league) {
                missing()
            } else if s.leagues[league].phase != Phase::Finished || !plays_for_registered_team(
                s.leagues[league],
                member,
            ) || disputes_already(s, member, league) {
                denied()
            } else {
                Ok(
                    StateView {
                        disputes: s.disputes.insert(
                            id,
                            DisputeView {
                                league,
                                member,
                                reason,
                                created_ms: now,
                                resolution: None,
                            },
                        ),
                        ..s
                    },
                )
            },
        }
    }
}

pub open spec fn resolve(
    s: StateView,
    actor: Text,
    admin: bool,
    now: u64,
    id: Text,
    response: Text,
    players: Map<Text, i64>,
    teams: Map<Text, i64>,
) -> Outcome<StateView> {
    if !admin || !text::is_text(response, 4096) {
        denied()
    } else if !s.disputes.contains_key(id) {
        missing()
    } else {
        let d = s.disputes[id];
        if d.resolution is Some {
            denied()
        } else if !s.leagues.contains_key(d.league) {
            missing()
        } else if s.leagues[d.league].phase != Phase::Finished {
            denied()
        } else {
            match rescored(
                s.leagues[d.league],
                players,
                teams,
                ErrorView::Denied,
                ErrorView::Capacity,
            ) {
                Err(e) => Err(e),
                Ok(next) => Ok(
                    StateView {
                        leagues: s.leagues.insert(d.league, next),
                        disputes: s.disputes.insert(
                            id,
                            DisputeView {
                                resolution: Some(
                                    ResolutionView {
                                        reviewer: actor,
                                        time_ms: now,
                                        response,
                                        players,
                                        teams,
                                    },
                                ),
                                ..d
                            },
                        ),
                        ..s
                    },
                ),
            }
        }
    }
}

/// Totals and further scores together; `None` where a sum does not fit.
pub open spec fn summed(totals: Map<Text, i64>, scores: Map<Text, i64>) -> Option<
    Map<Text, i64>,
> {
    if exists|id: Text| #[trigger]
        scores.contains_key(id) && totals.contains_key(id) && overflows(totals[id], scores[id]) {
        None
    } else {
        Some(
            Map::new(
                |id: Text| totals.contains_key(id) || scores.contains_key(id),
                |id: Text|
                    if totals.contains_key(id) && scores.contains_key(id) {
                        (totals[id] + scores[id]) as i64
                    } else if totals.contains_key(id) {
                        totals[id]
                    } else {
                        scores[id]
                    },
            ),
        )
    }
}

/// The totals of the teams and of the players over the finished ones of the first `n`
/// leagues.
pub open spec fn tally(leagues: Map<Text, LeagueView>, ids: Seq<Text>, n: nat) -> Outcome<
    (Map<Text, i64>, Map<Text, i64>),
>
    decreases n,
{
    if n == 0 {
        Ok((Map::empty(), Map::empty()))
    } else {
        match tally(leagues, ids, (n - 1) as nat) {
            Err(e) => Err(e),
            Ok((teams, players)) => if !leagues.contains_key(ids[n - 1]) {
                missing()
            } else if leagues[ids[n - 1]].phase != Phase::Finished {
                Ok((teams, players))
            } else {
                match (
                    summed(teams, leagues[ids[n - 1]].team_scores),
                    summed(players, leagues[ids[n - 1]].player_scores),
                ) {
                    (Some(more_teams), Some(more_players)) => Ok((more_teams, more_players)),
                    _ => full(),
                }
            },
        }
    }
}

/// `a` stands before `b` in a ranking: it has more points, or as many and a name before.
pub open spec fn outranks(a: (Text, i64), b: (Text, i64)) -> bool {
    a.1 > b.1 || (a.1 == b.1 && order::text_before(a.0, b.0))
}

/// The list ranks exactly the entries of the map.
pub open spec fn is_ranking(totals: Map<Text, i64>, list: Seq<(Text, i64)>) -> bool {
    &&& forall|i: int|
        #![trigger list[i]]
        0 <= i < list.len() ==> totals.contains_key(list[i].0) && totals[list[i].0] == list[i].1
    &&& forall|id: Text| #[trigger]
        totals.contains_key(id) ==> exists|i: int| 0 <= i < list.len() && #[trigger] list[i].0 == id
    &&& forall|i: int, j: int|
        #![trigger list[i], list[j]]
        0 <= i < j < list.len() ==> outranks(list[i], list[j])
}

/// The totals of a season: of the teams, and of the players.
pub open spec fn season_totals(s: StateView, id: Text) -> Outcome<
    (Map<Text, i64>, Map<Text, i64>),
> {
    if !s.seasons.contains_key(id) {
        missing()
    } else {
        let ids = collections::items_of::<String>(s.seasons[id].leagues);
        tally(s.leagues, ids, ids.len())
    }
}

// The council.

/// What a council has to be: its quorums are broad, its schools are named and each have devices
/// of their own, and changes of it wait for some days.
pub open spec fn is_council(c: CouncilView) -> bool {
    let n = c.schools.len();
    &&& 1 <= n <= 128
    &&& 2 * n <= 3 * c.quorum
    &&& c.quorum <= n
    &&& 3 * n <= 4 * c.change_quorum
    &&& c.quorum <= c.change_quorum <= n
    &&& 172_800_000 <= c.cooldown_ms <= 604_800_000
    &&& forall|school: Text| #[trigger]
        c.schools.contains_key(school) ==> is_delegation(school, c.schools[school])
    &&& forall|a: Text, b: Text, device: Text|
        #![trigger c.schools[a].contains(device), c.schools[b].contains(device)]
        c.schools.contains_key(a) && c.schools.contains_key(b) && c.schools[a].contains(device)
            && c.schools[b].contains(device) ==> a == b
}

/// A name and up to sixteen devices that speak for the school.
pub open spec fn is_delegation(school: Text, devices: Set<Text>) -> bool {
    &&& school.len() > 0
    &&& text::fits(school, 128)
    &&& 1 <= devices.len() <= 16
    &&& forall|device: Text| #[trigger] devices.contains(device) ==> is_peer(device)
}

/// The device speaks for some school.
pub open spec fn represents(c: CouncilView, device: Text) -> bool {
    exists|school: Text| #[trigger]
        c.schools.contains_key(school) && c.schools[school].contains(device)
}

/// The school that the device speaks for.
pub open spec fn school_of(c: CouncilView, device: Text) -> Option<Text> {
    collections::first_key::<String, Set<Text>>(c.schools, school_test(device))
}

pub open spec fn school_test(device: Text) -> spec_fn(Text, Set<Text>) -> bool {
    |school: Text, devices: Set<Text>| devices.contains(device)
}

/// The actions that only a council can decide on, once there is one.
pub open spec fn protected(action: ActionView) -> bool {
    ||| action is CreateSeason
    ||| action is ScheduleLeague
    ||| action is ResolveDispute
    ||| action is SetConsensusMembers
    ||| action is GrantAdmin
    ||| action is RevokeAdmin
    ||| action is RotateMemberDevice
    ||| action is Enroll
    ||| action is CreateLeague
    ||| action is UpdateCouncil
}

/// The actions of the council and of the members' polls.
pub open spec fn is_council_action(action: ActionView) -> bool {
    ||| action is InstallCouncil
    ||| action is UpdateCouncil
    ||| action is Propose
    ||| action is ApproveProposal
    ||| action is ExecuteProposal
    ||| action is CancelProposal
    ||| action is CreateBallot
    ||| action is MemberVote
    ||| action is SubmitFeedback
    ||| action is RespondFeedback
}

pub open spec fn install_council(s: StateView, actor: Text, council: CouncilView) -> Outcome<
    StateView,
> {
    if s.council is Some || !s.admins.contains(actor) || !is_council(council) {
        denied()
    } else {
        Ok(StateView { council: Some(CouncilView { epoch: 1, ..council }), ..s })
    }
}

pub open spec fn update_council(s: StateView, approved: bool, council: CouncilView) -> Outcome<
    StateView,
> {
    if !approved || !is_council(council) || s.council is None {
        denied()
    } else if (s.council->0).epoch == u64::MAX {
        full()
    } else {
        let epoch = ((s.council->0).epoch + 1) as u64;
        Ok(StateView { council: Some(CouncilView { epoch, ..council }), ..s })
    }
}

pub open spec fn propose(
    s: StateView,
    actor: Text,
    now: u64,
    id: Text,
    action: ActionView,
    expires_ms: u64,
) -> Outcome<StateView> {
    if !text::is_text(id, 128) || !protected(action) || expires_ms <= now || expires_ms > saturated(
        now + 604_800_000,
    ) || s.proposals.contains_key(id) || s.proposals.len() >= 10000 || s.council is None {
        denied()
    } else {
        let council = s.council->0;
        match school_of(council, actor) {
            None => denied(),
            Some(school) => if action is UpdateCouncil && expires_ms <= saturated(
                now + council.cooldown_ms,
            ) {
                denied()
            } else {
                Ok(
                    StateView {
                        proposals: s.proposals.insert(
                            id,
                            ProposalView {
                                proposer: actor,
                                action,
                                epoch: council.epoch,
                                created_ms: now,
                                expires_ms,
                                approvals: Map::empty().insert(school, actor),
                                executed: false,
                                cancelled: false,
                            },
                        ),
                        ..s
                    },
                )
            },
        }
    }
}

/// The proposal can still be approved or carried out.
pub open spec fn is_open(p: ProposalView, council: CouncilView, now: u64) -> bool {
    p.epoch == council.epoch && p.expires_ms > now && !p.executed && !p.cancelled
}

pub open spec fn approve(s: StateView, actor: Text, now: u64, id: Text) -> Outcome<StateView> {
    if s.council is None {
        denied()
    } else {
        match school_of(s.council->0, actor) {
            None => denied(),
            Some(school) => if !s.proposals.contains_key(id) {
                missing()
            } else {
                let p = s.proposals[id];
                if !is_open(p, s.council->0, now) || p.approvals.contains_key(school) {
                    denied()
                } else {
                    Ok(
                        StateView {
                            proposals: s.proposals.insert(
                                id,
                                ProposalView { approvals: p.approvals.insert(school, actor), ..p },
                            ),
                            ..s
                        },
                    )
                }
            },
        }
    }
}

pub open spec fn cancel(s: StateView, actor: Text, id: Text) -> Outcome<StateView> {
    if !s.proposals.contains_key(id) {
        missing()
    } else {
        let p = s.proposals[id];
        if p.proposer != actor || p.executed || p.cancelled {
            denied()
        } else {
            Ok(
                StateView {
                    proposals: s.proposals.insert(id, ProposalView { cancelled: true, ..p }),
                    ..s
                },
            )
        }
    }
}

/// Each approval was given by a device that still speaks for the school.
pub open spec fn approvals_stand(p: ProposalView, council: CouncilView) -> bool {
    forall|school: Text| #[trigger]
        p.approvals.contains_key(school) ==> school_of(council, p.approvals[school]) == Some(
            school,
        )
}

/// The proposal has what it takes to be carried out.
pub open spec fn is_carried(p: ProposalView, council: CouncilView, now: u64) -> bool {
    &&& is_open(p, council, now)
    &&& p.approvals.len() >= if p.action is UpdateCouncil {
        council.change_quorum
    } else {
        council.quorum
    }
    &&& p.action is UpdateCouncil ==> now >= saturated(p.created_ms + council.cooldown_ms)
    &&& approvals_stand(p, council)
}

pub open spec fn execute(s: StateView, actor: Text, now: u64, id: Text) -> Outcome<StateView> {
    if !can_read(s, actor) || s.council is None {
        denied()
    } else if !s.proposals.contains_key(id) {
        missing()
    } else {
        let p = s.proposals[id];
        if !is_carried(p, s.council->0, now) {
            denied()
        } else {
            match manage(s, p.proposer, true, true, now, p.action) {
                Err(e) => Err(e),
                Ok(next) => if !next.proposals.contains_key(id) {
                    missing()
                } else {
                    Ok(
                        StateView {
                            proposals: next.proposals.insert(
                                id,
                                ProposalView { executed: true, ..next.proposals[id] },
                            ),
                            ..next
                        },
                    )
                },
            }
        }
    }
}

pub open spec fn create_ballot(
    s: StateView,
    actor: Text,
    now: u64,
    id: Text,
    title: Text,
    options: Seq<Text>,
    closes_ms: u64,
) -> Outcome<StateView> {
    let may = s.admins.contains(actor) || (s.council matches Some(c) && school_of(
        c,
        actor,
    ) is Some);
    if !may || !text::is_text(id, 128) || !text::is_text(title, 2048) || options.len() < 2
        || options.len() > 20 || !options.no_duplicates() || closes_ms <= now || closes_ms
        > saturated(now + 2_592_000_000) || s.ballots.contains_key(id) || s.ballots.len() >= 10000
        || exists|i: int| 0 <= i < options.len() && !text::is_text(#[trigger] options[i], 256) {
        denied()
    } else {
        Ok(
            StateView {
                ballots: s.ballots.insert(
                    id,
                    BallotView {
                        title,
                        options,
                        closes_ms,
                        electorate: s.members.dom(),
                        votes: Map::empty(),
                    },
                ),
                ..s
            },
        )
    }
}

pub open spec fn vote(s: StateView, actor: Text, now: u64, id: Text, option: usize) -> Outcome<
    StateView,
> {
    match owner(s.members, actor) {
        None => denied(),
        Some(member) => if !s.ballots.contains_key(id) {
            missing()
        } else {
            let b = s.ballots[id];
            if now >= b.closes_ms || option >= b.options.len() || !b.electorate.contains(member)
                || b.votes.contains_key(member) {
                denied()
            } else {
                Ok(
                    StateView {
                        ballots: s.ballots.insert(
                            id,
                            BallotView { votes: b.votes.insert(member, option), ..b },
                        ),
                        ..s
                    },
                )
            }
        },
    }
}

pub open spec fn submit_feedback(
    s: StateView,
    actor: Text,
    now: u64,
    id: Text,
    category: Text,
    body: Text,
) -> Outcome<StateView> {
    match owner(s.members, actor) {
        None => denied(),
        Some(member) => if !text::is_text(id, 128) || !text::is_text(category, 128)
            || !text::is_text(body, 4096) {
            denied()
        } else if s.feedback.contains_key(id) || s.feedback.len() >= 10000 {
            full()
        } else {
            Ok(
                StateView {
                    feedback: s.feedback.insert(
                        id,
                        FeedbackView {
                            member,
                            category,
                            text: body,
                            created_ms: now,
                            response: None,
                        },
                    ),
                    ..s
                },
            )
        },
    }
}

pub open spec fn respond(s: StateView, actor: Text, id: Text, body: Text) -> Outcome<StateView> {
    if !s.admins.contains(actor) || !text::is_text(body, 4096) {
        denied()
    } else if !s.feedback.contains_key(id) {
        missing()
    } else {
        Ok(
            StateView {
                feedback: s.feedback.insert(
                    id,
                    FeedbackView { response: Some(body), ..s.feedback[id] },
                ),
                ..s
            },
        )
    }
}

// Commands.

/// What a protected action does. With `admin`, the actor may manage the federation; with
/// `approved`, the council stands behind the action.
pub open spec fn manage(
    s: StateView,
    actor: Text,
    admin: bool,
    approved: bool,
    now: u64,
    action: ActionView,
) -> Outcome<StateView> {
    match action {
        ActionView::CreateSeason { id, title } => create_season(s, admin, id, title),
        ActionView::ScheduleLeague { season, league, schedule } => schedule_league(
            s,
            admin,
            now,
            season,
            league,
            schedule,
        ),
        ActionView::ResolveDispute { id, response, players, teams } => resolve(
            s,
            actor,
            admin,
            now,
            id,
            response,
            players,
            teams,
        ),
        ActionView::SetConsensusMembers { members } => set_voters(s, admin, members),
        ActionView::GrantAdmin { device } => grant_admin(s, admin, device),
        ActionView::RevokeAdmin { device } => revoke_admin(s, admin, device),
        ActionView::RotateMemberDevice { member, device } => rotate_device(
            s,
            admin,
            member,
            device,
        ),
        ActionView::Enroll { member, club, device } => enroll(s, admin, member, club, device),
        ActionView::CreateLeague { league, rules, host, scorer } => create_league(
            s,
            actor,
            admin,
            league,
            rules,
            host,
            scorer,
        ),
        ActionView::UpdateCouncil { council } => update_council(s, approved, council),
        _ => denied(),
    }
}

/// What a command of the actor does.
pub open spec fn step(
    s: StateView,
    actor: Text,
    now: u64,
    action: ActionView,
    approved: bool,
) -> Outcome<StateView> {
    if s.council is Some && protected(action) && !approved {
        denied()
    } else if protected(action) {
        manage(s, actor, approved || s.admins.contains(actor), approved, now, action)
    } else {
        match action {
            ActionView::InviteMemberDevice { id, device, expires_ms } => invite_device(
                s,
                actor,
                now,
                id,
                device,
                expires_ms,
            ),
            ActionView::AcceptMemberDevice { id } => accept_device(s, actor, now, id),
            ActionView::RevokeMemberDevice { device } => revoke_device(s, actor, device),
            ActionView::PauseLeague { league, paused } => pause_league(
                s,
                actor,
                now,
                league,
                paused,
            ),
            ActionView::DisputeResult { id, league, reason } => dispute(
                s,
                actor,
                now,
                id,
                league,
                reason,
            ),
            ActionView::InstallCouncil { council } => install_council(s, actor, council),
            ActionView::Propose { id, action, expires_ms } => propose(
                s,
                actor,
                now,
                id,
                *action,
                expires_ms,
            ),
            ActionView::ApproveProposal { id } => approve(s, actor, now, id),
            ActionView::ExecuteProposal { id } => execute(s, actor, now, id),
            ActionView::CancelProposal { id } => cancel(s, actor, id),
            ActionView::CreateBallot { id, title, options, closes_ms } => create_ballot(
                s,
                actor,
                now,
                id,
                title,
                options,
                closes_ms,
            ),
            ActionView::MemberVote { id, option } => vote(s, actor, now, id, option),
            ActionView::SubmitFeedback { id, category, text } => submit_feedback(
                s,
                actor,
                now,
                id,
                category,
                text,
            ),
            ActionView::RespondFeedback { id, text } => respond(s, actor, id, text),
            _ => league_transition(s, actor, now, action),
        }
    }
}

/// What a command does that was made on the given revision at the given time.
pub open spec fn apply(
    s: StateView,
    actor: Text,
    revision: u64,
    now: u64,
    action: ActionView,
) -> Outcome<StateView> {
    if s.revoked_devices.contains(actor) {
        denied()
    } else if revision != s.revision {
        refused("revision conflict"@)
    } else if now < s.clock_ms {
        refused("clock moved backwards"@)
    } else {
        match step(s, actor, now, action, false) {
            Err(e) => Err(e),
            Ok(next) => if next.revision == u64::MAX {
                refused("revision overflow"@)
            } else {
                Ok(StateView { revision: (next.revision + 1) as u64, clock_ms: now, ..next })
            },
        }
    }
}

/// A federation that nothing has happened in yet.
pub open spec fn new_state(admins: Set<Text>) -> StateView {
    StateView {
        revision: 0,
        admins,
        members: Map::empty(),
        leagues: Map::empty(),
        clock_ms: 0,
        council: None,
        consensus_members: Map::empty(),
        retired_consensus_ids: Set::empty(),
        proposals: Map::empty(),
        ballots: Map::empty(),
        feedback: Map::empty(),
        seasons: Map::empty(),
        disputes: Map::empty(),
        device_invitations: Map::empty(),
        revoked_devices: Set::empty(),
    }
}

/// The federation that a set of administrators begins.
pub open spec fn created(admins: Set<Text>) -> Outcome<StateView> {
    if admins.len() == 0 {
        refused("at least one explicit administrator required"@)
    } else if exists|device: Text| #[trigger] admins.contains(device) && !is_peer(device) {
        refused("invalid admin PeerId"@)
    } else {
        Ok(new_state(admins))
    }
}

/// What holds of a league: each team with seats exists, each captain is enrolled, and the
/// bounds on the time for reconnecting are in order.
pub open spec fn league_ok(members: Map<Text, MemberView>, l: LeagueView) -> bool {
    &&& l.rules.reconnect_min_ms <= l.rules.reconnect_max_ms
    &&& l.seats.dom().finite()
    &&& l.teams.dom().finite()
    &&& forall|team: Text| #[trigger] l.seats.contains_key(team) ==> l.teams.contains_key(team)
    &&& forall|team: Text| #[trigger]
        l.teams.contains_key(team) ==> members.contains_key(l.teams[team].captain)
}

/// What holds of every state that commands lead to.
pub open spec fn well_formed(s: StateView) -> bool {
    &&& forall|id: Text| #[trigger] s.leagues.contains_key(id) ==> league_ok(s.members, s.leagues[id])
    &&& forall|id: Text| #[trigger] s.proposals.contains_key(id) ==> protected(s.proposals[id].action)
}

} // verus!
