//! What holds of every league: who plays for whom, and who sits where.
use vstd::prelude::*;

use crate::collections;
use crate::error::ErrorView;
use crate::governance::{ConnectionHealth, Phase};
use crate::model::rules;
use crate::model::views::{ActionView, LeagueView, MemberView, SeatView, TeamView, Text};
use crate::order::Key;

verus! {

/// Filling the seats of a team touches nothing but seats, draws and who has played, and takes
/// none of that back.
pub proof fn lemma_fill_team_keeps(l: LeagueView, team: Text)
    requires
        l.seats.contains_key(team),
    ensures
        rules::fill_team(l, team) matches Ok(next) ==> next == (LeagueView {
            draw: next.draw,
            epoch: next.epoch,
            played: next.played,
            seats: next.seats,
            ..l
        }) && next.seats.dom() == l.seats.dom() && next.epoch >= l.epoch && next.draw >= l.draw
            && l.played.subset_of(next.played),
    decreases l.rules.seats - l.seats[team].len(),
{
    if l.seats[team].len() < l.rules.seats && rules::draw(l, team) is Some && l.draw < u64::MAX
        && l.epoch < u64::MAX {
        let next = rules::take_seat(l, team, rules::draw(l, team)->0);
        assert(next.seats.dom() =~= l.seats.dom());
        lemma_fill_team_keeps(next, team);
    }
}

pub proof fn lemma_fill_teams_keeps(l: LeagueView, teams: Seq<Text>, n: nat)
    requires
        n <= teams.len(),
        forall|i: int| 0 <= i < teams.len() ==> l.seats.contains_key(#[trigger] teams[i]),
    ensures
        rules::fill_teams(l, teams, n) matches Ok(next) ==> next == (LeagueView {
            draw: next.draw,
            epoch: next.epoch,
            played: next.played,
            seats: next.seats,
            ..l
        }) && next.seats.dom() == l.seats.dom() && next.epoch >= l.epoch && next.draw >= l.draw
            && l.played.subset_of(next.played),
    decreases n,
{
    if n > 0 {
        lemma_fill_teams_keeps(l, teams, (n - 1) as nat);
        if rules::fill_teams(l, teams, (n - 1) as nat) is Ok {
            let mid = rules::fill_teams(l, teams, (n - 1) as nat)->Ok_0;
            assert(l.seats.contains_key(teams[n - 1]));
            assert(mid.seats.dom().contains(teams[n - 1]));
            lemma_fill_team_keeps(mid, teams[n - 1]);
        }
    }
}

/// Filling the seats touches nothing but seats, draws and who has played, and takes none of
/// that back.
pub proof fn lemma_fill_keeps(l: LeagueView)
    requires
        l.seats.dom().finite(),
    ensures
        rules::fill_vacancies(l) matches Ok(next) ==> next == (LeagueView {
            draw: next.draw,
            epoch: next.epoch,
            played: next.played,
            seats: next.seats,
            ..l
        }) && next.seats.dom() == l.seats.dom() && next.epoch >= l.epoch && next.draw >= l.draw
            && l.played.subset_of(next.played),
{
    let teams = collections::keys_of::<String, Seq<SeatView>>(l.seats);
    collections::lemma_listable::<String>(l.seats.dom());
    assert forall|i: int| 0 <= i < teams.len() implies l.seats.contains_key(#[trigger] teams[i]) by {
        assert(l.seats.dom().contains(teams[i]));
    }
    lemma_fill_teams_keeps(l, teams, teams.len());
}

/// Nobody plays for two teams, and each captain plays for the own team.
pub open spec fn rosters_apart(l: LeagueView) -> bool {
    &&& forall|a: Text, b: Text, p: Text|
        #![trigger l.teams[a].members.contains(p), l.teams[b].members.contains(p)]
        l.teams.contains_key(a) && l.teams.contains_key(b) && l.teams[a].members.contains(p)
            && l.teams[b].members.contains(p) ==> a == b
    &&& forall|team: Text| #[trigger]
        l.teams.contains_key(team) ==> l.teams[team].members.contains(l.teams[team].captain)
}

/// Nobody plays for two teams, each captain plays for the own team, and everybody who plays
/// is enrolled.
pub open spec fn rosters_sound(members: Map<Text, MemberView>, l: LeagueView) -> bool {
    &&& rosters_apart(l)
    &&& forall|team: Text, p: Text|
        #![trigger l.teams[team].members.contains(p)]
        l.teams.contains_key(team) && l.teams[team].members.contains(p) ==> members.contains_key(p)
}

/// The seats of one team: not too many, for players of the team who are on record as having
/// played, and no player twice.
pub open spec fn seats_sound(l: LeagueView, team: Text) -> bool {
    let seats = l.seats[team];
    &&& l.teams.contains_key(team)
    &&& seats.len() <= l.rules.seats
    &&& forall|i: int|
        #![trigger seats[i]]
        0 <= i < seats.len() ==> l.teams[team].members.contains(seats[i].player)
            && l.played.contains(seats[i].player) && seats[i].epoch <= l.epoch
    &&& forall|i: int, j: int|
        #![trigger seats[i], seats[j]]
        0 <= i < j < seats.len() ==> seats[i].player != seats[j].player
}

/// No two seats of the league have the same epoch.
pub open spec fn epochs_differ(l: LeagueView) -> bool {
    forall|a: Text, b: Text, i: int, j: int|
        #![trigger l.seats[a][i], l.seats[b][j]]
        l.seats.contains_key(a) && l.seats.contains_key(b) && 0 <= i < l.seats[a].len() && 0 <= j
            < l.seats[b].len() && l.seats[a][i].epoch == l.seats[b][j].epoch ==> a == b && i == j
}

/// What holds of the seats of a league at all times.
pub open spec fn seating_sound(l: LeagueView) -> bool {
    &&& forall|team: Text| #[trigger] l.seats.contains_key(team) ==> seats_sound(l, team)
    &&& epochs_differ(l)
}

/// Each team with seats has a score, and so has each of its players and everybody who has
/// played.
pub open spec fn scores_sound(l: LeagueView) -> bool {
    &&& forall|team: Text| #[trigger]
        l.seats.contains_key(team) ==> l.team_scores.contains_key(team)
    &&& forall|team: Text, p: Text|
        #![trigger l.teams[team].members.contains(p)]
        l.seats.contains_key(team) && l.teams[team].members.contains(p)
            ==> l.player_scores.contains_key(p)
    &&& forall|p: Text| #[trigger] l.played.contains(p) ==> l.player_scores.contains_key(p)
}

/// What holds of a league at all times.
pub open spec fn league_sound(members: Map<Text, MemberView>, l: LeagueView) -> bool {
    &&& rules::league_ok(members, l)
    &&& rosters_sound(members, l)
    &&& 1 <= l.rules.seats <= 256
    &&& l.rules.reconnect_max_ms <= 600_000
    &&& seating_sound(l)
    &&& scores_sound(l)
    &&& l.phase == Phase::Registration ==> l.seats.dom() == Set::<Text>::empty()
}

proof fn lemma_take_seat_seating(l: LeagueView, team: Text, player: Text)
    requires
        seating_sound(l),
        l.seats.contains_key(team),
        l.seats[team].len() < l.rules.seats,
        rules::eligible(l, team, player),
        l.epoch < u64::MAX,
        l.draw < u64::MAX,
    ensures
        seating_sound(rules::take_seat(l, team, player)),
{
    let n = rules::take_seat(l, team, player);
    let old_seats = l.seats[team];
    let new_seats = n.seats[team];
    assert(n.seats.dom() =~= l.seats.dom());
    assert(seats_sound(l, team));
    assert forall|t: Text| #[trigger] n.seats.contains_key(t) implies seats_sound(n, t) by {
        assert(l.seats.contains_key(t));
        assert(seats_sound(l, t));
        if t == team {
            assert forall|i: int, j: int| 0 <= i < j < new_seats.len() implies (
            #[trigger] new_seats[i]).player != (#[trigger] new_seats[j]).player by {
                if j == old_seats.len() {
                    if new_seats[i].player == player {
                        assert(rules::sits_at(old_seats, player, i));
                    }
                } else {
                    assert(old_seats[i].player != old_seats[j].player);
                }
            }
            assert forall|i: int| 0 <= i < new_seats.len() implies n.teams[team].members.contains(
                (#[trigger] new_seats[i]).player,
            ) && n.played.contains(new_seats[i].player) && new_seats[i].epoch <= n.epoch by {
                if i < old_seats.len() {
                    assert(new_seats[i] == old_seats[i]);
                }
            }
        } else {
            assert(n.seats[t] == l.seats[t]);
        }
    }
    assert forall|a: Text, b: Text, i: int, j: int|
        #![trigger n.seats[a][i], n.seats[b][j]]
        n.seats.contains_key(a) && n.seats.contains_key(b) && 0 <= i < n.seats[a].len() && 0 <= j
            < n.seats[b].len() && n.seats[a][i].epoch == n.seats[b][j].epoch implies a == b && i
        == j by {
        let fresh_a = a == team && i == old_seats.len();
        let fresh_b = b == team && j == old_seats.len();
        assert(l.seats.contains_key(a) && l.seats.contains_key(b));
        assert(seats_sound(l, a) && seats_sound(l, b));
        if !fresh_a {
            assert(n.seats[a][i] == l.seats[a][i]);
            assert(l.seats[a][i].epoch <= l.epoch);
        }
        if !fresh_b {
            assert(n.seats[b][j] == l.seats[b][j]);
            assert(l.seats[b][j].epoch <= l.epoch);
        }
    }
}

proof fn lemma_take_seat_sound(
    members: Map<Text, MemberView>,
    l: LeagueView,
    team: Text,
    player: Text,
)
    requires
        league_sound(members, l),
        l.seats.contains_key(team),
        l.seats[team].len() < l.rules.seats,
        rules::eligible(l, team, player),
        l.epoch < u64::MAX,
        l.draw < u64::MAX,
    ensures
        league_sound(members, rules::take_seat(l, team, player)),
{
    let n = rules::take_seat(l, team, player);
    lemma_take_seat_seating(l, team, player);
    assert(n.seats.dom() =~= l.seats.dom());
    assert(l.teams[team].members.contains(player));
    assert forall|t: Text| #[trigger] n.seats.contains_key(t) implies l.seats.contains_key(t) by {
        assert(n.seats.dom().contains(t));
    }
}

proof fn lemma_fill_team_sound(members: Map<Text, MemberView>, l: LeagueView, team: Text)
    requires
        league_sound(members, l),
        l.seats.contains_key(team),
    ensures
        rules::fill_team(l, team) matches Ok(next) ==> league_sound(members, next),
    decreases l.rules.seats - l.seats[team].len(),
{
    if l.seats[team].len() < l.rules.seats && rules::draw(l, team) is Some && l.draw < u64::MAX
        && l.epoch < u64::MAX {
        let player = rules::draw(l, team)->0;
        assert(rules::is_drawn(l, team, player));
        lemma_take_seat_sound(members, l, team, player);
        lemma_fill_team_sound(members, rules::take_seat(l, team, player), team);
    }
}

proof fn lemma_fill_teams_sound(
    members: Map<Text, MemberView>,
    l: LeagueView,
    teams: Seq<Text>,
    n: nat,
)
    requires
        league_sound(members, l),
        n <= teams.len(),
        forall|i: int| 0 <= i < teams.len() ==> l.seats.contains_key(#[trigger] teams[i]),
    ensures
        rules::fill_teams(l, teams, n) matches Ok(next) ==> league_sound(members, next),
    decreases n,
{
    if n > 0 {
        lemma_fill_teams_sound(members, l, teams, (n - 1) as nat);
        lemma_fill_teams_keeps(l, teams, (n - 1) as nat);
        if rules::fill_teams(l, teams, (n - 1) as nat) is Ok {
            let mid = rules::fill_teams(l, teams, (n - 1) as nat)->Ok_0;
            assert(l.seats.contains_key(teams[n - 1]));
            assert(mid.seats.dom().contains(teams[n - 1]));
            lemma_fill_team_sound(members, mid, teams[n - 1]);
        }
    }
}

proof fn lemma_fill_sound(members: Map<Text, MemberView>, l: LeagueView)
    requires
        league_sound(members, l),
    ensures
        rules::fill_vacancies(l) matches Ok(next) ==> league_sound(members, next),
{
    let teams = collections::keys_of::<String, Seq<SeatView>>(l.seats);
    collections::lemma_listable::<String>(l.seats.dom());
    assert forall|i: int| 0 <= i < teams.len() implies l.seats.contains_key(#[trigger] teams[i]) by {
        assert(l.seats.dom().contains(teams[i]));
    }
    lemma_fill_teams_sound(members, l, teams, teams.len());
}

proof fn lemma_fill_team_seating(l: LeagueView, team: Text)
    requires
        seating_sound(l),
        l.seats.contains_key(team),
    ensures
        rules::fill_team(l, team) matches Ok(next) ==> seating_sound(next),
    decreases l.rules.seats - l.seats[team].len(),
{
    if l.seats[team].len() < l.rules.seats && rules::draw(l, team) is Some && l.draw < u64::MAX
        && l.epoch < u64::MAX {
        let player = rules::draw(l, team)->0;
        assert(rules::is_drawn(l, team, player));
        lemma_take_seat_seating(l, team, player);
        lemma_fill_team_seating(rules::take_seat(l, team, player), team);
    }
}

proof fn lemma_fill_teams_seating(l: LeagueView, teams: Seq<Text>, n: nat)
    requires
        seating_sound(l),
        n <= teams.len(),
        forall|i: int| 0 <= i < teams.len() ==> l.seats.contains_key(#[trigger] teams[i]),
    ensures
        rules::fill_teams(l, teams, n) matches Ok(next) ==> seating_sound(next),
    decreases n,
{
    if n > 0 {
        lemma_fill_teams_seating(l, teams, (n - 1) as nat);
        lemma_fill_teams_keeps(l, teams, (n - 1) as nat);
        if rules::fill_teams(l, teams, (n - 1) as nat) is Ok {
            let mid = rules::fill_teams(l, teams, (n - 1) as nat)->Ok_0;
            assert(l.seats.contains_key(teams[n - 1]));
            assert(mid.seats.dom().contains(teams[n - 1]));
            lemma_fill_team_seating(mid, teams[n - 1]);
        }
    }
}

pub proof fn lemma_fill_seating(l: LeagueView)
    requires
        seating_sound(l),
        l.seats.dom().finite(),
    ensures
        rules::fill_vacancies(l) matches Ok(next) ==> seating_sound(next),
{
    let teams = collections::keys_of::<String, Seq<SeatView>>(l.seats);
    collections::lemma_listable::<String>(l.seats.dom());
    assert forall|i: int| 0 <= i < teams.len() implies l.seats.contains_key(#[trigger] teams[i]) by {
        assert(l.seats.dom().contains(teams[i]));
    }
    lemma_fill_teams_seating(l, teams, teams.len());
}

/// Each seat that is kept was one of the seats, at the given place, and the places are in
/// order.
proof fn lemma_kept(seats: Seq<SeatView>, now: u64) -> (places: Seq<int>)
    ensures
        places.len() == rules::kept(seats, now).len(),
        places.len() <= seats.len(),
        forall|i: int|
            #![trigger places[i]]
            0 <= i < places.len() ==> 0 <= places[i] < seats.len() && rules::kept(seats, now)[i]
                == seats[places[i]],
        forall|i: int, j: int|
            #![trigger places[i], places[j]]
            0 <= i < j < places.len() ==> places[i] < places[j],
    decreases seats.len(),
{
    reveal(Seq::filter);
    if seats.len() == 0 {
        Seq::empty()
    } else {
        let shorter = seats.drop_last();
        let rest = lemma_kept(shorter, now);
        assert forall|i: int| 0 <= i < rest.len() implies rules::kept(shorter, now)[i]
            == seats[#[trigger] rest[i]] by {
            assert(shorter[rest[i]] == seats[rest[i]]);
        }
        if rules::held(seats.last(), now) {
            let places = rest.push(seats.len() - 1);
            assert(rules::kept(seats, now) =~= rules::kept(shorter, now).push(seats.last()));
            places
        } else {
            assert(rules::kept(seats, now) =~= rules::kept(shorter, now));
            rest
        }
    }
}

pub proof fn lemma_vacated_seating(l: LeagueView, now: u64)
    requires
        seating_sound(l),
    ensures
        seating_sound(rules::vacated(l, now)),
{
    let n = rules::vacated(l, now);
    assert(n.seats.dom() =~= l.seats.dom());
    assert forall|t: Text| #[trigger] n.seats.contains_key(t) implies seats_sound(n, t) by {
        assert(l.seats.contains_key(t));
        assert(seats_sound(l, t));
        let places = lemma_kept(l.seats[t], now);
        let seats = n.seats[t];
        assert forall|i: int| 0 <= i < seats.len() implies n.teams[t].members.contains(
            (#[trigger] seats[i]).player,
        ) && n.played.contains(seats[i].player) && seats[i].epoch <= n.epoch by {
            assert(seats[i] == l.seats[t][places[i]]);
        }
        assert forall|i: int, j: int| 0 <= i < j < seats.len() implies (#[trigger] seats[i]).player
            != (#[trigger] seats[j]).player by {
            assert(places[i] < places[j]);
            assert(l.seats[t][places[i]].player != l.seats[t][places[j]].player);
        }
    }
    assert forall|a: Text, b: Text, i: int, j: int|
        #![trigger n.seats[a][i], n.seats[b][j]]
        n.seats.contains_key(a) && n.seats.contains_key(b) && 0 <= i < n.seats[a].len() && 0 <= j
            < n.seats[b].len() && n.seats[a][i].epoch == n.seats[b][j].epoch implies a == b && i
        == j by {
        assert(l.seats.contains_key(a) && l.seats.contains_key(b));
        let pa = lemma_kept(l.seats[a], now);
        let pb = lemma_kept(l.seats[b], now);
        assert(n.seats[a][i] == l.seats[a][pa[i]]);
        assert(n.seats[b][j] == l.seats[b][pb[j]]);
        assert(a == b && pa[i] == pb[j]);
        // Two lists of places of the same seats are the same.
        let seats = n.seats[a];
        assert(seats_sound(l, a));
        if i < j {
            assert(pa[i] < pa[j]);
            assert(seats[i] == l.seats[a][pa[i]] && seats[j] == l.seats[a][pa[j]]);
            assert(l.seats[a][pa[j]] == l.seats[a][pb[j]]);
            assert(l.seats[a][pa[i]].player != l.seats[a][pa[j]].player);
        } else if j < i {
            assert(pb[j] < pb[i]);
            assert(seats[j] == l.seats[a][pb[j]] && seats[i] == l.seats[a][pb[i]]);
            assert(l.seats[a][pb[j]].player != l.seats[a][pb[i]].player);
        }
    }
}

proof fn lemma_vacated_sound(members: Map<Text, MemberView>, l: LeagueView, now: u64)
    requires
        league_sound(members, l),
    ensures
        league_sound(members, rules::vacated(l, now)),
{
    let n = rules::vacated(l, now);
    lemma_vacated_seating(l, now);
    assert(n.seats.dom() =~= l.seats.dom());
    assert forall|t: Text| #[trigger] n.seats.contains_key(t) implies l.seats.contains_key(t) by {
        assert(n.seats.dom().contains(t));
    }
}

/// A league whose seats have the same occupants and epochs as before, and whose teams have
/// nobody less.
pub proof fn lemma_same_occupants_seating(l: LeagueView, n: LeagueView)
    requires
        seating_sound(l),
        n.rules == l.rules,
        forall|t: Text| #[trigger]
            l.teams.contains_key(t) ==> n.teams.contains_key(t) && l.teams[t].members.subset_of(
                n.teams[t].members,
            ),
        n.played == l.played,
        n.epoch == l.epoch,
        n.seats.dom() == l.seats.dom(),
        forall|t: Text| #[trigger] n.seats.contains_key(t) ==> n.seats[t].len() == l.seats[t].len(),
        forall|t: Text, i: int|
            #![trigger n.seats[t][i]]
            n.seats.contains_key(t) && 0 <= i < n.seats[t].len() ==> n.seats[t][i].player
                == l.seats[t][i].player && n.seats[t][i].epoch == l.seats[t][i].epoch,
    ensures
        seating_sound(n),
{
    assert forall|t: Text| #[trigger] n.seats.contains_key(t) implies l.seats.contains_key(t) by {
        assert(n.seats.dom().contains(t));
    }
    assert forall|t: Text| #[trigger] n.seats.contains_key(t) implies seats_sound(n, t) by {
        assert(seats_sound(l, t));
        let seats = n.seats[t];
        assert forall|i: int| 0 <= i < seats.len() implies n.teams[t].members.contains(
            (#[trigger] seats[i]).player,
        ) && n.played.contains(seats[i].player) && seats[i].epoch <= n.epoch by {
            let before = l.seats[t][i];
            assert(n.seats[t][i].player == before.player);
        }
        assert forall|i: int, j: int| 0 <= i < j < seats.len() implies (#[trigger] seats[i]).player
            != (#[trigger] seats[j]).player by {
            assert(n.seats[t][i].player == l.seats[t][i].player);
            assert(n.seats[t][j].player == l.seats[t][j].player);
        }
    }
    assert forall|a: Text, b: Text, i: int, j: int|
        #![trigger n.seats[a][i], n.seats[b][j]]
        n.seats.contains_key(a) && n.seats.contains_key(b) && 0 <= i < n.seats[a].len() && 0 <= j
            < n.seats[b].len() && n.seats[a][i].epoch == n.seats[b][j].epoch implies a == b && i
        == j by {
        assert(l.seats[a][i].epoch == l.seats[b][j].epoch);
    }
}

/// A league whose seats have the same occupants and epochs as before.
pub proof fn lemma_same_occupants_sound(members: Map<Text, MemberView>, l: LeagueView, n: LeagueView)
    requires
        league_sound(members, l),
        n.rules == l.rules,
        n.teams == l.teams,
        n.played == l.played,
        n.player_scores == l.player_scores,
        n.team_scores == l.team_scores,
        n.epoch == l.epoch,
        n.phase == l.phase || n.phase != Phase::Registration,
        n.seats.dom() == l.seats.dom(),
        forall|t: Text| #[trigger] n.seats.contains_key(t) ==> n.seats[t].len() == l.seats[t].len(),
        forall|t: Text, i: int|
            #![trigger n.seats[t][i]]
            n.seats.contains_key(t) && 0 <= i < n.seats[t].len() ==> n.seats[t][i].player
                == l.seats[t][i].player && n.seats[t][i].epoch == l.seats[t][i].epoch,
    ensures
        league_sound(members, n),
{
    lemma_same_occupants_seating(l, n);
    assert forall|t: Text| #[trigger] n.seats.contains_key(t) implies l.seats.contains_key(t) by {
        assert(n.seats.dom().contains(t));
    }
}

pub proof fn lemma_update_pause_sound(members: Map<Text, MemberView>, l: LeagueView, now: u64)
    requires
        league_sound(members, l),
    ensures
        league_sound(members, rules::update_pause(l, now)),
{
    let n = rules::update_pause(l, now);
    assert(n.seats.dom() =~= l.seats.dom());
    lemma_same_occupants_sound(members, l, n);
}

proof fn lemma_rescored_sound(
    members: Map<Text, MemberView>,
    l: LeagueView,
    player_scores: Map<Text, i64>,
    team_scores: Map<Text, i64>,
)
    requires
        league_sound(members, l),
        player_scores.dom() == l.player_scores.dom(),
        team_scores.dom() == l.team_scores.dom(),
    ensures
        league_sound(members, LeagueView { player_scores, team_scores, ..l }),
{
    let n = LeagueView { player_scores, team_scores, ..l };
    assert forall|t: Text| #[trigger] n.seats.contains_key(t) implies seats_sound(n, t) by {
        assert(seats_sound(l, t));
        assert(team_scores.dom().contains(t));
        assert forall|p: Text| #[trigger] n.teams[t].members.contains(
            p,
        ) implies n.player_scores.contains_key(p) by {
            assert(player_scores.dom().contains(p));
        }
        assert(n.seats[t] == l.seats[t]);
    }
    assert forall|p: Text| #[trigger] n.played.contains(p) implies n.player_scores.contains_key(
        p,
    ) by {
        assert(player_scores.dom().contains(p));
    }
}

proof fn lemma_kicked_off_sound(members: Map<Text, MemberView>, l: LeagueView, seed: Seq<u8>)
    requires
        league_sound(members, l),
        l.phase == Phase::Registration,
    ensures
        league_sound(members, rules::kicked_off(l, seed)),
{
    let n = rules::kicked_off(l, seed);
    assert forall|t: Text| #[trigger] n.seats.contains_key(t) implies rules::is_registered(l, t)
        && n.seats[t] == Seq::<SeatView>::empty() by {
        if !rules::is_registered(l, t) {
            assert(l.seats.dom().contains(t));
        }
    }
    assert forall|t: Text| #[trigger] n.seats.contains_key(t) implies seats_sound(n, t) by {
        assert forall|p: Text| #[trigger] n.teams[t].members.contains(
            p,
        ) implies n.player_scores.contains_key(p) by {
            assert(l.teams.contains_key(t));
            assert(rules::rostered(l, p));
        }
    }
    assert(n.seats.dom().subset_of(l.teams.dom()));
    lemma_registered_finite(l, n);
}

/// The seats of the registered teams are finitely many where the teams are.
pub proof fn lemma_registered_finite(l: LeagueView, n: LeagueView)
    requires
        l.teams.dom().finite(),
        n.seats.dom().subset_of(l.teams.dom()),
    ensures
        n.seats.dom().finite(),
{
    vstd::set_lib::lemma_set_subset_finite(l.teams.dom(), n.seats.dom());
}

/// Who is in no team, by name, is in no team at all.
proof fn lemma_no_team(l: LeagueView, p: Text)
    requires
        l.teams.dom().finite(),
        rules::team_of(l, p) is None,
    ensures
        forall|team: Text| #[trigger]
            l.teams.contains_key(team) ==> !l.teams[team].members.contains(p),
{
    let test = rules::roster_test(p);
    collections::lemma_first_key_absent::<String, TeamView>(l.teams, test);
    assert forall|team: Text| #[trigger]
        l.teams.contains_key(team) implies !l.teams[team].members.contains(p) by {
        assert(!test(team, l.teams[team]));
    }
}

/// A league in registration with another set of teams.
proof fn lemma_new_teams_sound(
    members: Map<Text, MemberView>,
    l: LeagueView,
    teams: Map<Text, TeamView>,
)
    requires
        league_sound(members, l),
        l.phase == Phase::Registration,
        teams.dom().finite(),
        rosters_sound(members, LeagueView { teams, ..l }),
    ensures
        league_sound(members, LeagueView { teams, ..l }),
{
    let n = LeagueView { teams, ..l };
    assert forall|t: Text| #[trigger] n.seats.contains_key(t) implies false by {
        assert(l.seats.dom().contains(t));
    }
    assert forall|t: Text| #[trigger] n.teams.contains_key(t) implies members.contains_key(
        n.teams[t].captain,
    ) by {
        assert(n.teams[t].members.contains(n.teams[t].captain));
    }
}

/// A team that takes in one more member who is in no team.
proof fn lemma_join_sound(
    members: Map<Text, MemberView>,
    l: LeagueView,
    team: Text,
    entry: TeamView,
    p: Text,
)
    requires
        league_sound(members, l),
        l.phase == Phase::Registration,
        members.contains_key(p),
        forall|t: Text| #[trigger] l.teams.contains_key(t) ==> !l.teams[t].members.contains(p),
        entry.members.contains(entry.captain),
        forall|q: Text| #[trigger]
            entry.members.contains(q) ==> q == p || (l.teams.contains_key(team)
                && l.teams[team].members.contains(q)),
    ensures
        league_sound(members, LeagueView { teams: l.teams.insert(team, entry), ..l }),
{
    let teams = l.teams.insert(team, entry);
    let n = LeagueView { teams, ..l };
    assert forall|a: Text, b: Text, q: Text|
        #![trigger n.teams[a].members.contains(q), n.teams[b].members.contains(q)]
        n.teams.contains_key(a) && n.teams.contains_key(b) && n.teams[a].members.contains(q)
            && n.teams[b].members.contains(q) implies a == b by {
        if a != team {
            assert(n.teams[a] == l.teams[a]);
            assert(l.teams.contains_key(a));
        }
        if b != team {
            assert(n.teams[b] == l.teams[b]);
            assert(l.teams.contains_key(b));
        }
        if a != b {
            if a != team && b != team {
                assert(l.teams[a].members.contains(q) && l.teams[b].members.contains(q));
            } else if a == team {
                assert(entry.members.contains(q));
                assert(l.teams[b].members.contains(q));
                assert(q != p);
                assert(l.teams[team].members.contains(q));
            } else {
                assert(entry.members.contains(q));
                assert(l.teams[a].members.contains(q));
                assert(q != p);
                assert(l.teams[team].members.contains(q));
            }
        }
    }
    assert forall|t: Text, q: Text|
        #![trigger n.teams[t].members.contains(q)]
        n.teams.contains_key(t) && n.teams[t].members.contains(q) implies members.contains_key(
        q,
    ) by {
        if t != team {
            assert(l.teams.contains_key(t) && l.teams[t].members.contains(q));
        } else if q != p {
            assert(l.teams[team].members.contains(q));
        }
    }
    assert forall|t: Text| #[trigger] n.teams.contains_key(t) implies n.teams[t].members.contains(
        n.teams[t].captain,
    ) by {
        if t != team {
            assert(l.teams.contains_key(t));
        }
    }
    lemma_new_teams_sound(members, l, teams);
}

/// A team with the same captain and members as before.
proof fn lemma_same_roster_sound(
    members: Map<Text, MemberView>,
    l: LeagueView,
    team: Text,
    entry: TeamView,
)
    requires
        league_sound(members, l),
        l.teams.contains_key(team),
        entry.members == l.teams[team].members,
        entry.captain == l.teams[team].captain,
    ensures
        league_sound(members, LeagueView { teams: l.teams.insert(team, entry), ..l }),
{
    let n = LeagueView { teams: l.teams.insert(team, entry), ..l };
    assert forall|t: Text| #[trigger] n.teams.contains_key(t) implies l.teams.contains_key(t)
        && n.teams[t].members == l.teams[t].members && n.teams[t].captain == l.teams[t].captain by {
    }
    assert forall|a: Text, b: Text, q: Text|
        #![trigger n.teams[a].members.contains(q), n.teams[b].members.contains(q)]
        n.teams.contains_key(a) && n.teams.contains_key(b) && n.teams[a].members.contains(q)
            && n.teams[b].members.contains(q) implies a == b by {
        assert(l.teams[a].members.contains(q) && l.teams[b].members.contains(q));
    }
    assert forall|t: Text, q: Text|
        #![trigger n.teams[t].members.contains(q)]
        n.teams.contains_key(t) && n.teams[t].members.contains(q) implies members.contains_key(
        q,
    ) by {
        assert(l.teams[t].members.contains(q));
    }
    assert forall|t: Text| #[trigger] n.seats.contains_key(t) implies seats_sound(n, t) by {
        assert(seats_sound(l, t));
        assert(n.teams[t].members == l.teams[t].members);
        assert(n.seats[t] == l.seats[t]);
    }
    assert forall|t: Text| #[trigger] n.seats.contains_key(t) implies n.teams.contains_key(t) by {
        assert(seats_sound(l, t));
    }
}

pub proof fn lemma_presence_sound(
    members: Map<Text, MemberView>,
    l: LeagueView,
    actor: Text,
    now: u64,
    member: Text,
    online: bool,
    health: ConnectionHealth,
)
    requires
        league_sound(members, l),
    ensures
        rules::presence(members, l, actor, now, member, online, health) matches Ok(next)
            ==> league_sound(members, next),
{
    let measured = LeagueView { health: l.health.insert(member, health), ..l };
    lemma_same_occupants_sound(members, l, measured);
    lemma_vacated_sound(members, measured, now);
    lemma_fill_sound(members, rules::vacated(measured, now));
    let current = if rules::running(l) {
        rules::replace_expired(measured, now)
    } else {
        Ok(measured)
    };
    if current is Ok {
        let settled = current->Ok_0;
        let until = rules::saturated(now + rules::grace(health, l.rules));
        let next = rules::with_presence(settled, member, online, until);
        assert(next.seats.dom() =~= settled.seats.dom());
        lemma_same_occupants_sound(members, settled, next);
        lemma_fill_sound(members, next);
    }
}

proof fn lemma_deltas_keep_domain(
    scores: Map<Text, i64>,
    deltas: Map<Text, i64>,
    allowed: Option<Set<Text>>,
    stranger: ErrorView,
    overflow: ErrorView,
)
    ensures
        rules::add_deltas(scores, deltas, allowed, stranger, overflow) matches Ok(next)
            ==> next.dom() == scores.dom(),
{
    assert(rules::changed(scores, deltas).dom() =~= scores.dom());
}

/// A correction of scores keeps what holds of leagues.
pub proof fn lemma_rescoring_sound(
    members: Map<Text, MemberView>,
    l: LeagueView,
    players: Map<Text, i64>,
    teams: Map<Text, i64>,
    stranger: ErrorView,
    overflow: ErrorView,
)
    requires
        league_sound(members, l),
    ensures
        rules::rescored(l, players, teams, stranger, overflow) matches Ok(next) ==> league_sound(
            members,
            next,
        ),
{
    lemma_deltas_keep_domain(l.player_scores, players, Some(l.played), stranger, overflow);
    lemma_deltas_keep_domain(l.team_scores, teams, None, stranger, overflow);
    if rules::rescored(l, players, teams, stranger, overflow) is Ok {
        let next = rules::rescored(l, players, teams, stranger, overflow)->Ok_0;
        lemma_rescored_sound(members, l, next.player_scores, next.team_scores);
    }
}

proof fn lemma_score_sound(
    members: Map<Text, MemberView>,
    l: LeagueView,
    actor: Text,
    event: Text,
    players: Map<Text, i64>,
    teams: Map<Text, i64>,
)
    requires
        league_sound(members, l),
    ensures
        rules::score(l, actor, event, players, teams) matches Ok(next) ==> league_sound(
            members,
            next,
        ),
{
    let stranger = ErrorView::Protocol("player has not participated"@);
    let overflow = ErrorView::Protocol("score overflow"@);
    lemma_rescoring_sound(members, l, players, teams, stranger, overflow);
    if rules::score(l, actor, event, players, teams) is Ok && !l.score_events.contains_key(event) {
        let mid = rules::rescored(l, players, teams, stranger, overflow)->Ok_0;
        lemma_same_occupants_sound(
            members,
            mid,
            rules::score(l, actor, event, players, teams)->Ok_0,
        );
    }
}

/// A league with the same teams has the same rosters.
pub proof fn lemma_same_teams_apart(l: LeagueView, n: LeagueView)
    requires
        rosters_apart(l),
        n.teams == l.teams,
    ensures
        rosters_apart(n),
{
}

/// A team that is new, or that another member who is in no team joins, or in which nobody
/// changes.
proof fn lemma_team_apart(l: LeagueView, team: Text, entry: TeamView, p: Text)
    requires
        rosters_apart(l),
        entry.members.contains(entry.captain),
        forall|q: Text| #[trigger]
            entry.members.contains(q) ==> (q == p && forall|t: Text| #[trigger]
                l.teams.contains_key(t) ==> !l.teams[t].members.contains(p)) || (
            l.teams.contains_key(team) && l.teams[team].members.contains(q)),
    ensures
        rosters_apart(LeagueView { teams: l.teams.insert(team, entry), ..l }),
{
    let n = LeagueView { teams: l.teams.insert(team, entry), ..l };
    assert forall|t: Text, q: Text|
        #![trigger n.teams[t].members.contains(q)]
        n.teams.contains_key(t) && n.teams[t].members.contains(q) && t != team implies
        l.teams.contains_key(t) && l.teams[t].members.contains(q) by {
        assert(n.teams[t] == l.teams[t]);
    }
    assert forall|a: Text, b: Text, q: Text|
        #![trigger n.teams[a].members.contains(q), n.teams[b].members.contains(q)]
        n.teams.contains_key(a) && n.teams.contains_key(b) && n.teams[a].members.contains(q)
            && n.teams[b].members.contains(q) implies a == b by {
        if a != b {
            let other = if a == team {
                b
            } else {
                a
            };
            assert(l.teams.contains_key(other) && l.teams[other].members.contains(q));
            if a == team || b == team {
                assert(entry.members.contains(q));
                assert(l.teams.contains_key(team) && l.teams[team].members.contains(q));
            } else {
                assert(l.teams[a].members.contains(q) && l.teams[b].members.contains(q));
            }
        }
    }
    assert forall|t: Text| #[trigger] n.teams.contains_key(t) implies n.teams[t].members.contains(
        n.teams[t].captain,
    ) by {
        if t != team {
            assert(l.teams.contains_key(t));
        }
    }
}

/// Each command to a league keeps rosters apart.
pub proof fn lemma_league_step_rosters(
    members: Map<Text, MemberView>,
    l: LeagueView,
    actor: Text,
    player: Option<Text>,
    now: u64,
    action: ActionView,
)
    requires
        rules::league_ok(members, l),
        rosters_apart(l),
    ensures
        rules::league_step(members, l, actor, player, now, action) matches Ok(next)
            ==> rosters_apart(next),
{
    let result = rules::league_step(members, l, actor, player, now, action);
    if result is Ok {
        let next = result->Ok_0;
        match action {
            ActionView::CreateTeam { league, team } => {
                lemma_no_team(l, player->0);
                lemma_team_apart(l, team, next.teams[team], player->0);
            },
            ActionView::Invite { league, team, member } => {
                lemma_team_apart(l, team, next.teams[team], member);
            },
            ActionView::Accept { league, team } => {
                lemma_no_team(l, player->0);
                lemma_team_apart(l, team, next.teams[team], player->0);
            },
            ActionView::Register { league, team } => {
                lemma_team_apart(l, team, next.teams[team], actor);
            },
            ActionView::Presence { league, member, online, health } => {
                let measured = LeagueView { health: l.health.insert(member, health), ..l };
                let empty = rules::vacated(measured, now);
                assert(empty.seats.dom() =~= l.seats.dom());
                lemma_fill_keeps(empty);
                let settled = if rules::running(l) {
                    rules::replace_expired(measured, now)->Ok_0
                } else {
                    measured
                };
                let until = rules::saturated(now + rules::grace(health, l.rules));
                let seen = rules::with_presence(settled, member, online, until);
                assert(seen.seats.dom() =~= settled.seats.dom());
                lemma_fill_keeps(seen);
                lemma_same_teams_apart(l, next);
            },
            ActionView::Start { league, seed } => {
                let n = rules::kicked_off(l, seed);
                assert(n.seats.dom().subset_of(l.teams.dom())) by {
                    assert forall|t: Text| n.seats.dom().contains(t) implies l.teams.dom().contains(
                        t,
                    ) by {
                        if !rules::is_registered(l, t) {
                            assert(l.seats.contains_key(t));
                        }
                    }
                }
                lemma_registered_finite(l, n);
                lemma_fill_keeps(n);
                lemma_same_teams_apart(l, next);
            },
            ActionView::Tick { league } => {
                let empty = rules::vacated(l, now);
                assert(empty.seats.dom() =~= l.seats.dom());
                lemma_fill_keeps(empty);
                lemma_same_teams_apart(l, next);
            },
            _ => {
                lemma_same_teams_apart(l, next);
            },
        }
    }
}

/// Each command to a league keeps what holds of leagues.
pub proof fn law_league_step_sound(
    members: Map<Text, MemberView>,
    l: LeagueView,
    actor: Text,
    player: Option<Text>,
    now: u64,
    action: ActionView,
)
    requires
        league_sound(members, l),
        player is Some ==> members.contains_key(player->0),
    ensures
        rules::league_step(members, l, actor, player, now, action) matches Ok(next)
            ==> league_sound(members, next),
{
    let result = rules::league_step(members, l, actor, player, now, action);
    if result is Ok {
        let next = result->Ok_0;
        match action {
            ActionView::CreateTeam { league, team } => {
                let p = player->0;
                lemma_no_team(l, p);
                lemma_join_sound(members, l, team, next.teams[team], p);
            },
            ActionView::Invite { league, team, member } => {
                lemma_same_roster_sound(members, l, team, next.teams[team]);
            },
            ActionView::Accept { league, team } => {
                let p = player->0;
                lemma_no_team(l, p);
                assert(l.teams[team].members.contains(l.teams[team].captain));
                lemma_join_sound(members, l, team, next.teams[team], p);
            },
            ActionView::Register { league, team } => {
                lemma_same_roster_sound(members, l, team, next.teams[team]);
            },
            ActionView::Presence { league, member, online, health } => {
                lemma_presence_sound(members, l, actor, now, member, online, health);
            },
            ActionView::Start { league, seed } => {
                lemma_kicked_off_sound(members, l, seed);
                lemma_fill_sound(members, rules::kicked_off(l, seed));
            },
            ActionView::Tick { league } => {
                lemma_vacated_sound(members, l, now);
                lemma_fill_sound(members, rules::vacated(l, now));
            },
            ActionView::Infrastructure { league, healthy } => {
                let mid = LeagueView { infrastructure_down: !healthy, ..l };
                lemma_same_occupants_sound(members, l, mid);
                lemma_update_pause_sound(members, mid, now);
            },
            ActionView::Score { league, event, players, teams } => {
                lemma_score_sound(members, l, actor, event, players, teams);
            },
            ActionView::Finish { league } => {
                lemma_same_occupants_sound(members, l, next);
            },
            _ => {},
        }
    }
}

} // verus!
