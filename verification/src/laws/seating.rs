//! What the rules of a match promise to the players.
use vstd::prelude::*;

use crate::collections;
use crate::error::{ErrorView, Outcome};
use crate::governance::{ConnectionHealth, Phase};
use crate::laws::leagues;
use crate::model::rules;
use crate::model::views::{
    ActionView, LeagueView, MemberView, RouteView, SeatView, StateView, Text,
};
use crate::order::Key;

verus! {

/// The member has a seat of the team with the given epoch.
pub open spec fn holds_seat(l: LeagueView, team: Text, member: Text, epoch: u64) -> bool {
    l.seats.contains_key(team) && exists|i: int|
        0 <= i < l.seats[team].len() && (#[trigger] l.seats[team][i]).player == member
            && l.seats[team][i].epoch == epoch
}

/// Each seat of `next` is a seat of `l`, or has an epoch that `l` has not reached; and each
/// seat of `l` is one of `next`.
pub open spec fn only_adds(l: LeagueView, next: LeagueView) -> bool {
    &&& next.epoch >= l.epoch
    &&& forall|team: Text, member: Text, epoch: u64| #[trigger]
        holds_seat(l, team, member, epoch) ==> holds_seat(next, team, member, epoch)
    &&& forall|team: Text, member: Text, epoch: u64| #[trigger]
        holds_seat(next, team, member, epoch) ==> holds_seat(l, team, member, epoch) || epoch
            > l.epoch
}

proof fn lemma_only_adds_transitive(a: LeagueView, b: LeagueView, c: LeagueView)
    requires
        only_adds(a, b),
        only_adds(b, c),
    ensures
        only_adds(a, c),
{
}

proof fn lemma_take_seat_only_adds(l: LeagueView, team: Text, player: Text)
    requires
        l.seats.contains_key(team),
        l.epoch < u64::MAX,
    ensures
        only_adds(l, rules::take_seat(l, team, player)),
{
    let n = rules::take_seat(l, team, player);
    assert forall|t: Text, m: Text, e: u64| #[trigger] holds_seat(l, t, m, e) implies holds_seat(
        n,
        t,
        m,
        e,
    ) by {
        let i = choose|i: int|
            0 <= i < l.seats[t].len() && (#[trigger] l.seats[t][i]).player == m
                && l.seats[t][i].epoch == e;
        assert(n.seats[t][i] == l.seats[t][i]);
    }
    assert forall|t: Text, m: Text, e: u64| #[trigger] holds_seat(n, t, m, e) implies holds_seat(
        l,
        t,
        m,
        e,
    ) || e > l.epoch by {
        let i = choose|i: int|
            0 <= i < n.seats[t].len() && (#[trigger] n.seats[t][i]).player == m
                && n.seats[t][i].epoch == e;
        if !(t == team && i == l.seats[team].len()) {
            assert(n.seats[t][i] == l.seats[t][i]);
        }
    }
}

proof fn lemma_fill_team_only_adds(l: LeagueView, team: Text)
    requires
        l.seats.contains_key(team),
    ensures
        rules::fill_team(l, team) matches Ok(next) ==> only_adds(l, next),
    decreases l.rules.seats - l.seats[team].len(),
{
    if l.seats[team].len() < l.rules.seats && rules::draw(l, team) is Some && l.draw < u64::MAX
        && l.epoch < u64::MAX {
        let player = rules::draw(l, team)->0;
        let mid = rules::take_seat(l, team, player);
        lemma_take_seat_only_adds(l, team, player);
        lemma_fill_team_only_adds(mid, team);
        if rules::fill_team(mid, team) is Ok {
            lemma_only_adds_transitive(l, mid, rules::fill_team(mid, team)->Ok_0);
        }
    }
}

proof fn lemma_fill_teams_only_adds(l: LeagueView, teams: Seq<Text>, n: nat)
    requires
        n <= teams.len(),
        forall|i: int| 0 <= i < teams.len() ==> l.seats.contains_key(#[trigger] teams[i]),
    ensures
        rules::fill_teams(l, teams, n) matches Ok(next) ==> only_adds(l, next),
    decreases n,
{
    if n > 0 {
        let m = (n - 1) as nat;
        lemma_fill_teams_only_adds(l, teams, m);
        leagues::lemma_fill_teams_keeps(l, teams, m);
        if rules::fill_teams(l, teams, m) is Ok {
            let mid = rules::fill_teams(l, teams, m)->Ok_0;
            assert(l.seats.contains_key(teams[n - 1]));
            assert(mid.seats.dom().contains(teams[n - 1]));
            lemma_fill_team_only_adds(mid, teams[n - 1]);
            if rules::fill_team(mid, teams[n - 1]) is Ok {
                lemma_only_adds_transitive(l, mid, rules::fill_team(mid, teams[n - 1])->Ok_0);
            }
        }
    }
}

/// Free seats are filled without touching taken ones, and a new seat has a new epoch: a player
/// who was replaced cannot be mistaken for the one who has the seat now.
pub proof fn law_new_seats_have_new_epochs(l: LeagueView)
    requires
        l.seats.dom().finite(),
    ensures
        rules::fill_vacancies(l) matches Ok(next) ==> only_adds(l, next),
{
    let teams = collections::keys_of::<String, Seq<SeatView>>(l.seats);
    collections::lemma_listable::<String>(l.seats.dom());
    assert forall|i: int| 0 <= i < teams.len() implies l.seats.contains_key(#[trigger] teams[i]) by {
        assert(l.seats.dom().contains(teams[i]));
    }
    lemma_fill_teams_only_adds(l, teams, teams.len());
}

/// A seat that is still held is not vacated.
proof fn lemma_held_is_kept(seats: Seq<SeatView>, now: u64, i: int) -> (j: int)
    requires
        0 <= i < seats.len(),
        rules::held(seats[i], now),
    ensures
        0 <= j < rules::kept(seats, now).len(),
        rules::kept(seats, now)[j] == seats[i],
    decreases seats.len(),
{
    reveal(Seq::filter);
    let shorter = seats.drop_last();
    if i == seats.len() - 1 {
        assert(rules::kept(seats, now) =~= rules::kept(shorter, now).push(seats.last()));
        rules::kept(shorter, now).len() as int
    } else {
        assert(shorter[i] == seats[i]);
        lemma_held_is_kept(shorter, now, i)
    }
}

/// A seat that is not held any more is vacated.
proof fn lemma_kept_is_held(seats: Seq<SeatView>, now: u64, j: int)
    requires
        0 <= j < rules::kept(seats, now).len(),
    ensures
        rules::held(rules::kept(seats, now)[j], now),
        seats.contains(rules::kept(seats, now)[j]),
    decreases seats.len(),
{
    reveal(Seq::filter);
    let shorter = seats.drop_last();
    let fewer = rules::kept(shorter, now);
    if j < fewer.len() {
        lemma_kept_is_held(shorter, now, j);
        assert(rules::kept(seats, now)[j] == fewer[j]);
        let i = shorter.index_of(fewer[j]);
        assert(seats[i] == fewer[j]);
    } else {
        assert(seats[seats.len() - 1] == seats.last());
    }
}

/// Who has a seat is sent to the match, with the epoch of the seat.
pub proof fn law_seat_holders_are_sent_to_the_match(
    members: Map<Text, MemberView>,
    l: LeagueView,
    team: Text,
    member: Text,
    epoch: u64,
)
    requires
        leagues::league_sound(members, l),
        l.phase == Phase::Playing,
        holds_seat(l, team, member, epoch),
    ensures
        rules::route(l, member) == (RouteView::Match { team, epoch }),
{
    let i = choose|i: int|
        0 <= i < l.seats[team].len() && (#[trigger] l.seats[team][i]).player == member
            && l.seats[team][i].epoch == epoch;
    let test = rules::seat_test(member);
    assert(leagues::seats_sound(l, team));
    assert(rules::sits_at(l.seats[team], member, i));
    assert(test(team, l.seats[team]));
    assert forall|other: Text| #[trigger] l.seats.contains_key(other) && test(
        other,
        l.seats[other],
    ) implies other == team by {
        let j = choose|j: int| #[trigger] rules::sits_at(l.seats[other], member, j);
        assert(leagues::seats_sound(l, other));
        assert(l.seats[other][j].player == member);
        assert(l.teams[other].members.contains(member));
        assert(l.teams[team].members.contains(l.seats[team][i].player));
        assert(l.teams[team].members.contains(member));
    }
    assert(collections::is_first::<String, Seq<SeatView>>(l.seats, test, team));
    collections::lemma_first_key::<String, Seq<SeatView>>(l.seats, test, team);
    assert forall|j: int| 0 <= j < i implies (#[trigger] l.seats[team][j]).player != member by {
        assert(l.seats[team][j].player != l.seats[team][i].player);
    }
    crate::league::lemma_first_seat(l.seats[team], member, i);
}

/// A player who comes back before the deadline keeps the seat, with its epoch.
pub proof fn law_timely_reconnect_keeps_the_seat(
    members: Map<Text, MemberView>,
    l: LeagueView,
    actor: Text,
    now: u64,
    team: Text,
    i: int,
    health: ConnectionHealth,
)
    requires
        leagues::league_sound(members, l),
        l.phase == Phase::Playing,
        l.seats.contains_key(team),
        0 <= i < l.seats[team].len(),
        rules::held(l.seats[team][i], now) || l.paused_since is Some,
    ensures
        rules::presence(
            members,
            l,
            actor,
            now,
            l.seats[team][i].player,
            true,
            health,
        ) matches Ok(next) ==> rules::route(next, l.seats[team][i].player) == (RouteView::Match {
            team,
            epoch: l.seats[team][i].epoch,
        }),
{
    let seat = l.seats[team][i];
    let member = seat.player;
    let result = rules::presence(members, l, actor, now, member, true, health);
    if result is Ok {
        let next = result->Ok_0;
        leagues::lemma_presence_sound(members, l, actor, now, member, true, health);
        let measured = LeagueView { health: l.health.insert(member, health), ..l };
        assert(holds_seat(measured, team, member, seat.epoch)) by {
            assert(measured.seats[team][i] == seat);
        }
        let empty = rules::vacated(measured, now);
        assert(empty.seats.dom() =~= l.seats.dom());
        leagues::lemma_fill_keeps(empty);
        law_new_seats_have_new_epochs(empty);
        let settled = if rules::running(l) {
            rules::replace_expired(measured, now)->Ok_0
        } else {
            measured
        };
        if rules::running(l) {
            let j = lemma_held_is_kept(measured.seats[team], now, i);
            assert(empty.seats[team][j] == seat);
            assert(holds_seat(empty, team, member, seat.epoch));
        }
        assert(holds_seat(settled, team, member, seat.epoch));
        let until = rules::saturated(now + rules::grace(health, l.rules));
        let seen = rules::with_presence(settled, member, true, until);
        assert(seen.seats.dom() =~= settled.seats.dom());
        assert(holds_seat(seen, team, member, seat.epoch)) by {
            let k = choose|k: int|
                0 <= k < settled.seats[team].len() && (#[trigger] settled.seats[team][k]).player
                    == member && settled.seats[team][k].epoch == seat.epoch;
            assert(seen.seats[team][k].player == member);
            assert(seen.seats[team][k].epoch == seat.epoch);
        }
        leagues::lemma_fill_keeps(seen);
        law_new_seats_have_new_epochs(seen);
        assert(holds_seat(next, team, member, seat.epoch));
        law_seat_holders_are_sent_to_the_match(members, next, team, member, seat.epoch);
    }
}

/// A player who stays away past the deadline loses the seat at the next tick, unless the match
/// is paused.
pub proof fn law_expired_seats_are_lost(
    members: Map<Text, MemberView>,
    l: LeagueView,
    now: u64,
    team: Text,
    i: int,
)
    requires
        leagues::league_sound(members, l),
        rules::running(l),
        l.seats.contains_key(team),
        0 <= i < l.seats[team].len(),
        !rules::held(l.seats[team][i], now),
    ensures
        rules::tick(l, l.host, now) matches Ok(next) ==> !holds_seat(
            next,
            team,
            l.seats[team][i].player,
            l.seats[team][i].epoch,
        ),
{
    let seat = l.seats[team][i];
    let empty = rules::vacated(l, now);
    assert(empty.seats.dom() =~= l.seats.dom());
    law_new_seats_have_new_epochs(empty);
    assert(leagues::seats_sound(l, team));
    assert(seat.epoch <= l.epoch);
    if holds_seat(empty, team, seat.player, seat.epoch) {
        let j = choose|j: int|
            0 <= j < empty.seats[team].len() && (#[trigger] empty.seats[team][j]).player
                == seat.player && empty.seats[team][j].epoch == seat.epoch;
        lemma_kept_is_held(l.seats[team], now, j);
        let k = l.seats[team].index_of(empty.seats[team][j]);
        assert(l.seats[team][k].epoch == seat.epoch);
        assert(k == i);
    }
}

/// While a match is paused, no seat changes hands.
pub proof fn law_pause_protects_seats(l: LeagueView, actor: Text, now: u64)
    requires
        l.paused_since is Some,
    ensures
        rules::tick(l, actor, now) matches Ok(next) ==> next == l,
{
}

/// The end of a pause leaves each absent player as much time as there was when it began.
pub proof fn law_pause_stops_the_clock(seat: SeatView, since: u64, now: u64)
    requires
        seat.disconnected_until is Some,
        since <= now,
        seat.disconnected_until->0 + (now - since) <= u64::MAX,
    ensures
        rules::extended(seat, rules::elapsed(since, now)).disconnected_until is Some,
        rules::extended(seat, rules::elapsed(since, now)).disconnected_until->0 - now
            == seat.disconnected_until->0 - since,
{
}

/// Neither the host nor anybody else but the scorer can score or end a match.
pub proof fn law_only_the_scorer_scores(
    l: LeagueView,
    actor: Text,
    event: Text,
    players: Map<Text, i64>,
    teams: Map<Text, i64>,
)
    requires
        actor != l.scorer,
    ensures
        rules::score(l, actor, event, players, teams) == Outcome::<LeagueView>::Err(
            ErrorView::Denied,
        ),
        rules::finish(l, actor) == Outcome::<LeagueView>::Err(ErrorView::Denied),
{
}

/// How players are connected, that time goes by and whether the machines are up is told by the
/// host of the league alone, not by the players themselves.
pub proof fn law_only_the_host_reports(
    members: Map<Text, MemberView>,
    l: LeagueView,
    actor: Text,
    player: Option<Text>,
    now: u64,
    action: ActionView,
)
    requires
        actor != l.host,
        action is Presence || action is Tick || action is Infrastructure,
    ensures
        rules::league_step(members, l, actor, player, now, action) == Outcome::<LeagueView>::Err(
            ErrorView::Denied,
        ),
{
}

/// To run a league gives no authority beyond it: a command to a league changes that league and
/// nothing else.
pub proof fn law_league_commands_touch_one_league(
    s: StateView,
    actor: Text,
    now: u64,
    action: ActionView,
)
    requires
        rules::league_id(action) is Some,
    ensures
        rules::step(s, actor, now, action, false) matches Ok(next) ==> {
            let id = rules::league_id(action)->0;
            &&& s.leagues.contains_key(id)
            &&& next == (StateView { leagues: s.leagues.insert(id, next.leagues[id]), ..s })
        },
{
    if rules::step(s, actor, now, action, false) is Ok {
        let next = rules::step(s, actor, now, action, false)->Ok_0;
        let id = rules::league_id(action)->0;
        assert(next.leagues =~= s.leagues.insert(id, next.leagues[id]));
    }
}

/// A correction after a dispute changes the standings by what it says, for those who have played,
/// and leaves the events of the scorer on record.
pub proof fn law_corrections_keep_the_record(
    s: StateView,
    actor: Text,
    admin: bool,
    now: u64,
    id: Text,
    response: Text,
    players: Map<Text, i64>,
    teams: Map<Text, i64>,
)
    ensures
        rules::resolve(s, actor, admin, now, id, response, players, teams) matches Ok(next) ==> {
            let league = s.disputes[id].league;
            let before = s.leagues[league];
            let after = next.leagues[league];
            &&& admin
            &&& after.score_events == before.score_events
            &&& after.player_scores == rules::changed(before.player_scores, players)
            &&& after.team_scores == rules::changed(before.team_scores, teams)
            &&& next.disputes[id].resolution is Some
            &&& rules::resolve(next, actor, admin, now, id, response, players, teams)
                == Outcome::<StateView>::Err(ErrorView::Denied)
        },
{
}

/// After the end of a match nothing new is scored.
pub proof fn law_finished_scores_stand(
    l: LeagueView,
    actor: Text,
    event: Text,
    players: Map<Text, i64>,
    teams: Map<Text, i64>,
)
    requires
        l.phase == Phase::Finished,
    ensures
        rules::score(l, actor, event, players, teams) matches Ok(next) ==> next == l,
{
}

/// A player joins a team only by own consent to an invitation, and the team then has to be
/// registered anew.
pub proof fn law_joining_needs_invitation_and_consent(
    members: Map<Text, MemberView>,
    l: LeagueView,
    now: u64,
    player: Option<Text>,
    team: Text,
)
    ensures
        rules::accept(members, l, now, player, team) matches Ok(next) ==> {
            &&& player matches Some(p)
            &&& l.teams[team].invited.contains(p)
            &&& !next.teams[team].invited.contains(p)
            &&& next.teams[team].members == l.teams[team].members.insert(p)
            &&& !next.teams[team].registered
            &&& l.rules.cross_club || members[p].club == members[l.teams[team].captain].club
        },
{
}

/// There is only one way to rank a set of totals.
pub proof fn law_rankings_are_unique(
    totals: Map<Text, i64>,
    a: Seq<(Text, i64)>,
    b: Seq<(Text, i64)>,
)
    requires
        rules::is_ranking(totals, a),
        rules::is_ranking(totals, b),
    ensures
        a == b,
    decreases a.len(),
{
    if a.len() == 0 {
        if b.len() > 0 {
            assert(totals.contains_key(b[0].0));
        }
        assert(a =~= b);
    } else {
        assert(totals.contains_key(a[0].0));
        let j = choose|j: int| 0 <= j < b.len() && #[trigger] b[j].0 == a[0].0;
        assert(b[j] == a[0]);
        assert(totals.contains_key(b[0].0));
        let i = choose|i: int| 0 <= i < a.len() && #[trigger] a[i].0 == b[0].0;
        assert(a[i] == b[0]);
        if i > 0 && j > 0 {
            assert(rules::outranks(a[0], a[i]) && rules::outranks(b[0], b[j]));
            if a[0].1 == b[0].1 {
                <String as Key>::transitive(a[0].0, b[0].0, a[0].0);
                <String as Key>::irreflexive(a[0].0);
            }
        }
        assert(a[0] == b[0]);
        let rest = totals.remove(a[0].0);
        let ta = a.drop_first();
        let tb = b.drop_first();
        lemma_ranking_tail(totals, a);
        lemma_ranking_tail(totals, b);
        law_rankings_are_unique(rest, ta, tb);
        assert(a =~= seq![a[0]] + ta);
        assert(b =~= seq![b[0]] + tb);
    }
}

proof fn lemma_ranking_tail(totals: Map<Text, i64>, a: Seq<(Text, i64)>)
    requires
        rules::is_ranking(totals, a),
        a.len() > 0,
    ensures
        rules::is_ranking(totals.remove(a[0].0), a.drop_first()),
{
    let rest = totals.remove(a[0].0);
    let t = a.drop_first();
    assert forall|x: int| 0 <= x < t.len() implies rest.contains_key((#[trigger] t[x]).0)
        && rest[t[x].0] == t[x].1 by {
        assert(t[x] == a[x + 1]);
        assert(rules::outranks(a[0], a[x + 1]));
        if a[0].0 == a[x + 1].0 {
            <String as Key>::irreflexive(a[0].0);
        }
    }
    assert forall|id: Text| #[trigger] rest.contains_key(id) implies exists|x: int|
        0 <= x < t.len() && #[trigger] t[x].0 == id by {
        assert(totals.contains_key(id));
        let y = choose|y: int| 0 <= y < a.len() && #[trigger] a[y].0 == id;
        assert(t[y - 1] == a[y]);
    }
    assert forall|x: int, y: int| 0 <= x < y < t.len() implies rules::outranks(
        #[trigger] t[x],
        #[trigger] t[y],
    ) by {
        assert(t[x] == a[x + 1] && t[y] == a[y + 1]);
    }
}

/// Each seat of `next` is a seat of `l`, or has an epoch that `l` has not reached.
pub open spec fn new_seats_are_later(l: LeagueView, next: LeagueView) -> bool {
    &&& next.epoch >= l.epoch
    &&& forall|team: Text, member: Text, epoch: u64| #[trigger]
        holds_seat(next, team, member, epoch) ==> holds_seat(l, team, member, epoch) || epoch
            > l.epoch
}

pub proof fn lemma_later_transitive(a: LeagueView, b: LeagueView, c: LeagueView)
    requires
        new_seats_are_later(a, b),
        new_seats_are_later(b, c),
    ensures
        new_seats_are_later(a, c),
{
}

/// Seats with the same occupants and epochs, in a league whose teams have nobody less.
pub proof fn lemma_same_seats(l: LeagueView, n: LeagueView)
    requires
        leagues::seating_sound(l),
        n.rules == l.rules,
        forall|t: Text| #[trigger]
            l.teams.contains_key(t) ==> n.teams.contains_key(t) && l.teams[t].members.subset_of(
                n.teams[t].members,
            ),
        n.played == l.played,
        n.epoch == l.epoch,
        n.seats.dom() == l.seats.dom(),
        forall|t: Text| #[trigger] n.seats.contains_key(t) ==> n.seats[t].len() == l.seats[t].len(),
        forall|t: Text, i: int|
            #![trigger n.seats[t][i]]
            n.seats.contains_key(t) && 0 <= i < n.seats[t].len() ==> n.seats[t][i].player
                == l.seats[t][i].player && n.seats[t][i].epoch == l.seats[t][i].epoch,
    ensures
        leagues::seating_sound(n),
        new_seats_are_later(l, n),
{
    leagues::lemma_same_occupants_seating(l, n);
    assert forall|t: Text, m: Text, e: u64| #[trigger] holds_seat(n, t, m, e) implies holds_seat(
        l,
        t,
        m,
        e,
    ) by {
        assert(n.seats.dom().contains(t));
        let i = choose|i: int|
            0 <= i < n.seats[t].len() && (#[trigger] n.seats[t][i]).player == m
                && n.seats[t][i].epoch == e;
        assert(l.seats[t][i].player == m);
    }
}

pub proof fn lemma_pause_seats(l: LeagueView, now: u64)
    requires
        leagues::seating_sound(l),
    ensures
        leagues::seating_sound(rules::update_pause(l, now)),
        new_seats_are_later(l, rules::update_pause(l, now)),
{
    let n = rules::update_pause(l, now);
    assert(n.seats.dom() =~= l.seats.dom());
    lemma_same_seats(l, n);
}

/// Seats that expired are taken away, and others are given out.
proof fn lemma_vacated_seats(l: LeagueView, now: u64)
    requires
        leagues::seating_sound(l),
    ensures
        leagues::seating_sound(rules::vacated(l, now)),
        new_seats_are_later(l, rules::vacated(l, now)),
        rules::vacated(l, now).seats.dom() == l.seats.dom(),
{
    let n = rules::vacated(l, now);
    leagues::lemma_vacated_seating(l, now);
    assert(n.seats.dom() =~= l.seats.dom());
    assert forall|t: Text, m: Text, e: u64| #[trigger] holds_seat(n, t, m, e) implies holds_seat(
        l,
        t,
        m,
        e,
    ) by {
        assert(n.seats.dom().contains(t));
        let i = choose|i: int|
            0 <= i < n.seats[t].len() && (#[trigger] n.seats[t][i]).player == m
                && n.seats[t][i].epoch == e;
        lemma_kept_is_held(l.seats[t], now, i);
        let j = l.seats[t].index_of(n.seats[t][i]);
        assert(l.seats[t][j] == n.seats[t][i]);
    }
}

proof fn lemma_filled_seats(l: LeagueView)
    requires
        leagues::seating_sound(l),
        l.seats.dom().finite(),
    ensures
        rules::fill_vacancies(l) matches Ok(next) ==> leagues::seating_sound(next)
            && new_seats_are_later(l, next) && next.seats.dom() == l.seats.dom(),
{
    leagues::lemma_fill_seating(l);
    leagues::lemma_fill_keeps(l);
    law_new_seats_have_new_epochs(l);
}

/// The seats that are given out when the match begins are the first ones of their teams.
proof fn lemma_kicked_off_seats(members: Map<Text, MemberView>, l: LeagueView, seed: Seq<u8>)
    requires
        rules::league_ok(members, l),
        leagues::seating_sound(l),
    ensures
        leagues::seating_sound(rules::kicked_off(l, seed)),
        new_seats_are_later(l, rules::kicked_off(l, seed)),
        rules::kicked_off(l, seed).seats.dom().finite(),
{
    let n = rules::kicked_off(l, seed);
    assert forall|t: Text| #[trigger] n.seats.contains_key(t) implies n.seats[t] == (
    if rules::is_registered(l, t) {
        Seq::<SeatView>::empty()
    } else {
        l.seats[t]
    }) && l.teams.contains_key(t) && (!rules::is_registered(l, t) ==> l.seats.contains_key(t)) by {
        if !rules::is_registered(l, t) {
            assert(l.seats.contains_key(t));
        }
    }
    assert(n.seats.dom().subset_of(l.teams.dom()));
    leagues::lemma_registered_finite(l, n);
    assert forall|t: Text| #[trigger] n.seats.contains_key(t) implies leagues::seats_sound(n, t) by {
        if !rules::is_registered(l, t) {
            assert(leagues::seats_sound(l, t));
        }
    }
    assert forall|a: Text, b: Text, i: int, j: int|
        #![trigger n.seats[a][i], n.seats[b][j]]
        n.seats.contains_key(a) && n.seats.contains_key(b) && 0 <= i < n.seats[a].len() && 0 <= j
            < n.seats[b].len() && n.seats[a][i].epoch == n.seats[b][j].epoch implies a == b && i
        == j by {
        assert(n.seats[a] == l.seats[a] && n.seats[b] == l.seats[b]);
        assert(l.seats[a][i].epoch == l.seats[b][j].epoch);
    }
    assert forall|t: Text, m: Text, e: u64| #[trigger] holds_seat(n, t, m, e) implies holds_seat(
        l,
        t,
        m,
        e,
    ) by {
        let i = choose|i: int|
            0 <= i < n.seats[t].len() && (#[trigger] n.seats[t][i]).player == m
                && n.seats[t][i].epoch == e;
        assert(n.seats[t] == l.seats[t]);
        assert(l.seats[t][i].player == m);
    }
}

/// Each command to a league keeps its seats in order, and new seats have new epochs.
pub proof fn lemma_league_step_seats(
    members: Map<Text, MemberView>,
    l: LeagueView,
    actor: Text,
    player: Option<Text>,
    now: u64,
    action: ActionView,
)
    requires
        rules::league_ok(members, l),
        leagues::seating_sound(l),
    ensures
        rules::league_step(members, l, actor, player, now, action) matches Ok(next)
            ==> leagues::seating_sound(next) && new_seats_are_later(l, next),
{
    let result = rules::league_step(members, l, actor, player, now, action);
    if result is Ok {
        let next = result->Ok_0;
        match action {
            ActionView::Presence { league, member, online, health } => {
                let measured = LeagueView { health: l.health.insert(member, health), ..l };
                lemma_same_seats(l, measured);
                lemma_vacated_seats(measured, now);
                let empty = rules::vacated(measured, now);
                lemma_filled_seats(empty);
                let settled = if rules::running(l) {
                    rules::replace_expired(measured, now)->Ok_0
                } else {
                    measured
                };
                lemma_later_transitive(l, measured, empty);
                if rules::running(l) {
                    lemma_later_transitive(l, empty, settled);
                }
                let until = rules::saturated(now + rules::grace(health, l.rules));
                let seen = rules::with_presence(settled, member, online, until);
                assert(seen.seats.dom() =~= settled.seats.dom());
                lemma_same_seats(settled, seen);
                lemma_later_transitive(l, settled, seen);
                lemma_filled_seats(seen);
                if online && rules::running(seen) {
                    lemma_later_transitive(l, seen, next);
                }
            },
            ActionView::Start { league, seed } => {
                let n = rules::kicked_off(l, seed);
                lemma_kicked_off_seats(members, l, seed);
                lemma_filled_seats(n);
                lemma_later_transitive(l, n, next);
            },
            ActionView::Tick { league } => {
                let empty = rules::vacated(l, now);
                lemma_vacated_seats(l, now);
                lemma_filled_seats(empty);
                if rules::running(l) {
                    lemma_later_transitive(l, empty, next);
                }
            },
            ActionView::Infrastructure { league, healthy } => {
                let mid = LeagueView { infrastructure_down: !healthy, ..l };
                lemma_same_seats(l, mid);
                lemma_pause_seats(mid, now);
                lemma_later_transitive(l, mid, next);
            },
            _ => {
                lemma_same_seats(l, next);
            },
        }
    }
}

} // verus!
