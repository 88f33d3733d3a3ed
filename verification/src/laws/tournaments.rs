//! What commands do to leagues, their teams and their matches.
use vstd::prelude::*;
use vstd::utf8::*;

use crate::collections;
use crate::error::{ErrorView, Outcome};
use crate::governance::{ConnectionHealth, Rules};
use crate::laws::draws;
use crate::laws::membership;
use crate::laws::results;
use crate::league;
use crate::model::rules;
use crate::model::views::{
    ActionView, LeagueView, MemberView, RouteView, SeatView, StateView, TeamView, Text,
};
use crate::order;
use crate::outside;

verus! {

/// A league begins open for registration, with the rules, the host and the scorer that were given
/// and the actor as its organizer, and with nothing else.
pub proof fn law_leagues_begin_open(
    s: StateView,
    actor: Text,
    now: u64,
    league: Text,
    rules: Rules,
    host: Text,
    scorer: Text,
    approved: bool,
)
    requires
        membership::may_manage(s, actor, approved),
    ensures
        ({
            let peers = outside::peer_of_text(host) is Some && outside::peer_of_text(
                scorer,
            ) is Some;
            let proper = 1 <= rules.seats && rules.seats <= 256 && 1 <= rules.reconnect_min_ms
                && rules.reconnect_min_ms <= rules.reconnect_max_ms && rules.reconnect_max_ms
                <= 600_000;
            match rules::step(
                s,
                actor,
                now,
                ActionView::CreateLeague { league, rules, host, scorer },
                approved,
            ) {
                Ok(next) => {
                    let l = next.leagues[league];
                    &&& membership::names(league) && peers && proper && !s.leagues.contains_key(
                        league,
                    )
                    &&& next.leagues.contains_key(league)
                    &&& next.leagues.remove(league) == s.leagues
                    &&& next == (StateView { leagues: next.leagues, ..s })
                    &&& l.rules == rules && l.organizer == actor && l.host == host && l.scorer
                        == scorer
                    &&& l.phase is Registration
                    &&& l.teams.dom() == Set::<Text>::empty()
                    &&& l.online == Set::<Text>::empty()
                    &&& l.seats.dom() == Set::<Text>::empty()
                    &&& l.played == Set::<Text>::empty()
                    &&& l.player_scores.dom() == Set::<Text>::empty()
                    &&& l.team_scores.dom() == Set::<Text>::empty()
                    &&& l.score_events.dom() == Set::<Text>::empty()
                    &&& l.health.dom() == Set::<Text>::empty()
                    &&& l.paused_since is None && l.schedule is None
                    &&& !l.manual_pause && !l.infrastructure_down
                    &&& l.random_seed.len() == 32
                    &&& forall|i: int| 0 <= i < 32 ==> #[trigger] l.random_seed[i] == 0
                    &&& l.draw == 0 && l.epoch == 0
                },
                Err(e) => {
                    ||| e == ErrorView::Protocol("invalid identifier"@) && !membership::names(
                        league,
                    )
                    ||| e == ErrorView::Protocol("invalid authority PeerId"@) && membership::names(
                        league,
                    ) && !peers
                    ||| e == ErrorView::Protocol("invalid league rules"@) && membership::names(
                        league,
                    ) && peers && !proper
                    ||| e == ErrorView::Protocol("league already exists"@) && membership::names(
                        league,
                    ) && peers && proper && s.leagues.contains_key(league)
                },
            }
        }),
{
    let result = rules::step(
        s,
        actor,
        now,
        ActionView::CreateLeague { league, rules, host, scorer },
        approved,
    );
    if result is Ok {
        assert(result->Ok_0.leagues.remove(league) =~= s.leagues);
    }
}

/// Teams can be made, joined and registered: the league has not begun, and where it has a
/// schedule, registration is open and not over.
pub open spec fn takes_registrations(l: LeagueView, now: u64) -> bool {
    &&& l.phase is Registration
    &&& l.schedule is Some ==> (l.schedule->0).opens_ms <= now && now < (l.schedule->0).closes_ms
}

/// What is said where no registration is taken.
pub open spec fn closed_error(l: LeagueView) -> ErrorView {
    if l.phase is Registration {
        ErrorView::Denied
    } else {
        ErrorView::Protocol("registration closed"@)
    }
}

/// The name of the team belongs, in another league of one of the league's seasons, to a captain
/// other than the member.
pub open spec fn belongs_to_another(s: StateView, league: Text, team: Text, member: Text) -> bool {
    exists|season: Text, other: Text|
        #![trigger s.seasons[season].leagues.contains(other)]
        {
            &&& s.seasons.contains_key(season)
            &&& s.seasons[season].leagues.contains(league)
            &&& s.seasons[season].leagues.contains(other)
            &&& other != league
            &&& s.leagues.contains_key(other)
            &&& s.leagues[other].teams.contains_key(team)
            &&& s.leagues[other].teams[team].captain != member
        }
}

/// Who founds a team is its captain and its only member; nobody is invited and it is not
/// registered yet. Within a season the name of a team stays with its captain.
pub proof fn law_teams_are_founded(
    s: StateView,
    actor: Text,
    now: u64,
    league: Text,
    team: Text,
    member: Text,
)
    requires
        membership::acts_for(s.members, actor, member),
    ensures
        ({
            let l = s.leagues[league];
            let there = s.leagues.contains_key(league);
            let taken = belongs_to_another(s, league, team, member);
            let open = !taken && there && takes_registrations(l, now);
            match rules::step(s, actor, now, ActionView::CreateTeam { league, team }, false) {
                Ok(next) => {
                    let after = next.leagues[league];
                    let t = after.teams[team];
                    &&& open && membership::names(team)
                    &&& rules::team_of(l, member) is None && !l.teams.contains_key(team)
                    &&& results::touches_league(s, next, league)
                    &&& after.teams.contains_key(team)
                    &&& after.teams.remove(team) == l.teams
                    &&& t.captain == member
                    &&& t.members == set![member]
                    &&& t.invited == Set::<Text>::empty()
                    &&& !t.registered
                    &&& after == (LeagueView { teams: after.teams, ..l })
                },
                Err(e) => {
                    ||| e == ErrorView::Protocol("season team name belongs to another captain"@)
                        && taken
                    ||| e == ErrorView::NotFound && !taken && !there
                    ||| e == closed_error(l) && !taken && there && !takes_registrations(l, now)
                    ||| e == ErrorView::Protocol("invalid identifier"@) && open
                        && !membership::names(team)
                    ||| e == ErrorView::Protocol("already in a team or team exists"@) && open
                        && membership::names(team) && (rules::team_of(l, member) is Some
                        || l.teams.contains_key(team))
                },
            }
        }),
{
    membership::law_devices_act_for_their_members(s.members, actor, member);
    assert(rules::name_taken(s, league, team, Some(member)) == belongs_to_another(
        s,
        league,
        team,
        member,
    )) by {
        if rules::name_taken(s, league, team, Some(member)) {
            let (season, other) = choose|season: Text, other: Text|
                #![trigger s.seasons.contains_key(season), s.leagues.contains_key(other)]
                {
                    &&& s.seasons.contains_key(season)
                    &&& s.leagues.contains_key(other)
                    &&& s.seasons[season].leagues.contains(league)
                    &&& s.seasons[season].leagues.contains(other)
                    &&& other != league
                    &&& s.leagues[other].teams.contains_key(team)
                    &&& Some(s.leagues[other].teams[team].captain) != Some(member)
                };
            assert(s.seasons[season].leagues.contains(other));
        }
    }
    let result = rules::step(s, actor, now, ActionView::CreateTeam { league, team }, false);
    if result is Ok {
        let next = result->Ok_0;
        assert(next.leagues.remove(league) =~= s.leagues.remove(league));
        assert(next.leagues[league].teams.remove(team) =~= s.leagues[league].teams);
        assert(next.leagues[league].teams[team].members =~= set![member]);
    }
}

/// The captain invites a member into the team; the team changes in nothing else.
pub proof fn law_captains_invite(
    s: StateView,
    actor: Text,
    now: u64,
    league: Text,
    team: Text,
    guest: Text,
    member: Text,
)
    requires
        membership::acts_for(s.members, actor, member),
    ensures
        ({
            let l = s.leagues[league];
            let t = l.teams[team];
            let there = s.leagues.contains_key(league);
            let open = there && takes_registrations(l, now);
            let known = open && s.members.contains_key(guest) && l.teams.contains_key(team);
            match rules::step(
                s,
                actor,
                now,
                ActionView::Invite { league, team, member: guest },
                false,
            ) {
                Ok(next) => {
                    let after = next.leagues[league];
                    let u = after.teams[team];
                    &&& known && t.captain == member
                    &&& results::touches_league(s, next, league)
                    &&& forall|p: Text| #[trigger]
                        u.invited.contains(p) <==> t.invited.contains(p) || p == guest
                    &&& u == (TeamView { invited: u.invited, ..t })
                    &&& after.teams.contains_key(team)
                    &&& after.teams.remove(team) == l.teams.remove(team)
                    &&& after == (LeagueView { teams: after.teams, ..l })
                },
                Err(e) => {
                    ||| e == ErrorView::NotFound && !there
                    ||| e == closed_error(l) && there && !takes_registrations(l, now)
                    ||| e == ErrorView::NotFound && open && !known
                    ||| e == ErrorView::Denied && known && t.captain != member
                },
            }
        }),
{
    membership::law_devices_act_for_their_members(s.members, actor, member);
    let result = rules::step(
        s,
        actor,
        now,
        ActionView::Invite { league, team, member: guest },
        false,
    );
    if result is Ok {
        let next = result->Ok_0;
        assert(next.leagues.remove(league) =~= s.leagues.remove(league));
        assert(next.leagues[league].teams.remove(team) =~= s.leagues[league].teams.remove(team));
    }
}

/// An invited member of no other team joins the team, of the captain's own club unless the rules
/// allow others. The invitation is used up, and the team has to be registered anew.
pub proof fn law_guests_join(
    s: StateView,
    actor: Text,
    now: u64,
    league: Text,
    team: Text,
    member: Text,
)
    requires
        membership::acts_for(s.members, actor, member),
    ensures
        ({
            let l = s.leagues[league];
            let t = l.teams[team];
            let there = s.leagues.contains_key(league);
            let open = there && takes_registrations(l, now);
            let free = open && rules::team_of(l, member) is None;
            let invited = free && l.teams.contains_key(team) && t.invited.contains(member);
            let welcome = l.rules.cross_club || s.members[member].club
                == s.members[t.captain].club;
            match rules::step(s, actor, now, ActionView::Accept { league, team }, false) {
                Ok(next) => {
                    let after = next.leagues[league];
                    let u = after.teams[team];
                    &&& invited && welcome
                    &&& results::touches_league(s, next, league)
                    &&& u.captain == t.captain
                    &&& forall|p: Text| #[trigger]
                        u.members.contains(p) <==> t.members.contains(p) || p == member
                    &&& forall|p: Text| #[trigger]
                        u.invited.contains(p) <==> t.invited.contains(p) && p != member
                    &&& !u.registered
                    &&& after.teams.contains_key(team)
                    &&& after.teams.remove(team) == l.teams.remove(team)
                    &&& after == (LeagueView { teams: after.teams, ..l })
                },
                Err(e) => {
                    ||| e == ErrorView::NotFound && !there
                    ||| e == closed_error(l) && there && !takes_registrations(l, now)
                    ||| e == ErrorView::Protocol("member already belongs to a team"@) && open
                        && !free
                    ||| e == ErrorView::NotFound && free && !l.teams.contains_key(team)
                    ||| e == ErrorView::Denied && free && l.teams.contains_key(team) && !invited
                    ||| e == ErrorView::Protocol("cross-club teams disabled"@) && invited
                        && !welcome
                },
            }
        }),
{
    membership::law_devices_act_for_their_members(s.members, actor, member);
    let result = rules::step(s, actor, now, ActionView::Accept { league, team }, false);
    if result is Ok {
        let next = result->Ok_0;
        assert(next.leagues.remove(league) =~= s.leagues.remove(league));
        assert(next.leagues[league].teams.remove(team) =~= s.leagues[league].teams.remove(team));
    }
}

/// The captain registers the team; it changes in nothing else.
pub proof fn law_captains_register(
    s: StateView,
    actor: Text,
    now: u64,
    league: Text,
    team: Text,
    member: Text,
)
    requires
        membership::acts_for(s.members, actor, member),
    ensures
        ({
            let l = s.leagues[league];
            let t = l.teams[team];
            let there = s.leagues.contains_key(league);
            let open = there && takes_registrations(l, now);
            match rules::step(s, actor, now, ActionView::Register { league, team }, false) {
                Ok(next) => {
                    let after = next.leagues[league];
                    let u = after.teams[team];
                    &&& open && l.teams.contains_key(team) && t.captain == member
                    &&& results::touches_league(s, next, league)
                    &&& u.registered
                    &&& u == (TeamView { registered: u.registered, ..t })
                    &&& after.teams.contains_key(team)
                    &&& after.teams.remove(team) == l.teams.remove(team)
                    &&& after == (LeagueView { teams: after.teams, ..l })
                },
                Err(e) => {
                    ||| e == ErrorView::NotFound && !there
                    ||| e == closed_error(l) && there && !takes_registrations(l, now)
                    ||| e == ErrorView::NotFound && open && !l.teams.contains_key(team)
                    ||| e == ErrorView::Denied && open && l.teams.contains_key(team) && t.captain
                        != member
                },
            }
        }),
{
    membership::law_devices_act_for_their_members(s.members, actor, member);
    let result = rules::step(s, actor, now, ActionView::Register { league, team }, false);
    if result is Ok {
        let next = result->Ok_0;
        assert(next.leagues.remove(league) =~= s.leagues.remove(league));
        assert(next.leagues[league].teams.remove(team) =~= s.leagues[league].teams.remove(team));
    }
}

/// Who is no member has no team: such a device founds none, joins none, and neither invites nor
/// registers.
pub proof fn law_strangers_have_no_team(
    s: StateView,
    actor: Text,
    now: u64,
    league: Text,
    team: Text,
    guest: Text,
)
    requires
        membership::unused(s.members, actor),
    ensures
        rules::step(s, actor, now, ActionView::CreateTeam { league, team }, false) is Err,
        rules::step(s, actor, now, ActionView::Invite { league, team, member: guest }, false)
            is Err,
        rules::step(s, actor, now, ActionView::Accept { league, team }, false) is Err,
        rules::step(s, actor, now, ActionView::Register { league, team }, false) is Err,
{
    membership::law_devices_act_for_their_members(s.members, actor, actor);
}

/// A match has begun with the seed: each registered team has seats, none of them taken, and a
/// score of zero, and so has each of its players.
pub open spec fn opened(l: LeagueView, m: LeagueView, seed: Seq<u8>) -> bool {
    &&& m.random_seed == seed
    &&& m.phase is Playing
    &&& forall|t: Text| #[trigger]
        m.seats.contains_key(t) <==> l.teams.contains_key(t) && l.teams[t].registered
    &&& forall|t: Text| #[trigger]
        m.seats.contains_key(t) ==> m.seats[t] == Seq::<SeatView>::empty()
    &&& forall|t: Text| #[trigger]
        m.team_scores.contains_key(t) <==> l.team_scores.contains_key(t) || (l.teams.contains_key(
            t,
        ) && l.teams[t].registered)
    &&& forall|t: Text| #[trigger]
        l.teams.contains_key(t) && l.teams[t].registered ==> m.team_scores[t] == 0
    &&& forall|t: Text, p: Text|
        l.teams.contains_key(t) && l.teams[t].registered && #[trigger] l.teams[t].members.contains(
            p,
        ) ==> m.player_scores.contains_key(p) && m.player_scores[p] == 0
    &&& forall|p: Text| #[trigger]
        m.player_scores.contains_key(p) ==> l.player_scores.contains_key(p) || exists|t: Text|
            #[trigger]
            l.teams.contains_key(t) && l.teams[t].registered && l.teams[t].members.contains(p)
    &&& m == (LeagueView {
        random_seed: m.random_seed,
        phase: m.phase,
        seats: m.seats,
        team_scores: m.team_scores,
        player_scores: m.player_scores,
        ..l
    })
}

/// The organizer starts a league that is open for registration, not before the time of its
/// schedule. The seed of the command becomes the league's, and the seats are drawn with it.
pub proof fn law_matches_begin(s: StateView, actor: Text, now: u64, league: Text, seed: Seq<u8>)
    requires
        s.leagues[league].seats.dom() == Set::<Text>::empty(),
    ensures
        ({
            let l = s.leagues[league];
            let there = s.leagues.contains_key(league);
            let timely = l.schedule is Some ==> (l.schedule->0).starts_ms <= now;
            let m = rules::kicked_off(l, seed);
            &&& opened(l, m, seed)
            &&& match rules::step(s, actor, now, ActionView::Start { league, seed }, false) {
                Ok(next) => {
                    &&& there && actor == l.organizer && l.phase is Registration && timely
                    &&& results::touches_league(s, next, league)
                    &&& rules::fill_vacancies(m) == Outcome::<LeagueView>::Ok(next.leagues[league])
                },
                Err(e) => {
                    ||| e == ErrorView::NotFound && !there
                    ||| e == ErrorView::Denied && there && actor != l.organizer
                    ||| e == ErrorView::Protocol("registration closed"@) && there && actor
                        == l.organizer && !(l.phase is Registration)
                    ||| e == ErrorView::Denied && there && actor == l.organizer
                        && l.phase is Registration && !timely
                    ||| there && actor == l.organizer && l.phase is Registration && timely
                        && rules::fill_vacancies(m) == Outcome::<LeagueView>::Err(e)
                },
            }
        }),
{
    let l = s.leagues[league];
    let m = rules::kicked_off(l, seed);
    assert forall|t: Text| #[trigger] m.seats.contains_key(t) <==> l.teams.contains_key(t)
        && l.teams[t].registered by {
        assert(l.seats.contains_key(t) == l.seats.dom().contains(t));
        assert(!Set::<Text>::empty().contains(t));
    }
    assert forall|t: Text, p: Text|
        l.teams.contains_key(t) && l.teams[t].registered && #[trigger] l.teams[t].members.contains(
            p,
        ) implies m.player_scores.contains_key(p) && m.player_scores[p] == 0 by {
        assert(rules::rostered(l, p));
    }
    let result = rules::step(s, actor, now, ActionView::Start { league, seed }, false);
    if result is Ok {
        assert(result->Ok_0.leagues.remove(league) =~= s.leagues.remove(league));
    }
}

/// After an accepted start the league's seed is that of the command. Whoever sits first in a team
/// comes first among its members who are online, by the digest of that seed, the number of the
/// draw and the name; a team has nobody seated only where nobody of it is online.
pub proof fn law_the_seed_decides_who_plays(
    s: StateView,
    actor: Text,
    now: u64,
    league: Text,
    seed: Seq<u8>,
)
    requires
        s.leagues[league].seats.dom() == Set::<Text>::empty(),
        s.leagues[league].teams.dom().finite(),
        forall|t: Text| #[trigger]
            s.leagues[league].teams.contains_key(t) ==> s.leagues[league].teams[t].members.finite(),
        s.leagues[league].rules.seats >= 1,
        rules::step(s, actor, now, ActionView::Start { league, seed }, false) is Ok,
    ensures
        ({
            let l = s.leagues[league];
            let after = rules::step(
                s,
                actor,
                now,
                ActionView::Start { league, seed },
                false,
            )->Ok_0.leagues[league];
            &&& after.random_seed == seed
            &&& after.phase is Playing
            &&& forall|t: Text| #[trigger]
                after.seats.contains_key(t) <==> l.teams.contains_key(t) && l.teams[t].registered
            &&& forall|t: Text| #[trigger]
                after.seats.contains_key(t) && after.seats[t].len() > 0 ==> {
                    let first = after.seats[t][0];
                    let draw = l.draw + (first.epoch - l.epoch) - 1;
                    &&& l.teams[t].members.contains(first.player)
                    &&& l.online.contains(first.player)
                    &&& l.draw <= draw < after.draw
                    &&& forall|o: Text| #[trigger]
                        l.teams[t].members.contains(o) && l.online.contains(o) && o != first.player
                            ==> {
                            let x = outside::sha256(
                                seed + rules::be_bytes(draw as u64) + encode_utf8(first.player),
                            );
                            let y = outside::sha256(
                                seed + rules::be_bytes(draw as u64) + encode_utf8(o),
                            );
                            order::bytes_before(x, y) || (x == y && order::bytes_before(
                                encode_utf8(first.player),
                                encode_utf8(o),
                            ))
                        }
                }
            &&& forall|t: Text, o: Text|
                after.seats.contains_key(t) && after.seats[t].len() == 0
                    && #[trigger] l.teams[t].members.contains(o) ==> !l.online.contains(o)
        }),
{
    law_matches_begin(s, actor, now, league, seed);
    let l = s.leagues[league];
    let m = rules::kicked_off(l, seed);
    let after = rules::step(
        s,
        actor,
        now,
        ActionView::Start { league, seed },
        false,
    )->Ok_0.leagues[league];
    assert(m.seats.dom().subset_of(l.teams.dom())) by {
        assert forall|t: Text| m.seats.dom().contains(t) implies l.teams.dom().contains(t) by {
            assert(m.seats.contains_key(t));
        }
    }
    vstd::set_lib::lemma_set_subset_finite(l.teams.dom(), m.seats.dom());
    draws::law_free_seats_are_drawn(m);
    assert forall|t: Text| #[trigger] after.seats.contains_key(t) <==> l.teams.contains_key(t)
        && l.teams[t].registered by {
        assert(after.seats.dom().contains(t) == m.seats.dom().contains(t));
        assert(m.seats.contains_key(t) <==> l.teams.contains_key(t) && l.teams[t].registered);
    }
    assert forall|t: Text| #[trigger] after.seats.contains_key(t) && after.seats[t].len()
        > 0 implies {
        let first = after.seats[t][0];
        let draw = l.draw + (first.epoch - l.epoch) - 1;
        &&& l.teams[t].members.contains(first.player)
        &&& l.online.contains(first.player)
        &&& l.draw <= draw < after.draw
        &&& forall|o: Text| #[trigger]
            l.teams[t].members.contains(o) && l.online.contains(o) && o != first.player ==> {
                let x = outside::sha256(
                    seed + rules::be_bytes(draw as u64) + encode_utf8(first.player),
                );
                let y = outside::sha256(seed + rules::be_bytes(draw as u64) + encode_utf8(o));
                order::bytes_before(x, y) || (x == y && order::bytes_before(
                    encode_utf8(first.player),
                    encode_utf8(o),
                ))
            }
    } by {
        let first = after.seats[t][0];
        let draw = l.draw + (first.epoch - l.epoch) - 1;
        assert(m.seats.contains_key(t));
        assert(draws::team_filled(m, after, t));
        let beside = after.seats[t].take(0);
        assert(draws::was_drawn(m, t, beside, first, draw));
        assert forall|o: Text| #[trigger]
            l.teams[t].members.contains(o) && l.online.contains(o) && o
                != first.player implies draws::beats(seed, draw, first.player, o) by {
            assert(draws::could_sit(m, t, beside, o));
        }
    }
    assert forall|t: Text, o: Text|
        after.seats.contains_key(t) && after.seats[t].len() == 0
            && #[trigger] l.teams[t].members.contains(o) implies !l.online.contains(o) by {
        assert(m.seats.contains_key(t));
        assert(draws::team_filled(m, after, t));
        assert(!draws::could_sit(m, t, after.seats[t], o));
    }
}

/// The league without the seats of those who have stayed away for too long.
pub open spec fn without_lapsed(l: LeagueView, m: LeagueView, now: u64) -> bool {
    &&& m.seats.dom() == l.seats.dom()
    &&& forall|t: Text| #[trigger]
        l.seats.contains_key(t) ==> m.seats[t] == l.seats[t].filter(
            |seat: SeatView|
                seat.disconnected_until is None || (seat.disconnected_until->0) > now,
        )
    &&& m == (LeagueView { seats: m.seats, ..l })
}

proof fn lemma_without_lapsed(l: LeagueView, now: u64)
    ensures
        without_lapsed(l, rules::vacated(l, now), now),
{
    let m = rules::vacated(l, now);
    let f = |seat: SeatView| rules::held(seat, now);
    let g = |seat: SeatView|
        seat.disconnected_until is None || (seat.disconnected_until->0) > now;
    assert(f =~= g);
    assert(m.seats.dom() =~= l.seats.dom());
    assert forall|t: Text| #[trigger] l.seats.contains_key(t) implies m.seats[t]
        == l.seats[t].filter(g) by {
        assert(m.seats[t] == rules::kept(l.seats[t], now));
    }
}

/// When the host says that time has gone by, seats whose players have stayed away for too long
/// are given to others, unless the match is paused: then nothing happens.
pub proof fn law_time_goes_by(s: StateView, actor: Text, now: u64, league: Text)
    ensures
        ({
            let l = s.leagues[league];
            let there = s.leagues.contains_key(league);
            let may = there && actor == l.host && l.phase is Playing;
            let m = rules::vacated(l, now);
            &&& without_lapsed(l, m, now)
            &&& match rules::step(s, actor, now, ActionView::Tick { league }, false) {
                Ok(next) => {
                    &&& may && results::touches_league(s, next, league)
                    &&& l.paused_since is Some ==> next.leagues[league] == l
                    &&& l.paused_since is None ==> rules::fill_vacancies(m) == Outcome::<
                        LeagueView,
                    >::Ok(next.leagues[league])
                },
                Err(e) => {
                    ||| e == ErrorView::NotFound && !there
                    ||| e == ErrorView::Denied && there && actor != l.host
                    ||| e == ErrorView::Protocol("not playing"@) && there && actor == l.host && !(
                    l.phase is Playing)
                    ||| may && l.paused_since is None && rules::fill_vacancies(m) == Outcome::<
                        LeagueView,
                    >::Err(e)
                },
            }
        }),
{
    lemma_without_lapsed(s.leagues[league], now);
    let result = rules::step(s, actor, now, ActionView::Tick { league }, false);
    if result is Ok {
        assert(result->Ok_0.leagues.remove(league) =~= s.leagues.remove(league));
    }
}

/// How long a seat is kept lies within the bounds of the rules, and between them it is eight times
/// the round trip, four times its variation and twice the time of recovery.
pub proof fn law_grace_follows_the_connection(h: ConnectionHealth, rules: Rules)
    requires
        rules.reconnect_min_ms <= rules.reconnect_max_ms,
    ensures
        ({
            let g = rules::grace(h, rules);
            let measured = 8 * h.rtt_ms + 4 * h.jitter_ms + 2 * h.recovery_ms;
            &&& rules.reconnect_min_ms <= g <= rules.reconnect_max_ms
            &&& rules.reconnect_min_ms <= measured <= rules.reconnect_max_ms ==> g == measured
            &&& measured < rules.reconnect_min_ms ==> g == rules.reconnect_min_ms
            &&& measured > rules.reconnect_max_ms ==> g == rules.reconnect_max_ms
        }),
{
}

/// A seat after its player has come or gone: one who comes keeps it, one who goes has a deadline,
/// which does not move when it is reported again. All other seats stay.
pub open spec fn seat_follows(
    before: SeatView,
    after: SeatView,
    member: Text,
    online: bool,
    until: int,
) -> bool {
    &&& after.player == before.player
    &&& after.epoch == before.epoch
    &&& before.player != member ==> after.disconnected_until == before.disconnected_until
    &&& before.player == member && online ==> after.disconnected_until is None
    &&& before.player == member && !online ==> after.disconnected_until == Some(
        if before.disconnected_until is Some {
            before.disconnected_until->0
        } else if until > u64::MAX {
            u64::MAX
        } else {
            until as u64
        },
    )
}

/// The league after the member has come or gone.
pub open spec fn presence_follows(
    l: LeagueView,
    m: LeagueView,
    member: Text,
    online: bool,
    until: int,
) -> bool {
    &&& forall|p: Text| #[trigger]
        m.online.contains(p) <==> if p == member {
            online
        } else {
            l.online.contains(p)
        }
    &&& m.seats.dom() == l.seats.dom()
    &&& forall|t: Text| #[trigger] l.seats.contains_key(t) ==> m.seats[t].len() == l.seats[t].len()
    &&& forall|t: Text, i: int|
        l.seats.contains_key(t) && 0 <= i < l.seats[t].len() ==> seat_follows(
            l.seats[t][i],
            #[trigger] m.seats[t][i],
            member,
            online,
            until,
        )
    &&& m == (LeagueView { online: m.online, seats: m.seats, ..l })
}

proof fn lemma_presence_follows(l: LeagueView, member: Text, online: bool, until: int)
    requires
        0 <= until,
    ensures
        presence_follows(
            l,
            rules::with_presence(l, member, online, rules::saturated(until)),
            member,
            online,
            until,
        ),
{
    let m = rules::with_presence(l, member, online, rules::saturated(until));
    assert(m.seats.dom() =~= l.seats.dom());
    assert forall|t: Text, i: int|
        l.seats.contains_key(t) && 0 <= i < l.seats[t].len() implies seat_follows(
        l.seats[t][i],
        #[trigger] m.seats[t][i],
        member,
        online,
        until,
    ) by {
        assert(m.seats[t] == rules::seats_after_presence(
            l.seats[t],
            member,
            online,
            rules::saturated(until),
        ));
    }
}

/// The host reports how a member is connected. The measure is kept; in a match that goes on,
/// lapsed seats are given to others first; then the member's seats follow; and one who comes may
/// fill a free seat at once.
pub proof fn law_presence_is_reported(
    s: StateView,
    actor: Text,
    now: u64,
    league: Text,
    member: Text,
    online: bool,
    health: ConnectionHealth,
)
    ensures
        ({
            let l = s.leagues[league];
            let there = s.leagues.contains_key(league);
            let may = there && actor == l.host && s.members.contains_key(member);
            let sane = health.rtt_ms <= 60_000 && health.jitter_ms <= 60_000 && health.recovery_ms
                <= 600_000;
            let proper = may && !(l.phase is Finished) && sane;
            let measured = LeagueView { health: l.health.insert(member, health), ..l };
            let runs = l.phase is Playing && l.paused_since is None;
            let vacant = rules::vacated(measured, now);
            let settled = if runs {
                rules::fill_vacancies(vacant)
            } else {
                Ok(measured)
            };
            let until = now + rules::grace(health, l.rules);
            let seen = rules::with_presence(
                settled->Ok_0,
                member,
                online,
                rules::saturated(until),
            );
            &&& without_lapsed(measured, vacant, now)
            &&& presence_follows(settled->Ok_0, seen, member, online, until)
            &&& match rules::step(
                s,
                actor,
                now,
                ActionView::Presence { league, member, online, health },
                false,
            ) {
                Ok(next) => {
                    &&& proper && settled is Ok
                    &&& results::touches_league(s, next, league)
                    &&& online && seen.phase is Playing && seen.paused_since is None
                        ==> rules::fill_vacancies(seen) == Outcome::<LeagueView>::Ok(
                        next.leagues[league],
                    )
                    &&& !(online && seen.phase is Playing && seen.paused_since is None)
                        ==> next.leagues[league] == seen
                },
                Err(e) => {
                    ||| e == ErrorView::NotFound && !there
                    ||| e == ErrorView::Denied && there && !may
                    ||| e == ErrorView::Protocol("league finished"@) && may && l.phase is Finished
                    ||| e == ErrorView::Protocol("invalid measured health"@) && may && !(
                    l.phase is Finished) && !sane
                    ||| proper && settled == Outcome::<LeagueView>::Err(e)
                    ||| proper && settled is Ok && online && seen.phase is Playing
                        && seen.paused_since is None && rules::fill_vacancies(seen) == Outcome::<
                        LeagueView,
                    >::Err(e)
                },
            }
        }),
{
    let l = s.leagues[league];
    let measured = LeagueView { health: l.health.insert(member, health), ..l };
    let runs = l.phase is Playing && l.paused_since is None;
    lemma_without_lapsed(measured, now);
    let settled = if runs {
        rules::fill_vacancies(rules::vacated(measured, now))
    } else {
        Ok(measured)
    };
    lemma_presence_follows(settled->Ok_0, member, online, now + rules::grace(health, l.rules));
    let result = rules::step(
        s,
        actor,
        now,
        ActionView::Presence { league, member, online, health },
        false,
    );
    if result is Ok {
        assert(result->Ok_0.leagues.remove(league) =~= s.leagues.remove(league));
    }
}

/// A pause lasts while there is a reason for it, from when the first one came up. When the last
/// one is gone, each deadline moves by as much time as the pause took.
pub open spec fn pause_follows(l: LeagueView, m: LeagueView, now: u64) -> bool {
    let reason = l.manual_pause || l.infrastructure_down;
    &&& reason ==> m.paused_since == Some(
        if l.paused_since is Some {
            l.paused_since->0
        } else {
            now
        },
    ) && m.seats == l.seats
    &&& !reason ==> m.paused_since is None
    &&& !reason && l.paused_since is None ==> m.seats == l.seats
    &&& !reason && l.paused_since is Some ==> {
        let pause: int = if now >= l.paused_since->0 {
            now - l.paused_since->0
        } else {
            0
        };
        &&& m.seats.dom() == l.seats.dom()
        &&& forall|t: Text| #[trigger]
            l.seats.contains_key(t) ==> m.seats[t].len() == l.seats[t].len()
        &&& forall|t: Text, i: int|
            l.seats.contains_key(t) && 0 <= i < l.seats[t].len() ==> {
                let before = l.seats[t][i];
                let after = #[trigger] m.seats[t][i];
                &&& after.player == before.player && after.epoch == before.epoch
                &&& before.disconnected_until is None ==> after.disconnected_until is None
                &&& before.disconnected_until is Some ==> after.disconnected_until == Some(
                    if before.disconnected_until->0 + pause > u64::MAX {
                        u64::MAX
                    } else {
                        (before.disconnected_until->0 + pause) as u64
                    },
                )
            }
    }
    &&& m == (LeagueView { paused_since: m.paused_since, seats: m.seats, ..l })
}

proof fn lemma_pause_follows(l: LeagueView, now: u64)
    ensures
        pause_follows(l, rules::update_pause(l, now), now),
{
    let m = rules::update_pause(l, now);
    if !(l.manual_pause || l.infrastructure_down) && l.paused_since is Some {
        let pause = rules::elapsed(l.paused_since->0, now);
        assert(m.seats.dom() =~= l.seats.dom());
        assert forall|t: Text| #[trigger] l.seats.contains_key(t) implies m.seats[t]
            == rules::all_extended(l.seats[t], pause) by {}
    }
}

/// The host reports that the machines are down or up again, and the pause follows.
pub proof fn law_outages_are_reported(
    s: StateView,
    actor: Text,
    now: u64,
    league: Text,
    healthy: bool,
)
    ensures
        ({
            let l = s.leagues[league];
            let there = s.leagues.contains_key(league);
            match rules::step(
                s,
                actor,
                now,
                ActionView::Infrastructure { league, healthy },
                false,
            ) {
                Ok(next) => {
                    &&& there && actor == l.host
                    &&& results::touches_league(s, next, league)
                    &&& pause_follows(
                        LeagueView { infrastructure_down: !healthy, ..l },
                        next.leagues[league],
                        now,
                    )
                },
                Err(e) => {
                    ||| e == ErrorView::NotFound && !there
                    ||| e == ErrorView::Denied && there && actor != l.host
                },
            }
        }),
{
    lemma_pause_follows(
        LeagueView { infrastructure_down: !healthy, ..s.leagues[league] },
        now,
    );
    let result = rules::step(
        s,
        actor,
        now,
        ActionView::Infrastructure { league, healthy },
        false,
    );
    if result is Ok {
        assert(result->Ok_0.leagues.remove(league) =~= s.leagues.remove(league));
    }
}

/// The organizer pauses a match or lets it go on, and the pause follows.
pub proof fn law_organizers_pause(s: StateView, actor: Text, now: u64, league: Text, paused: bool)
    ensures
        ({
            let l = s.leagues[league];
            let there = s.leagues.contains_key(league);
            match rules::step(s, actor, now, ActionView::PauseLeague { league, paused }, false) {
                Ok(next) => {
                    &&& there && actor == l.organizer && l.phase is Playing
                    &&& results::touches_league(s, next, league)
                    &&& pause_follows(
                        LeagueView { manual_pause: paused, ..l },
                        next.leagues[league],
                        now,
                    )
                },
                Err(e) => {
                    ||| e == ErrorView::NotFound && !there
                    ||| e == ErrorView::Denied && there && !(actor == l.organizer
                        && l.phase is Playing)
                },
            }
        }),
{
    lemma_pause_follows(LeagueView { manual_pause: paused, ..s.leagues[league] }, now);
    let result = rules::step(s, actor, now, ActionView::PauseLeague { league, paused }, false);
    if result is Ok {
        assert(result->Ok_0.leagues.remove(league) =~= s.leagues.remove(league));
    }
}

/// The member has a seat of the team.
pub open spec fn sits_in(l: LeagueView, team: Text, member: Text) -> bool {
    l.seats.contains_key(team) && exists|i: int|
        0 <= i < l.seats[team].len() && (#[trigger] l.seats[team][i]).player == member
}

/// While a match goes on, who has a seat is sent to it, with the first team in which there is one
/// and the epoch of the first such seat there. Who has none waits, if a registered team has the
/// member on its roster. Everybody else, and everybody at other times, is not sent anywhere.
pub proof fn law_players_are_routed(l: LeagueView, member: Text)
    requires
        l.seats.dom().finite(),
    ensures
        match rules::route(l, member) {
            RouteView::Match { team, epoch } => {
                &&& l.phase is Playing
                &&& sits_in(l, team, member)
                &&& forall|o: Text| #[trigger]
                    sits_in(l, o, member) && o != team ==> order::bytes_before(
                        encode_utf8(team),
                        encode_utf8(o),
                    )
                &&& exists|i: int|
                    0 <= i < l.seats[team].len() && (#[trigger] l.seats[team][i]).player == member
                        && l.seats[team][i].epoch == epoch && forall|j: int|
                        0 <= j < i ==> (#[trigger] l.seats[team][j]).player != member
            },
            RouteView::Waiting => {
                &&& l.phase is Playing
                &&& forall|o: Text| !#[trigger] sits_in(l, o, member)
                &&& rules::team_of(l, member) is Some
                &&& l.teams[rules::team_of(l, member)->0].registered
            },
            RouteView::Unavailable => {
                ||| !(l.phase is Playing)
                ||| (forall|o: Text| !#[trigger] sits_in(l, o, member)) && (rules::team_of(
                    l,
                    member,
                ) is None || !l.teams[rules::team_of(l, member)->0].registered)
            },
        },
{
    let test = rules::seat_test(member);
    assert forall|t: Text| #[trigger] l.seats.contains_key(t) implies test(t, l.seats[t])
        == sits_in(l, t, member) by {
        if sits_in(l, t, member) {
            let i = choose|i: int|
                0 <= i < l.seats[t].len() && (#[trigger] l.seats[t][i]).player == member;
            assert(rules::sits_at(l.seats[t], member, i));
        }
        if rules::seated(l.seats[t], member) {
            let i = choose|i: int| #[trigger] rules::sits_at(l.seats[t], member, i);
            assert(l.seats[t][i].player == member);
        }
    }
    if rules::seat_team(l, member) is None {
        collections::lemma_first_key_absent::<String, Seq<SeatView>>(l.seats, test);
        assert forall|o: Text| !#[trigger] sits_in(l, o, member) by {
            if l.seats.contains_key(o) {
                assert(!test(o, l.seats[o]));
            }
        }
    } else {
        let team = choose|team: Text|
            collections::is_first::<String, Seq<SeatView>>(l.seats, test, team);
        assert(sits_in(l, team, member));
        assert forall|o: Text| #[trigger] sits_in(l, o, member) && o
            != team implies order::bytes_before(encode_utf8(team), encode_utf8(o)) by {
            assert(l.seats.contains_key(o));
            assert(test(o, l.seats[o]));
        }
        let i = lemma_first_place(l.seats[team], member);
        league::lemma_first_seat(l.seats[team], member, i);
        assert(rules::seat_team(l, member) == Some(team));
        if l.phase is Playing {
            assert(rules::route(l, member) == (RouteView::Match {
                team,
                epoch: l.seats[team][i].epoch,
            }));
        }
    }
}

proof fn lemma_first_place(seats: Seq<SeatView>, member: Text) -> (i: int)
    requires
        exists|i: int| 0 <= i < seats.len() && (#[trigger] seats[i]).player == member,
    ensures
        0 <= i < seats.len(),
        seats[i].player == member,
        forall|j: int| 0 <= j < i ==> (#[trigger] seats[j]).player != member,
    decreases seats.len(),
{
    let rest = seats.drop_last();
    if exists|i: int| 0 <= i < rest.len() && (#[trigger] rest[i]).player == member {
        let i = lemma_first_place(rest, member);
        assert forall|j: int| 0 <= j < i implies (#[trigger] seats[j]).player != member by {
            assert(rest[j].player != member);
        }
        assert(seats[i] == rest[i]);
        i
    } else {
        let i = seats.len() - 1;
        let k = choose|k: int| 0 <= k < seats.len() && (#[trigger] seats[k]).player == member;
        if k < i {
            assert(rest[k].player == member);
        }
        assert forall|j: int| 0 <= j < i implies (#[trigger] seats[j]).player != member by {
            assert(rest[j] == seats[j]);
        }
        i
    }
}

} // verus!
