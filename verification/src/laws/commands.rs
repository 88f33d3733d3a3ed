//! What holds of every command, and of every history of commands.
use vstd::prelude::*;

use crate::laws::leagues;
use crate::laws::people;
use crate::model::rules;
use crate::model::views::{ActionView, LeagueView, MemberView, StateView, Text};

verus! {

/// Filling seats keeps a league in order.
proof fn lemma_fill_ok(members: Map<Text, MemberView>, l: LeagueView)
    requires
        rules::league_ok(members, l),
    ensures
        rules::fill_vacancies(l) matches Ok(next) ==> rules::league_ok(members, next),
{
    leagues::lemma_fill_keeps(l);
    if rules::fill_vacancies(l) is Ok {
        let next = rules::fill_vacancies(l)->Ok_0;
        assert forall|t: Text| #[trigger] next.seats.contains_key(t) implies next.teams.contains_key(
        t) by {
            assert(next.seats.dom().contains(t));
            assert(l.seats.contains_key(t));
        }
    }
}

/// A league with seats for the same teams as before.
proof fn lemma_same_seats_ok(members: Map<Text, MemberView>, l: LeagueView, n: LeagueView)
    requires
        rules::league_ok(members, l),
        n.rules == l.rules,
        n.teams == l.teams,
        n.seats.dom() == l.seats.dom(),
    ensures
        rules::league_ok(members, n),
{
    assert forall|t: Text| #[trigger] n.seats.contains_key(t) implies n.teams.contains_key(t) by {
        assert(n.seats.dom().contains(t));
        assert(l.seats.contains_key(t));
    }
}

/// Each command to a league keeps it in order.
proof fn lemma_league_step_ok(
    members: Map<Text, MemberView>,
    l: LeagueView,
    actor: Text,
    player: Option<Text>,
    now: u64,
    action: ActionView,
)
    requires
        rules::league_ok(members, l),
        player is Some ==> members.contains_key(player->0),
    ensures
        rules::league_step(members, l, actor, player, now, action) matches Ok(next)
            ==> rules::league_ok(members, next),
{
    let result = rules::league_step(members, l, actor, player, now, action);
    if result is Ok {
        let next = result->Ok_0;
        match action {
            ActionView::Presence { league, member, online, health } => {
                let measured = LeagueView { health: l.health.insert(member, health), ..l };
                let empty = rules::vacated(measured, now);
                assert(empty.seats.dom() =~= l.seats.dom());
                lemma_same_seats_ok(members, l, empty);
                lemma_fill_ok(members, empty);
                let settled = if rules::running(l) {
                    rules::replace_expired(measured, now)->Ok_0
                } else {
                    measured
                };
                let until = rules::saturated(now + rules::grace(health, l.rules));
                let seen = rules::with_presence(settled, member, online, until);
                assert(seen.seats.dom() =~= settled.seats.dom());
                lemma_same_seats_ok(members, settled, seen);
                lemma_fill_ok(members, seen);
            },
            ActionView::Start { league, seed } => {
                let n = rules::kicked_off(l, seed);
                assert forall|t: Text| #[trigger] n.seats.contains_key(
                    t,
                ) implies n.teams.contains_key(t) by {
                    if !rules::is_registered(l, t) {
                        assert(l.seats.contains_key(t));
                    }
                }
                assert(n.seats.dom().subset_of(l.teams.dom()));
                vstd::set_lib::lemma_set_subset_finite(l.teams.dom(), n.seats.dom());
                lemma_fill_ok(members, n);
            },
            ActionView::Tick { league } => {
                let empty = rules::vacated(l, now);
                assert(empty.seats.dom() =~= l.seats.dom());
                lemma_same_seats_ok(members, l, empty);
                lemma_fill_ok(members, empty);
            },
            ActionView::Infrastructure { league, healthy } => {
                assert(next.seats.dom() =~= l.seats.dom());
                lemma_same_seats_ok(members, l, next);
            },
            _ => {
                assert forall|t: Text| #[trigger] next.teams.contains_key(
                    t,
                ) implies members.contains_key(next.teams[t].captain) by {
                    if l.teams.contains_key(t) {
                    }
                }
            },
        }
    }
}

/// Leagues that are in order stay so with more members.
proof fn lemma_more_members_ok(a: Map<Text, MemberView>, b: Map<Text, MemberView>, l: LeagueView)
    requires
        rules::league_ok(a, l),
        forall|id: Text| #[trigger] a.contains_key(id) ==> b.contains_key(id),
    ensures
        rules::league_ok(b, l),
{
    assert forall|t: Text| #[trigger] l.teams.contains_key(t) implies b.contains_key(
        l.teams[t].captain,
    ) by {
        assert(a.contains_key(l.teams[t].captain));
    }
}

pub proof fn lemma_manage_well_formed(
    s: StateView,
    actor: Text,
    admin: bool,
    approved: bool,
    now: u64,
    action: ActionView,
)
    requires
        rules::well_formed(s),
    ensures
        rules::manage(s, actor, admin, approved, now, action) matches Ok(next)
            ==> rules::well_formed(next) && next.proposals == s.proposals,
{
    let result = rules::manage(s, actor, admin, approved, now, action);
    if result is Ok {
        let next = result->Ok_0;
        assert forall|id: Text| #[trigger] next.leagues.contains_key(id) implies rules::league_ok(
            next.members,
            next.leagues[id],
        ) by {
            if s.leagues.contains_key(id) {
                assert(rules::league_ok(s.members, s.leagues[id]));
                lemma_more_members_ok(s.members, next.members, s.leagues[id]);
                lemma_same_seats_ok(next.members, s.leagues[id], next.leagues[id]);
            }
        }
    }
}

/// Every command keeps the state well-formed.
pub proof fn lemma_step_well_formed(
    s: StateView,
    actor: Text,
    now: u64,
    action: ActionView,
    approved: bool,
)
    requires
        rules::well_formed(s),
    ensures
        rules::step(s, actor, now, action, approved) matches Ok(next) ==> rules::well_formed(next),
{
    let result = rules::step(s, actor, now, action, approved);
    if result is Ok {
        let next = result->Ok_0;
        if rules::protected(action) {
            lemma_manage_well_formed(
                s,
                actor,
                approved || s.admins.contains(actor),
                approved,
                now,
                action,
            );
        } else if rules::league_id(action) is Some {
            let id = rules::league_id(action)->0;
            let player = rules::owner(s.members, actor);
            people::lemma_owner(s.members, actor);
            assert(rules::league_ok(s.members, s.leagues[id]));
            lemma_league_step_ok(s.members, s.leagues[id], actor, player, now, action);
        } else {
            match action {
                ActionView::ExecuteProposal { id } => {
                    let p = s.proposals[id];
                    lemma_manage_well_formed(s, p.proposer, true, true, now, p.action);
                    let mid = rules::manage(s, p.proposer, true, true, now, p.action)->Ok_0;
                    assert forall|o: Text| #[trigger] next.proposals.contains_key(
                        o,
                    ) implies rules::protected(next.proposals[o].action) by {
                        assert(mid.proposals.contains_key(o));
                    }
                },
                ActionView::PauseLeague { league, paused } => {
                    let l = s.leagues[league];
                    assert(rules::league_ok(s.members, l));
                    assert(next.leagues[league].seats.dom() =~= l.seats.dom());
                    lemma_same_seats_ok(s.members, l, next.leagues[league]);
                },
                _ => {
                    people::lemma_owner(s.members, actor);
                    assert forall|id: Text| #[trigger] next.leagues.contains_key(
                        id,
                    ) implies rules::league_ok(next.members, next.leagues[id]) by {
                        assert(rules::league_ok(s.members, s.leagues[id]));
                        lemma_more_members_ok(s.members, next.members, s.leagues[id]);
                    }
                    assert forall|o: Text| #[trigger] next.proposals.contains_key(
                        o,
                    ) implies rules::protected(next.proposals[o].action) by {
                        if s.proposals.contains_key(o) {
                        }
                    }
                },
            }
        }
    }
}

} // verus!
