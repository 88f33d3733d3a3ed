//! What holds after any number of commands.
use vstd::prelude::*;

use crate::error::{ErrorView, Outcome};
use crate::governance::Phase;
use crate::laws::commands;
use crate::laws::leagues;
use crate::laws::people;
use crate::laws::seating;
use crate::model::rules;
use crate::model::views::{
    ActionView, BallotView, LeagueView, MemberView, ProposalView, SeatView, StateView, TeamView, Text,
};
use crate::outside;

verus! {

/// A vote in a ballot was cast by one who may vote, for one of the options.
pub open spec fn votes_sound(b: BallotView) -> bool {
    forall|m: Text| #[trigger]
        b.votes.contains_key(m) ==> b.electorate.contains(m) && b.votes[m] < b.options.len()
}

/// What holds of the federation at all times.
pub open spec fn sound(s: StateView) -> bool {
    &&& rules::well_formed(s)
    &&& people::devices_sound(s)
    &&& s.admins.finite()
    &&& s.admins.len() >= 1
    &&& forall|id: Text| #[trigger]
        s.leagues.contains_key(id) ==> leagues::league_sound(s.members, s.leagues[id])
    &&& forall|id: u64| #[trigger]
        s.consensus_members.contains_key(id) ==> !s.retired_consensus_ids.contains(id)
    &&& forall|a: Text, b: Text, league: Text|
        #![trigger s.seasons[a].leagues.contains(league), s.seasons[b].leagues.contains(league)]
        s.seasons.contains_key(a) && s.seasons.contains_key(b) && s.seasons[a].leagues.contains(
            league,
        ) && s.seasons[b].leagues.contains(league) ==> a == b
    &&& s.council matches Some(c) ==> rules::is_council(c)
    &&& forall|id: Text| #[trigger] s.ballots.contains_key(id) ==> votes_sound(s.ballots[id])
}

/// What no command takes back, whatever state it is given in.
pub open spec fn lasts(s: StateView, next: StateView) -> bool {
    &&& next.revision >= s.revision
    &&& next.clock_ms >= s.clock_ms
    &&& s.revoked_devices.subset_of(next.revoked_devices)
    &&& s.retired_consensus_ids.subset_of(next.retired_consensus_ids)
    &&& s.council is Some ==> next.council is Some && (next.council->0).epoch >= (
    s.council->0).epoch
    &&& forall|id: Text| #[trigger] s.members.contains_key(id) ==> next.members.contains_key(id)
    &&& forall|id: Text| #[trigger]
        s.proposals.contains_key(id) ==> next.proposals.contains_key(id) && proposal_follows(
            s.proposals[id],
            next.proposals[id],
        )
    &&& forall|id: Text| #[trigger]
        s.ballots.contains_key(id) ==> next.ballots.contains_key(id) && ballot_follows(
            s.ballots[id],
            next.ballots[id],
        )
    &&& forall|id: Text| #[trigger]
        s.leagues.contains_key(id) ==> next.leagues.contains_key(id) && league_follows(
            s.leagues[id],
            next.leagues[id],
        )
}

/// What never goes back from one state to a later one.
pub open spec fn follows(s: StateView, next: StateView) -> bool {
    &&& lasts(s, next)
    &&& forall|id: u64| #[trigger]
        s.consensus_members.contains_key(id) ==> (if next.consensus_members.contains_key(id) {
            next.consensus_members[id].peer == s.consensus_members[id].peer
        } else {
            next.retired_consensus_ids.contains(id)
        })
    &&& forall|id: u64| #[trigger]
        s.retired_consensus_ids.contains(id) ==> !next.consensus_members.contains_key(id)
}

/// What was proposed stays as it is; approvals stand, and what was decided is decided.
pub open spec fn proposal_follows(p: ProposalView, next: ProposalView) -> bool {
    &&& next.proposer == p.proposer
    &&& next.action == p.action
    &&& next.epoch == p.epoch
    &&& next.created_ms == p.created_ms
    &&& next.expires_ms == p.expires_ms
    &&& p.executed ==> next.executed
    &&& p.cancelled ==> next.cancelled
    &&& forall|school: Text| #[trigger]
        p.approvals.contains_key(school) ==> next.approvals.contains_key(school)
            && next.approvals[school] == p.approvals[school]
}

/// The question stays as it is, and a vote that was cast stays cast.
pub open spec fn ballot_follows(b: BallotView, next: BallotView) -> bool {
    &&& next.title == b.title
    &&& next.options == b.options
    &&& next.closes_ms == b.closes_ms
    &&& next.electorate == b.electorate
    &&& forall|m: Text| #[trigger]
        b.votes.contains_key(m) ==> next.votes.contains_key(m) && next.votes[m] == b.votes[m]
}

/// How far a phase is.
pub open spec fn progress(phase: Phase) -> int {
    match phase {
        Phase::Registration => 0,
        Phase::Playing => 1,
        Phase::Finished => 2,
    }
}

/// The team stays, with its captain and everybody who plays for it.
pub open spec fn team_follows(t: TeamView, next: TeamView) -> bool {
    next.captain == t.captain && t.members.subset_of(next.members)
}

/// The offices of a league, its rules and its teams stay, phases only go forward, and what was
/// scored stays on record.
pub open spec fn league_follows(l: LeagueView, next: LeagueView) -> bool {
    &&& next.rules == l.rules
    &&& next.organizer == l.organizer
    &&& next.host == l.host
    &&& next.scorer == l.scorer
    &&& progress(next.phase) >= progress(l.phase)
    &&& forall|team: Text| #[trigger]
        l.teams.contains_key(team) ==> next.teams.contains_key(team) && team_follows(
            l.teams[team],
            next.teams[team],
        )
    &&& forall|event: Text| #[trigger]
        l.score_events.contains_key(event) ==> next.score_events.contains_key(event)
            && next.score_events[event] == l.score_events[event]
    &&& next.epoch >= l.epoch
    &&& next.draw >= l.draw
    &&& l.played.subset_of(next.played)
}

proof fn lemma_follows_reflexive(s: StateView)
    requires
        sound(s),
    ensures
        follows(s, s),
{
    assert forall|id: u64| #[trigger] s.retired_consensus_ids.contains(
        id,
    ) implies !s.consensus_members.contains_key(id) by {
        if s.consensus_members.contains_key(id) {
        }
    }
}

proof fn lemma_lasts_transitive(a: StateView, b: StateView, c: StateView)
    requires
        lasts(a, b),
        lasts(b, c),
    ensures
        lasts(a, c),
{
    assert forall|id: Text| #[trigger] a.proposals.contains_key(id) implies c.proposals.contains_key(
        id,
    ) && proposal_follows(a.proposals[id], c.proposals[id]) by {
        assert(b.proposals.contains_key(id));
        assert(proposal_follows(a.proposals[id], b.proposals[id]));
        assert(proposal_follows(b.proposals[id], c.proposals[id]));
    }
    assert forall|id: Text| #[trigger] a.ballots.contains_key(id) implies c.ballots.contains_key(id)
        && ballot_follows(a.ballots[id], c.ballots[id]) by {
        assert(b.ballots.contains_key(id));
        assert(ballot_follows(a.ballots[id], b.ballots[id]));
        assert(ballot_follows(b.ballots[id], c.ballots[id]));
    }
    assert forall|id: Text| #[trigger] a.leagues.contains_key(id) implies c.leagues.contains_key(id)
        && league_follows(a.leagues[id], c.leagues[id]) by {
        assert(b.leagues.contains_key(id));
        assert(league_follows(a.leagues[id], b.leagues[id]));
        assert(league_follows(b.leagues[id], c.leagues[id]));
        lemma_league_follows_transitive(a.leagues[id], b.leagues[id], c.leagues[id]);
    }
}

proof fn lemma_follows_transitive(a: StateView, b: StateView, c: StateView)
    requires
        follows(a, b),
        follows(b, c),
    ensures
        follows(a, c),
{
    lemma_lasts_transitive(a, b, c);
    assert forall|id: u64| #[trigger] a.consensus_members.contains_key(id) implies (
    if c.consensus_members.contains_key(id) {
        c.consensus_members[id].peer == a.consensus_members[id].peer
    } else {
        c.retired_consensus_ids.contains(id)
    }) by {
        if !b.consensus_members.contains_key(id) {
            assert(b.retired_consensus_ids.contains(id));
        }
    }
    assert forall|id: u64| #[trigger] a.retired_consensus_ids.contains(
        id,
    ) implies !c.consensus_members.contains_key(id) by {
        assert(b.retired_consensus_ids.contains(id));
    }
}

proof fn lemma_league_follows_transitive(a: LeagueView, b: LeagueView, c: LeagueView)
    requires
        league_follows(a, b),
        league_follows(b, c),
    ensures
        league_follows(a, c),
{
    assert forall|team: Text| #[trigger] a.teams.contains_key(team) implies c.teams.contains_key(
        team,
    ) && team_follows(a.teams[team], c.teams[team]) by {
        assert(b.teams.contains_key(team));
        assert(team_follows(a.teams[team], b.teams[team]));
        assert(team_follows(b.teams[team], c.teams[team]));
    }
}

proof fn lemma_league_step_follows(
    members: Map<Text, MemberView>,
    l: LeagueView,
    actor: Text,
    player: Option<Text>,
    now: u64,
    action: ActionView,
)
    requires
        rules::league_ok(members, l),
    ensures
        rules::league_step(members, l, actor, player, now, action) matches Ok(next)
            ==> league_follows(l, next),
{
    let result = rules::league_step(members, l, actor, player, now, action);
    if result is Ok {
        let next = result->Ok_0;
        match action {
            ActionView::Presence { league, member, online, health } => {
                let measured = LeagueView { health: l.health.insert(member, health), ..l };
                let empty = rules::vacated(measured, now);
                assert(empty.seats.dom() =~= l.seats.dom());
                leagues::lemma_fill_keeps(empty);
                let settled = if rules::running(l) {
                    rules::replace_expired(measured, now)->Ok_0
                } else {
                    measured
                };
                assert(league_follows(l, settled));
                let until = rules::saturated(now + rules::grace(health, l.rules));
                let seen = rules::with_presence(settled, member, online, until);
                assert(seen.seats.dom() =~= settled.seats.dom());
                assert(league_follows(settled, seen));
                leagues::lemma_fill_keeps(seen);
                lemma_league_follows_transitive(l, settled, seen);
            },
            ActionView::Start { league, seed } => {
                let n = rules::kicked_off(l, seed);
                assert(n.seats.dom().subset_of(l.teams.dom().union(l.seats.dom())));
                vstd::set_lib::lemma_set_subset_finite(
                    l.teams.dom().union(l.seats.dom()),
                    n.seats.dom(),
                );
                leagues::lemma_fill_keeps(n);
            },
            ActionView::Tick { league } => {
                let empty = rules::vacated(l, now);
                assert(empty.seats.dom() =~= l.seats.dom());
                leagues::lemma_fill_keeps(empty);
            },
            _ => {},
        }
    }
}

/// The fields that commands other than the last bookkeeping step leave alone or let grow.
proof fn lemma_manage_lasts(
    s: StateView,
    actor: Text,
    admin: bool,
    approved: bool,
    now: u64,
    action: ActionView,
)
    requires
        rules::well_formed(s),
    ensures
        rules::manage(s, actor, admin, approved, now, action) matches Ok(next) ==> lasts(s, next)
            && next.revision == s.revision && next.clock_ms == s.clock_ms && next.proposals
            == s.proposals,
{
}

/// What a command leads to keeps what lasts, and only the last bookkeeping step changes the
/// revision and the clock.
pub proof fn lemma_step_lasts(
    s: StateView,
    actor: Text,
    now: u64,
    action: ActionView,
    approved: bool,
)
    requires
        rules::well_formed(s),
    ensures
        rules::step(s, actor, now, action, approved) matches Ok(next) ==> lasts(s, next)
            && next.revision == s.revision && next.clock_ms == s.clock_ms,
{
    let result = rules::step(s, actor, now, action, approved);
    if result is Ok {
        people::lemma_owner(s.members, actor);
        if rules::protected(action) {
            let admin = approved || s.admins.contains(actor);
            lemma_manage_lasts(s, actor, admin, approved, now, action);
        } else if rules::league_id(action) is Some {
            let id = rules::league_id(action)->0;
            let player = rules::owner(s.members, actor);
            assert(rules::league_ok(s.members, s.leagues[id]));
            lemma_league_step_follows(s.members, s.leagues[id], actor, player, now, action);
        } else {
            match action {
                ActionView::ExecuteProposal { id } => {
                    let p = s.proposals[id];
                    lemma_manage_lasts(s, p.proposer, true, true, now, p.action);
                },
                _ => {},
            }
        }
    }
}

proof fn lemma_manage_keeps_voters(
    s: StateView,
    actor: Text,
    admin: bool,
    approved: bool,
    now: u64,
    action: ActionView,
)
    requires
        sound(s),
    ensures
        rules::manage(s, actor, admin, approved, now, action) matches Ok(next) ==> {
            &&& forall|id: u64| #[trigger]
                s.consensus_members.contains_key(id) ==> (if next.consensus_members.contains_key(
                    id,
                ) {
                    next.consensus_members[id].peer == s.consensus_members[id].peer
                } else {
                    next.retired_consensus_ids.contains(id)
                })
            &&& forall|id: u64| #[trigger]
                s.retired_consensus_ids.contains(id) ==> !next.consensus_members.contains_key(id)
        },
{
    let result = rules::manage(s, actor, admin, approved, now, action);
    if result is Ok {
        let next = result->Ok_0;
        assert forall|id: u64| #[trigger] s.consensus_members.contains_key(id) implies (
        if next.consensus_members.contains_key(id) {
            next.consensus_members[id].peer == s.consensus_members[id].peer
        } else {
            next.retired_consensus_ids.contains(id)
        }) by {
            match action {
                ActionView::SetConsensusMembers { members } => {
                    if members.contains_key(id) {
                        assert(!rules::taken(s, members, id));
                    }
                },
                _ => {},
            }
        }
        assert forall|id: u64| #[trigger] s.retired_consensus_ids.contains(
            id,
        ) implies !next.consensus_members.contains_key(id) by {
            if s.consensus_members.contains_key(id) {
            }
            match action {
                ActionView::SetConsensusMembers { members } => {
                    if members.contains_key(id) {
                        assert(rules::taken(s, members, id));
                    }
                },
                _ => {},
            }
        }
    }
}

/// What a command leads to follows what was before.
pub proof fn lemma_step_follows(
    s: StateView,
    actor: Text,
    now: u64,
    action: ActionView,
    approved: bool,
)
    requires
        sound(s),
    ensures
        rules::step(s, actor, now, action, approved) matches Ok(next) ==> follows(s, next),
{
    lemma_step_lasts(s, actor, now, action, approved);
    lemma_follows_reflexive(s);
    if rules::protected(action) {
        let admin = approved || s.admins.contains(actor);
        lemma_manage_keeps_voters(s, actor, admin, approved, now, action);
    } else if action is ExecuteProposal {
        let p = s.proposals[action->ExecuteProposal_id];
        lemma_manage_keeps_voters(s, p.proposer, true, true, now, p.action);
    }
}

proof fn lemma_more_members_sound(
    a: Map<Text, MemberView>,
    b: Map<Text, MemberView>,
    l: LeagueView,
)
    requires
        leagues::league_sound(a, l),
        forall|id: Text| #[trigger] a.contains_key(id) ==> b.contains_key(id),
    ensures
        leagues::league_sound(b, l),
{
    assert forall|t: Text| #[trigger] l.teams.contains_key(t) implies b.contains_key(
        l.teams[t].captain,
    ) by {
        assert(a.contains_key(l.teams[t].captain));
    }
    assert forall|t: Text, p: Text|
        #![trigger l.teams[t].members.contains(p)]
        l.teams.contains_key(t) && l.teams[t].members.contains(p) implies b.contains_key(p) by {
        assert(a.contains_key(p));
    }
}

/// A league in which only a member's presence, the schedule or scores with the same names are
/// other than before.
proof fn lemma_side_change_sound(
    members: Map<Text, MemberView>,
    l: LeagueView,
    n: LeagueView,
)
    requires
        leagues::league_sound(members, l),
        n == (LeagueView { online: n.online, health: n.health, schedule: n.schedule, ..l }),
    ensures
        leagues::league_sound(members, n),
{
    leagues::lemma_same_occupants_sound(members, l, n);
}

proof fn lemma_manage_sound(
    s: StateView,
    actor: Text,
    admin: bool,
    approved: bool,
    now: u64,
    action: ActionView,
)
    requires
        sound(s),
    ensures
        rules::manage(s, actor, admin, approved, now, action) matches Ok(next) ==> sound(next),
{
    let result = rules::manage(s, actor, admin, approved, now, action);
    if result is Ok {
        let next = result->Ok_0;
        commands::lemma_manage_well_formed(s, actor, admin, approved, now, action);
        people::lemma_manage_devices_sound(s, actor, admin, approved, now, action);
        lemma_manage_lasts(s, actor, admin, approved, now, action);
        assert forall|id: Text| #[trigger] next.leagues.contains_key(
            id,
        ) implies leagues::league_sound(next.members, next.leagues[id]) by {
            if s.leagues.contains_key(id) {
                lemma_more_members_sound(s.members, next.members, s.leagues[id]);
                match action {
                    ActionView::ResolveDispute { id: d, response, players, teams } => {
                        leagues::lemma_rescoring_sound(
                            s.members,
                            s.leagues[s.disputes[d].league],
                            players,
                            teams,
                            ErrorView::Denied,
                            ErrorView::Capacity,
                        );
                    },
                    _ => {
                        lemma_side_change_sound(next.members, s.leagues[id], next.leagues[id]);
                    },
                }
            }
        }
        match action {
            ActionView::ScheduleLeague { season, league, schedule } => {
                assert forall|a: Text, b: Text, x: Text|
                    #![trigger next.seasons[a].leagues.contains(x), next.seasons[b].leagues.contains(x)]
                    next.seasons.contains_key(a) && next.seasons.contains_key(b)
                        && next.seasons[a].leagues.contains(x) && next.seasons[b].leagues.contains(
                        x,
                    ) implies a == b by {
                    if a != b {
                        if x == league {
                            let other = if a == season {
                                b
                            } else {
                                a
                            };
                            assert(s.seasons.contains_key(other));
                            assert(s.seasons[other].leagues.contains(league));
                        } else {
                            assert(s.seasons[a].leagues.contains(x) && s.seasons[b].leagues.contains(
                                x,
                            ));
                        }
                    }
                }
            },
            ActionView::CreateSeason { id, title } => {
                assert forall|a: Text, b: Text, x: Text|
                    #![trigger next.seasons[a].leagues.contains(x), next.seasons[b].leagues.contains(x)]
                    next.seasons.contains_key(a) && next.seasons.contains_key(b)
                        && next.seasons[a].leagues.contains(x) && next.seasons[b].leagues.contains(
                        x,
                    ) implies a == b by {
                    if a != id && b != id {
                        assert(s.seasons[a].leagues.contains(x) && s.seasons[b].leagues.contains(
                            x,
                        ));
                    }
                }
            },
            ActionView::SetConsensusMembers { members } => {
                assert forall|id: u64| #[trigger] next.consensus_members.contains_key(
                    id,
                ) implies !next.retired_consensus_ids.contains(id) by {
                    assert(members.contains_key(id));
                    assert(!rules::taken(s, members, id));
                }
            },
            _ => {},
        }
    }
}

/// Every command keeps what holds of the federation at all times.
pub proof fn law_step_sound(
    s: StateView,
    actor: Text,
    now: u64,
    action: ActionView,
    approved: bool,
)
    requires
        sound(s),
    ensures
        rules::step(s, actor, now, action, approved) matches Ok(next) ==> sound(next),
{
    let result = rules::step(s, actor, now, action, approved);
    if result is Ok {
        let next = result->Ok_0;
        commands::lemma_step_well_formed(s, actor, now, action, approved);
        people::lemma_step_devices_sound(s, actor, now, action, approved);
        people::lemma_owner(s.members, actor);
        lemma_step_follows(s, actor, now, action, approved);
        if rules::protected(action) {
            let admin = approved || s.admins.contains(actor);
            lemma_manage_sound(s, actor, admin, approved, now, action);
        } else if rules::league_id(action) is Some {
            let id = rules::league_id(action)->0;
            let player = rules::owner(s.members, actor);
            assert(leagues::league_sound(s.members, s.leagues[id]));
            leagues::law_league_step_sound(s.members, s.leagues[id], actor, player, now, action);
        } else {
            match action {
                ActionView::ExecuteProposal { id } => {
                    let p = s.proposals[id];
                    lemma_manage_sound(s, p.proposer, true, true, now, p.action);
                },
                ActionView::PauseLeague { league, paused } => {
                    let l = s.leagues[league];
                    let mid = LeagueView { manual_pause: paused, ..l };
                    leagues::lemma_same_occupants_sound(s.members, l, mid);
                    leagues::lemma_update_pause_sound(s.members, mid, now);
                },
                ActionView::MemberVote { id, option } => {
                    assert(votes_sound(s.ballots[id]));
                    assert(votes_sound(next.ballots[id]));
                },
                _ => {
                    assert forall|id: Text| #[trigger] next.leagues.contains_key(
                        id,
                    ) implies leagues::league_sound(next.members, next.leagues[id]) by {
                        lemma_more_members_sound(s.members, next.members, s.leagues[id]);
                    }
                },
            }
        }
    }
}

/// A command that is accepted leads to a sound state with the next revision, at its own time,
/// and takes back nothing that is final.
pub proof fn law_accepted_command(
    s: StateView,
    actor: Text,
    revision: u64,
    now: u64,
    action: ActionView,
)
    requires
        sound(s),
    ensures
        rules::apply(s, actor, revision, now, action) matches Ok(next) ==> {
            &&& sound(next)
            &&& follows(s, next)
            &&& revision == s.revision
            &&& next.revision == s.revision + 1
            &&& next.clock_ms == now
            &&& now >= s.clock_ms
        },
{
    if rules::apply(s, actor, revision, now, action) is Ok {
        let next = rules::apply(s, actor, revision, now, action)->Ok_0;
        let mid = rules::step(s, actor, now, action, false)->Ok_0;
        law_step_sound(s, actor, now, action, false);
        lemma_step_follows(s, actor, now, action, false);
        lemma_step_lasts(s, actor, now, action, false);
        assert(people::devices_sound(next));
    }
}

/// A command as it is given to the federation.
pub struct Submission {
    pub actor: Text,
    pub revision: u64,
    pub now: u64,
    pub action: ActionView,
}

/// The state after the first `n` commands, each of which is carried out or refused.
pub open spec fn after(s: StateView, commands: Seq<Submission>, n: nat) -> StateView
    decreases n,
{
    if n == 0 {
        s
    } else {
        let before = after(s, commands, (n - 1) as nat);
        let c = commands[n - 1];
        match rules::apply(before, c.actor, c.revision, c.now, c.action) {
            Ok(next) => next,
            Err(_) => before,
        }
    }
}

/// Whatever commands a new federation is given, it stays sound.
pub proof fn law_every_history_is_sound(admins: Set<Text>, commands: Seq<Submission>, n: nat)
    requires
        admins.finite(),
        rules::created(admins) is Ok,
    ensures
        sound(after(rules::new_state(admins), commands, n)),
    decreases n,
{
    if n > 0 {
        let m = (n - 1) as nat;
        law_every_history_is_sound(admins, commands, m);
        let before = after(rules::new_state(admins), commands, m);
        let c = commands[n - 1];
        law_accepted_command(before, c.actor, c.revision, c.now, c.action);
    }
}

/// Later states of a history follow earlier ones.
pub proof fn law_history_follows(s: StateView, commands: Seq<Submission>, m: nat, n: nat)
    requires
        sound(s),
        m <= n,
    ensures
        sound(after(s, commands, m)),
        sound(after(s, commands, n)),
        follows(after(s, commands, m), after(s, commands, n)),
    decreases n,
{
    if n == 0 {
        lemma_follows_reflexive(s);
    } else if m == n {
        law_history_follows(s, commands, (n - 1) as nat, (n - 1) as nat);
        let before = after(s, commands, (n - 1) as nat);
        let c = commands[n - 1];
        law_accepted_command(before, c.actor, c.revision, c.now, c.action);
        lemma_follows_reflexive(after(s, commands, n));
    } else {
        let k = (n - 1) as nat;
        law_history_follows(s, commands, m, k);
        let before = after(s, commands, k);
        let c = commands[n - 1];
        law_accepted_command(before, c.actor, c.revision, c.now, c.action);
        lemma_follows_reflexive(before);
        lemma_follows_transitive(after(s, commands, m), before, after(s, commands, n));
    }
}

/// Later states of any history keep what lasts.
pub proof fn law_history_lasts(s: StateView, commands: Seq<Submission>, n: nat)
    requires
        rules::well_formed(s),
    ensures
        rules::well_formed(after(s, commands, n)),
        lasts(s, after(s, commands, n)),
    decreases n,
{
    if n > 0 {
        let m = (n - 1) as nat;
        law_history_lasts(s, commands, m);
        let before = after(s, commands, m);
        let c = commands[n - 1];
        lemma_step_lasts(before, c.actor, c.now, c.action, false);
        commands::lemma_step_well_formed(before, c.actor, c.now, c.action, false);
        let result = rules::apply(before, c.actor, c.revision, c.now, c.action);
        if result is Ok {
            let mid = rules::step(before, c.actor, c.now, c.action, false)->Ok_0;
            assert(lasts(before, mid));
            assert(lasts(before, result->Ok_0));
            lemma_lasts_transitive(s, before, result->Ok_0);
        }
    }
}

/// A history keeps devices apart and takes no revocation back.
proof fn lemma_history_devices(s: StateView, commands: Seq<Submission>, n: nat)
    requires
        people::devices_apart(s),
    ensures
        people::devices_apart(after(s, commands, n)),
        s.revoked_devices.subset_of(after(s, commands, n).revoked_devices),
    decreases n,
{
    if n > 0 {
        let m = (n - 1) as nat;
        lemma_history_devices(s, commands, m);
        let c = commands[n - 1];
        people::law_devices_stay_apart(
            after(s, commands, m),
            c.actor,
            c.revision,
            c.now,
            c.action,
        );
    }
}

/// A revoked device can do nothing from then on, whatever happens in between: it is not
/// enrolled again, and can neither act nor read.
pub proof fn law_revocation_is_final(
    s: StateView,
    commands: Seq<Submission>,
    n: nat,
    device: Text,
    revision: u64,
    now: u64,
    action: ActionView,
)
    requires
        people::devices_apart(s),
        s.revoked_devices.contains(device),
    ensures
        rules::apply(after(s, commands, n), device, revision, now, action) == Outcome::<
            StateView,
        >::Err(ErrorView::Denied),
        !rules::can_read(after(s, commands, n), device),
        !rules::enrolled(after(s, commands, n).members, device),
{
    lemma_history_devices(s, commands, n);
    let later = after(s, commands, n);
    assert(later.revoked_devices.contains(device));
    if rules::enrolled(later.members, device) {
        let id = choose|id: Text| #[trigger]
            later.members.contains_key(id) && rules::owns(later.members[id], device);
        assert(!later.revoked_devices.contains(device));
    }
}

/// The number of a voter that was given up is never used again.
pub proof fn law_voter_numbers_are_not_reused(
    s: StateView,
    commands: Seq<Submission>,
    n: nat,
    id: u64,
)
    requires
        sound(s),
        s.retired_consensus_ids.contains(id),
    ensures
        !after(s, commands, n).consensus_members.contains_key(id),
{
    law_history_follows(s, commands, 0, n);
}

/// The commands that deal with a proposal once it is made.
pub open spec fn handles(action: ActionView, id: Text) -> bool {
    ||| action == ActionView::ApproveProposal { id }
    ||| action == ActionView::CancelProposal { id }
    ||| action == ActionView::ExecuteProposal { id }
}

/// Carrying out a proposal or taking it back decides it.
proof fn lemma_decided(s: StateView, actor: Text, now: u64, action: ActionView, id: Text)
    requires
        action == (ActionView::ExecuteProposal { id }) || action == (ActionView::CancelProposal {
            id,
        }),
    ensures
        rules::step(s, actor, now, action, false) matches Ok(next) ==> next.proposals.contains_key(
            id,
        ) && (next.proposals[id].executed || next.proposals[id].cancelled),
{
}

/// A proposal takes effect at most once, and never after it was taken back: once it was carried
/// out or taken back, whatever happens in between, whoever approves it, takes it back or carries
/// it out is denied, and nothing changes.
pub proof fn law_proposals_are_decided_once(
    s: StateView,
    actor: Text,
    now: u64,
    decision: ActionView,
    id: Text,
    commands: Seq<Submission>,
    n: nat,
    other: Text,
    revision: u64,
    later: u64,
    action: ActionView,
    approved: bool,
)
    requires
        rules::well_formed(s),
        decision == (ActionView::ExecuteProposal { id }) || decision == (
        ActionView::CancelProposal { id }),
        rules::step(s, actor, now, decision, false) is Ok,
        handles(action, id),
    ensures
        ({
            let then = after(rules::step(s, actor, now, decision, false)->Ok_0, commands, n);
            &&& rules::step(then, other, later, action, approved) == Outcome::<StateView>::Err(
                ErrorView::Denied,
            )
            &&& rules::apply(then, other, revision, later, action) is Err
            &&& revision == then.revision && later >= then.clock_ms ==> rules::apply(
                then,
                other,
                revision,
                later,
                action,
            ) == Outcome::<StateView>::Err(ErrorView::Denied)
        }),
{
    let decided = rules::step(s, actor, now, decision, false)->Ok_0;
    lemma_decided(s, actor, now, decision, id);
    commands::lemma_step_well_formed(s, actor, now, decision, false);
    law_history_lasts(decided, commands, n);
    let then = after(decided, commands, n);
    assert(proposal_follows(decided.proposals[id], then.proposals[id]));
}

/// A vote counts for the person: after one device of a member has voted, no device of that
/// member can vote in the ballot again, or change the vote.
pub proof fn law_one_vote_per_person(
    s: StateView,
    commands: Seq<Submission>,
    n: nat,
    id: Text,
    member: Text,
    device: Text,
    revision: u64,
    now: u64,
    option: usize,
)
    requires
        sound(s),
        s.ballots.contains_key(id),
        s.ballots[id].votes.contains_key(member),
        rules::owner(after(s, commands, n).members, device) == Some(member),
    ensures
        rules::apply(
            after(s, commands, n),
            device,
            revision,
            now,
            ActionView::MemberVote { id, option },
        ) is Err,
        after(s, commands, n).ballots[id].votes[member] == s.ballots[id].votes[member],
{
    law_history_follows(s, commands, 0, n);
    let later = after(s, commands, n);
    assert(ballot_follows(s.ballots[id], later.ballots[id]));
}

/// A score event counts once: after the scorer has sent it, and whatever happens in between,
/// the same event is accepted again and changes nothing, and the event with other scores is a
/// protocol error. Scores are told apart by the digest of their text.
pub proof fn law_score_events_count_once(
    s: StateView,
    scorer: Text,
    now: u64,
    league: Text,
    event: Text,
    players: Map<Text, i64>,
    teams: Map<Text, i64>,
    commands: Seq<Submission>,
    n: nat,
    later: u64,
    other_players: Map<Text, i64>,
    other_teams: Map<Text, i64>,
    approved: bool,
)
    requires
        rules::well_formed(s),
        rules::step(
            s,
            scorer,
            now,
            ActionView::Score { league, event, players, teams },
            false,
        ) is Ok,
    ensures
        ({
            let sent = ActionView::Score { league, event, players, teams };
            let changed = ActionView::Score {
                league,
                event,
                players: other_players,
                teams: other_teams,
            };
            let then = after(rules::step(s, scorer, now, sent, false)->Ok_0, commands, n);
            &&& rules::step(then, scorer, later, sent, approved) == Outcome::<StateView>::Ok(then)
            &&& rules::digest(outside::score_json(other_players, other_teams)) != rules::digest(
                outside::score_json(players, teams),
            ) ==> rules::step(then, scorer, later, changed, approved) == Outcome::<StateView>::Err(
                ErrorView::Protocol("score event id reused with different payload"@),
            )
        }),
{
    let sent = ActionView::Score { league, event, players, teams };
    let first = rules::step(s, scorer, now, sent, false)->Ok_0;
    commands::lemma_step_well_formed(s, scorer, now, sent, false);
    law_history_lasts(first, commands, n);
    let then = after(first, commands, n);
    assert(first.leagues.contains_key(league));
    assert(league_follows(first.leagues[league], then.leagues[league]));
    assert(first.leagues[league].score_events.contains_key(event));
    let again = rules::step(then, scorer, later, sent, approved);
    assert(again is Ok);
    assert(again->Ok_0.leagues =~= then.leagues);
}

/// Nobody comes to play for two teams of a league, and each captain plays for the own team. A
/// team, once it is there, stays, with its captain and everybody who plays for it.
pub proof fn law_teams_stay(
    s: StateView,
    actor: Text,
    revision: u64,
    now: u64,
    action: ActionView,
)
    requires
        rules::well_formed(s),
        forall|id: Text| #[trigger]
            s.leagues.contains_key(id) ==> leagues::rosters_apart(s.leagues[id]),
    ensures
        rules::apply(s, actor, revision, now, action) matches Ok(next) ==> {
            &&& forall|id: Text| #[trigger]
                next.leagues.contains_key(id) ==> leagues::rosters_apart(next.leagues[id])
            &&& forall|id: Text| #[trigger]
                s.leagues.contains_key(id) ==> next.leagues.contains_key(id)
            &&& forall|id: Text, team: Text|
                #![trigger s.leagues[id].teams.contains_key(team)]
                s.leagues.contains_key(id) && s.leagues[id].teams.contains_key(team) ==> {
                    &&& next.leagues[id].teams.contains_key(team)
                    &&& next.leagues[id].teams[team].captain == s.leagues[id].teams[team].captain
                    &&& s.leagues[id].teams[team].members.subset_of(
                        next.leagues[id].teams[team].members,
                    )
                }
        },
{
    if rules::apply(s, actor, revision, now, action) is Ok {
        let next = rules::apply(s, actor, revision, now, action)->Ok_0;
        let mid = rules::step(s, actor, now, action, false)->Ok_0;
        lemma_step_lasts(s, actor, now, action, false);
        lemma_step_rosters(s, actor, now, action);
        assert(next.leagues == mid.leagues);
        assert forall|id: Text, team: Text|
            #![trigger s.leagues[id].teams.contains_key(team)]
            s.leagues.contains_key(id) && s.leagues[id].teams.contains_key(team) implies {
            &&& next.leagues[id].teams.contains_key(team)
            &&& next.leagues[id].teams[team].captain == s.leagues[id].teams[team].captain
            &&& s.leagues[id].teams[team].members.subset_of(next.leagues[id].teams[team].members)
        } by {
            assert(league_follows(s.leagues[id], mid.leagues[id]));
            assert(team_follows(s.leagues[id].teams[team], mid.leagues[id].teams[team]));
        }
    }
}

proof fn lemma_step_rosters(s: StateView, actor: Text, now: u64, action: ActionView)
    requires
        rules::well_formed(s),
        forall|id: Text| #[trigger]
            s.leagues.contains_key(id) ==> leagues::rosters_apart(s.leagues[id]),
    ensures
        rules::step(s, actor, now, action, false) matches Ok(next) ==> (forall|id: Text| #[trigger]
            next.leagues.contains_key(id) ==> leagues::rosters_apart(next.leagues[id])),
{
    let result = rules::step(s, actor, now, action, false);
    if result is Ok {
        let next = result->Ok_0;
        if rules::league_id(action) is Some {
            let id = rules::league_id(action)->0;
            let player = rules::owner(s.members, actor);
            leagues::lemma_league_step_rosters(
                s.members,
                s.leagues[id],
                actor,
                player,
                now,
                action,
            );
        } else if action is PauseLeague {
            let id = action->PauseLeague_league;
            leagues::lemma_same_teams_apart(s.leagues[id], next.leagues[id]);
        } else {
            lemma_others_leave_seats(s, actor, now, action);
            assert forall|id: Text| #[trigger] next.leagues.contains_key(
                id,
            ) implies leagues::rosters_apart(next.leagues[id]) by {
                if s.leagues.contains_key(id) {
                    leagues::lemma_same_teams_apart(s.leagues[id], next.leagues[id]);
                }
            }
        }
    }
}

/// The seats of every league stay in order: each is for a player of the team who is on record
/// as having played, nobody has two of a team, no team has too many, and no two have the same
/// epoch. Epochs and draws only go up, and a seat that was not there before has an epoch that
/// the league had not reached.
pub proof fn law_seats_stay_in_order(
    s: StateView,
    actor: Text,
    revision: u64,
    now: u64,
    action: ActionView,
)
    requires
        rules::well_formed(s),
        forall|id: Text| #[trigger]
            s.leagues.contains_key(id) ==> leagues::seating_sound(s.leagues[id]),
    ensures
        rules::apply(s, actor, revision, now, action) matches Ok(next) ==> {
            &&& forall|id: Text| #[trigger]
                next.leagues.contains_key(id) ==> leagues::seating_sound(next.leagues[id])
            &&& forall|id: Text| #[trigger]
                s.leagues.contains_key(id) ==> {
                    &&& next.leagues.contains_key(id)
                    &&& next.leagues[id].epoch >= s.leagues[id].epoch
                    &&& next.leagues[id].draw >= s.leagues[id].draw
                    &&& seating::new_seats_are_later(s.leagues[id], next.leagues[id])
                }
        },
{
    if rules::apply(s, actor, revision, now, action) is Ok {
        let next = rules::apply(s, actor, revision, now, action)->Ok_0;
        let mid = rules::step(s, actor, now, action, false)->Ok_0;
        lemma_step_lasts(s, actor, now, action, false);
        lemma_step_seating(s, actor, now, action);
        assert(next.leagues == mid.leagues);
        assert forall|id: Text| #[trigger] s.leagues.contains_key(id) implies {
            &&& next.leagues.contains_key(id)
            &&& next.leagues[id].epoch >= s.leagues[id].epoch
            &&& next.leagues[id].draw >= s.leagues[id].draw
            &&& seating::new_seats_are_later(s.leagues[id], next.leagues[id])
        } by {
            assert(league_follows(s.leagues[id], mid.leagues[id]));
        }
    }
}

/// What other commands than those to a league leave alone of the leagues.
spec fn seats_untouched(l: LeagueView, next: LeagueView) -> bool {
    &&& next.rules == l.rules
    &&& next.teams == l.teams
    &&& next.played == l.played
    &&& next.epoch == l.epoch
    &&& next.seats == l.seats
}

/// Each league of `next` was there before with the same teams and seats, or is new and has none.
spec fn all_seats_untouched(s: StateView, next: StateView) -> bool {
    forall|id: Text| #[trigger]
        next.leagues.contains_key(id) ==> if s.leagues.contains_key(id) {
            seats_untouched(s.leagues[id], next.leagues[id])
        } else {
            next.leagues[id].seats == Map::<Text, Seq<SeatView>>::empty()
                && next.leagues[id].teams == Map::<Text, TeamView>::empty()
        }
}

proof fn lemma_manage_leaves_seats(
    s: StateView,
    actor: Text,
    admin: bool,
    approved: bool,
    now: u64,
    action: ActionView,
)
    ensures
        rules::manage(s, actor, admin, approved, now, action) matches Ok(next)
            ==> all_seats_untouched(s, next),
{
}

proof fn lemma_others_leave_seats(s: StateView, actor: Text, now: u64, action: ActionView)
    requires
        rules::league_id(action) is None,
        !(action is PauseLeague),
    ensures
        rules::step(s, actor, now, action, false) matches Ok(next) ==> all_seats_untouched(s, next),
{
    if rules::protected(action) {
        lemma_manage_leaves_seats(s, actor, s.admins.contains(actor), false, now, action);
    } else if action is ExecuteProposal {
        let p = s.proposals[action->ExecuteProposal_id];
        lemma_manage_leaves_seats(s, p.proposer, true, true, now, p.action);
    }
}

proof fn lemma_step_seating(s: StateView, actor: Text, now: u64, action: ActionView)
    requires
        rules::well_formed(s),
        forall|id: Text| #[trigger]
            s.leagues.contains_key(id) ==> leagues::seating_sound(s.leagues[id]),
    ensures
        rules::step(s, actor, now, action, false) matches Ok(next) ==> {
            &&& forall|id: Text| #[trigger]
                next.leagues.contains_key(id) ==> leagues::seating_sound(next.leagues[id])
            &&& forall|id: Text| #[trigger]
                s.leagues.contains_key(id) ==> seating::new_seats_are_later(
                    s.leagues[id],
                    next.leagues[id],
                )
        },
{
    let result = rules::step(s, actor, now, action, false);
    if result is Ok {
        let next = result->Ok_0;
        lemma_step_lasts(s, actor, now, action, false);
        if rules::league_id(action) is Some {
            let id = rules::league_id(action)->0;
            let player = rules::owner(s.members, actor);
            assert(rules::league_ok(s.members, s.leagues[id]));
            seating::lemma_league_step_seats(
                s.members,
                s.leagues[id],
                actor,
                player,
                now,
                action,
            );
        } else if action is PauseLeague {
            let l = s.leagues[action->PauseLeague_league];
            let mid = LeagueView { manual_pause: action->PauseLeague_paused, ..l };
            seating::lemma_same_seats(l, mid);
            seating::lemma_pause_seats(mid, now);
        } else {
            lemma_others_leave_seats(s, actor, now, action);
            assert forall|id: Text| #[trigger] next.leagues.contains_key(
                id,
            ) implies leagues::seating_sound(next.leagues[id]) by {
                if s.leagues.contains_key(id) {
                    seating::lemma_same_seats(s.leagues[id], next.leagues[id]);
                }
            }
        }
        assert forall|id: Text| #[trigger] s.leagues.contains_key(
            id,
        ) implies seating::new_seats_are_later(s.leagues[id], next.leagues[id]) by {
            assert(next.leagues.contains_key(id));
            if rules::league_id(action) is None && !(action is PauseLeague) {
                seating::lemma_same_seats(s.leagues[id], next.leagues[id]);
            } else if action is PauseLeague && action->PauseLeague_league == id {
                let l = s.leagues[id];
                let mid = LeagueView { manual_pause: action->PauseLeague_paused, ..l };
                seating::lemma_later_transitive(l, mid, next.leagues[id]);
            }
        }
    }
}

} // verus!
