//! What the council and the voting rules promise.
use vstd::prelude::*;

use crate::error::{ErrorView, Outcome};
use crate::model::rules;
use crate::model::views::{ActionView, CouncilView, ProposalView, StateView, Text};

verus! {

/// Once there is a council, no single device manages the federation, an administrator's
/// neither.
pub proof fn law_council_ends_single_management(
    s: StateView,
    actor: Text,
    now: u64,
    action: ActionView,
)
    requires
        s.council is Some,
        rules::protected(action),
    ensures
        rules::step(s, actor, now, action, false) == Outcome::<StateView>::Err(ErrorView::Denied),
        rules::apply(s, actor, s.revision, now, action) is Err,
{
}

/// Once there is a council, who is an administrator, who may vote on the log and which council
/// there is changes only by a proposal that enough schools stand behind.
pub proof fn law_management_needs_a_quorum(
    s: StateView,
    actor: Text,
    now: u64,
    action: ActionView,
)
    requires
        s.council is Some,
    ensures
        rules::step(s, actor, now, action, false) matches Ok(next) ==> (next.admins != s.admins
            || next.consensus_members != s.consensus_members || next.council != s.council ==> {
            &&& action matches ActionView::ExecuteProposal { id }
            &&& s.proposals.contains_key(id)
            &&& rules::is_carried(s.proposals[id], s.council->0, now)
            &&& next.council != s.council ==> s.proposals[id].action is UpdateCouncil
        }),
{
}

/// What is carried has a quorum of approvals, each from another school and by a device that
/// speaks for it; a change of the council has the higher quorum, and has waited.
pub proof fn law_carried_means_quorum(p: ProposalView, council: CouncilView, now: u64)
    requires
        rules::is_carried(p, council, now),
    ensures
        p.approvals.len() >= council.quorum || p.action is UpdateCouncil,
        p.action is UpdateCouncil ==> p.approvals.len() >= council.change_quorum && now
            >= rules::saturated(p.created_ms + council.cooldown_ms),
        p.epoch == council.epoch,
        p.expires_ms > now,
        forall|school: Text| #[trigger]
            p.approvals.contains_key(school) ==> rules::school_of(council, p.approvals[school])
                == Some(school),
{
}

/// Any two quorums have a school in common: each is more than half of the schools.
pub proof fn law_quorums_overlap(council: CouncilView)
    requires
        rules::is_council(council),
    ensures
        2 * council.quorum > council.schools.len(),
        2 * council.change_quorum > council.schools.len(),
        council.change_quorum >= council.quorum,
{
}

/// A school approves once, whichever of its devices speaks.
pub proof fn law_schools_approve_once(
    s: StateView,
    a: Text,
    b: Text,
    now: u64,
    later: u64,
    id: Text,
)
    requires
        s.council is Some,
        rules::school_of(s.council->0, a) == rules::school_of(s.council->0, b),
    ensures
        rules::approve(s, a, now, id) matches Ok(next) ==> rules::approve(next, b, later, id)
            == Outcome::<StateView>::Err(ErrorView::Denied),
{
}

/// The proposer's school counts as approving from the start, and no other one does.
pub proof fn law_proposals_start_with_one_school(
    s: StateView,
    actor: Text,
    now: u64,
    id: Text,
    action: ActionView,
    expires_ms: u64,
)
    ensures
        rules::propose(s, actor, now, id, action, expires_ms) matches Ok(next) ==> {
            &&& next.proposals[id].approvals.dom() == Set::empty().insert(
                rules::school_of(s.council->0, actor)->0,
            )
            &&& next.proposals[id].approvals[rules::school_of(s.council->0, actor)->0] == actor
        },
{
    if rules::propose(s, actor, now, id, action, expires_ms) is Ok {
        let next = rules::propose(s, actor, now, id, action, expires_ms)->Ok_0;
        let school = rules::school_of(s.council->0, actor)->0;
        assert(next.proposals[id].approvals.dom() =~= Set::empty().insert(school));
    }
}

/// Votes and feedback of members change nothing but ballots and feedback.
pub proof fn law_polls_confer_no_authority(s: StateView, actor: Text, now: u64, action: ActionView)
    requires
        action is MemberVote || action is SubmitFeedback,
    ensures
        rules::step(s, actor, now, action, false) matches Ok(next) ==> next == (StateView {
            ballots: next.ballots,
            feedback: next.feedback,
            ..s
        }),
{
}

} // verus!
