//! What commands do to the council, its proposals, and the members' polls and feedback.
use vstd::prelude::*;
use vstd::utf8::*;

use crate::collections;
use crate::error::{ErrorView, Outcome};
use crate::laws::membership;
use crate::model::rules;
use crate::model::views::{
    ActionView, BallotView, CouncilView, FeedbackView, ProposalView, StateView, Text,
};
use crate::order;
use crate::outside;
use crate::text;

verus! {

/// A text says something: it is not all white space, takes at most `max` bytes and holds no
/// control character but line feeds.
pub open spec fn says(body: Text, max: nat) -> bool {
    &&& exists|i: int| 0 <= i < body.len() && !text::is_white_char(#[trigger] body[i])
    &&& encode_utf8(body).len() <= max
    &&& forall|i: int|
        0 <= i < body.len() ==> ((#[trigger] body[i]) == '\n' || !(body[i] as u32 <= 31 || 127
            <= body[i] as u32 <= 159))
}

/// The code points of white space.
pub open spec fn white_points() -> Seq<u32> {
    seq![
        9u32, 10, 11, 12, 13, 32, 133, 160, 5760, 8192, 8193, 8194, 8195, 8196, 8197, 8198, 8199,
        8200, 8201, 8202, 8232, 8233, 8239, 8287, 12288
    ]
}

/// A character is white space exactly where its code point is one of them.
pub proof fn law_white_space(c: char)
    ensures
        text::is_white_char(c) <==> white_points().contains(c as u32),
{
    let w = white_points();
    let v = c as u32;
    if text::is_white_char(c) {
        let i: int = if v <= 13 {
            v - 9
        } else if v == 32 {
            5
        } else if v == 133 {
            6
        } else if v == 160 {
            7
        } else if v == 5760 {
            8
        } else if v <= 8202 {
            v - 8192 + 9
        } else if v == 8232 {
            20
        } else if v == 8233 {
            21
        } else if v == 8239 {
            22
        } else if v == 8287 {
            23
        } else {
            24
        };
        assert(w[i] == v);
    }
}

/// What can be written for others to read.
pub proof fn law_texts_say_something(body: Text, max: nat)
    ensures
        text::is_text(body, max) <==> says(body, max),
{
    if text::is_text(body, max) {
        let i = choose|i: int| 0 <= i < body.len() && !text::is_white_char(#[trigger] body[i]);
        assert(!text::is_white_char(body[i]));
        assert forall|j: int| 0 <= j < body.len() implies ((#[trigger] body[j]) == '\n' || !(
        body[j] as u32 <= 31 || 127 <= body[j] as u32 <= 159)) by {
            assert(text::is_control_char(body[j]) ==> body[j] == '\n');
        }
    }
    if says(body, max) {
        assert forall|j: int| 0 <= j < body.len() && text::is_control_char(
            #[trigger] body[j],
        ) implies body[j] == '\n' by {}
    }
}

/// The device speaks for the school in the council: no school with an earlier name has it too.
pub open spec fn speaks_for(c: CouncilView, device: Text, school: Text) -> bool {
    &&& c.schools.contains_key(school)
    &&& c.schools[school].contains(device)
    &&& forall|o: Text| #[trigger]
        c.schools.contains_key(o) && c.schools[o].contains(device) && o != school
            ==> order::bytes_before(encode_utf8(school), encode_utf8(o))
}

/// No school of the council has the device.
pub open spec fn voiceless(c: CouncilView, device: Text) -> bool {
    forall|o: Text| #[trigger] c.schools.contains_key(o) ==> !c.schools[o].contains(device)
}

/// A device speaks for the first school that has it, and for none where none has it.
pub proof fn law_devices_speak_for_their_schools(c: CouncilView, device: Text, school: Text)
    ensures
        speaks_for(c, device, school) ==> rules::school_of(c, device) == Some(school),
        voiceless(c, device) ==> rules::school_of(c, device) is None,
        rules::school_of(c, device) matches Some(id) ==> speaks_for(c, device, id),
        rules::represents(c, device) <==> !voiceless(c, device),
{
    let test = rules::school_test(device);
    if speaks_for(c, device, school) {
        assert(collections::is_first::<String, Set<Text>>(c.schools, test, school)) by {
            assert(test(school, c.schools[school]));
            assert forall|o: Text| #[trigger]
                c.schools.contains_key(o) && test(o, c.schools[o]) && o
                    != school implies <String as order::Key>::before(school, o) by {}
        }
        collections::lemma_first_key::<String, Set<Text>>(c.schools, test, school);
    }
    if voiceless(c, device) {
        assert forall|id: Text| !collections::is_first::<String, Set<Text>>(
            c.schools,
            test,
            id,
        ) by {
            if c.schools.contains_key(id) {
                assert(!c.schools[id].contains(device));
            }
        }
    }
    if rules::school_of(c, device) is Some {
        let id = choose|id: Text|
            collections::is_first::<String, Set<Text>>(c.schools, test, id);
        assert(test(id, c.schools[id]));
        assert forall|o: Text| #[trigger]
            c.schools.contains_key(o) && c.schools[o].contains(device) && o
                != id implies order::bytes_before(encode_utf8(id), encode_utf8(o)) by {
            assert(test(o, c.schools[o]));
        }
    }
}

/// A council has up to 128 schools. Two thirds of them decide, three quarters on the council
/// itself, and a change of it waits for two to seven days. A school has a name and one to sixteen
/// devices, none of which another school has.
pub proof fn law_councils_are_broad(c: CouncilView)
    ensures
        rules::is_council(c) <==> {
            &&& 1 <= c.schools.len() <= 128
            &&& 3 * c.quorum >= 2 * c.schools.len()
            &&& 4 * c.change_quorum >= 3 * c.schools.len()
            &&& c.quorum <= c.change_quorum
            &&& c.change_quorum <= c.schools.len()
            &&& 2 * 86_400_000 <= c.cooldown_ms <= 7 * 86_400_000
            &&& forall|school: Text| #[trigger]
                c.schools.contains_key(school) ==> {
                    &&& 1 <= school.len() && encode_utf8(school).len() <= 128
                    &&& 1 <= c.schools[school].len() <= 16
                    &&& forall|device: Text| #[trigger]
                        c.schools[school].contains(device) ==> outside::peer_of_text(
                            device,
                        ) is Some && (forall|other: Text| #[trigger]
                            c.schools.contains_key(other) && c.schools[other].contains(device)
                                ==> other == school)
                }
        },
{
    if rules::is_council(c) {
        assert forall|school: Text| #[trigger] c.schools.contains_key(school) implies {
            &&& 1 <= school.len() && encode_utf8(school).len() <= 128
            &&& 1 <= c.schools[school].len() <= 16
            &&& forall|device: Text| #[trigger]
                c.schools[school].contains(device) ==> outside::peer_of_text(device) is Some && (
                forall|other: Text| #[trigger]
                    c.schools.contains_key(other) && c.schools[other].contains(device) ==> other
                        == school)
        } by {
            assert(rules::is_delegation(school, c.schools[school]));
        }
    }
}

/// The first council is installed by an administrator, once, and begins with the first epoch.
pub proof fn law_councils_are_installed(s: StateView, actor: Text, now: u64, council: CouncilView)
    ensures
        match rules::step(s, actor, now, ActionView::InstallCouncil { council }, false) {
            Ok(next) => {
                &&& s.council is None && s.admins.contains(actor) && rules::is_council(council)
                &&& next.council is Some
                &&& (next.council->0).schools == council.schools
                &&& (next.council->0).quorum == council.quorum
                &&& (next.council->0).change_quorum == council.change_quorum
                &&& (next.council->0).cooldown_ms == council.cooldown_ms
                &&& (next.council->0).epoch == 1
                &&& next == (StateView { council: next.council, ..s })
            },
            Err(e) => e == ErrorView::Denied && (s.council is Some || !s.admins.contains(actor)
                || !rules::is_council(council)),
        },
{
}

/// When a change of the council is carried out, the schools, the quorums and the delay are those
/// of the change, and the epoch is the next one.
pub proof fn law_councils_are_replaced(
    s: StateView,
    actor: Text,
    now: u64,
    council: CouncilView,
    approved: bool,
)
    ensures
        match rules::step(s, actor, now, ActionView::UpdateCouncil { council }, approved) {
            Ok(next) => {
                &&& approved && s.council is Some && rules::is_council(council)
                &&& next.council is Some
                &&& (next.council->0).schools == council.schools
                &&& (next.council->0).quorum == council.quorum
                &&& (next.council->0).change_quorum == council.change_quorum
                &&& (next.council->0).cooldown_ms == council.cooldown_ms
                &&& (next.council->0).epoch == (s.council->0).epoch + 1
                &&& next == (StateView { council: next.council, ..s })
            },
            Err(e) => {
                ||| e == ErrorView::Denied && (!approved || s.council is None
                    || !rules::is_council(council))
                ||| e == ErrorView::Capacity && approved && s.council is Some && rules::is_council(
                    council,
                ) && (s.council->0).epoch == u64::MAX
            },
        },
{
}

/// Nothing but an installation or an approved change touches the council.
pub proof fn law_only_changes_touch_the_council(
    s: StateView,
    actor: Text,
    now: u64,
    action: ActionView,
    approved: bool,
)
    requires
        !(action is InstallCouncil),
        !(action is UpdateCouncil),
        !(action is ExecuteProposal),
        rules::step(s, actor, now, action, approved) is Ok,
    ensures
        rules::step(s, actor, now, action, approved)->Ok_0.council == s.council,
{
}

/// A school proposes an act of management for at most seven days, and stands behind it. A change
/// of the council must stay open until its delay is over.
pub proof fn law_proposals_are_made(
    s: StateView,
    actor: Text,
    now: u64,
    id: Text,
    action: ActionView,
    expires_ms: u64,
    school: Text,
)
    requires
        s.council matches Some(c) ==> speaks_for(c, actor, school),
    ensures
        ({
            let proper = says(id, 128) && membership::is_management(action) && now < expires_ms
                && expires_ms <= now + 7 * 86_400_000 && !s.proposals.contains_key(id)
                && s.proposals.len() < 10_000 && s.council is Some && (action is UpdateCouncil
                ==> expires_ms > now + (s.council->0).cooldown_ms);
            match rules::step(
                s,
                actor,
                now,
                ActionView::Propose { id, action: Box::new(action), expires_ms },
                false,
            ) {
                Ok(next) => {
                    let p = next.proposals[id];
                    &&& proper
                    &&& next.proposals.contains_key(id)
                    &&& next.proposals.remove(id) == s.proposals
                    &&& p.proposer == actor
                    &&& p.action == action
                    &&& p.epoch == (s.council->0).epoch
                    &&& p.created_ms == now
                    &&& p.expires_ms == expires_ms
                    &&& !p.executed && !p.cancelled
                    &&& p.approvals.dom() == set![school]
                    &&& p.approvals[school] == actor
                    &&& next == (StateView { proposals: next.proposals, ..s })
                },
                Err(e) => e == ErrorView::Denied && !proper,
            }
        }),
{
    law_texts_say_something(id, 128);
    if s.council is Some {
        law_devices_speak_for_their_schools(s.council->0, actor, school);
    }
    let result = rules::step(
        s,
        actor,
        now,
        ActionView::Propose { id, action: Box::new(action), expires_ms },
        false,
    );
    if result is Ok {
        assert(result->Ok_0.proposals.remove(id) =~= s.proposals);
        assert(result->Ok_0.proposals[id].approvals.dom() =~= set![school]);
    }
}

/// Who speaks for no school neither proposes nor approves.
pub proof fn law_only_schools_propose(
    s: StateView,
    actor: Text,
    now: u64,
    id: Text,
    action: ActionView,
    expires_ms: u64,
)
    requires
        s.council matches Some(c) ==> voiceless(c, actor),
    ensures
        rules::step(
            s,
            actor,
            now,
            ActionView::Propose { id, action: Box::new(action), expires_ms },
            false,
        ) == Outcome::<StateView>::Err(ErrorView::Denied),
        rules::step(s, actor, now, ActionView::ApproveProposal { id }, false) == Outcome::<
            StateView,
        >::Err(ErrorView::Denied),
{
    if s.council is Some {
        law_devices_speak_for_their_schools(s.council->0, actor, actor);
    }
}

/// The proposal was made under the council of today and is neither over, nor carried out, nor
/// withdrawn.
pub open spec fn pending(p: ProposalView, c: CouncilView, now: u64) -> bool {
    p.epoch == c.epoch && now < p.expires_ms && !p.executed && !p.cancelled
}

/// Another school approves of a proposal: it stands behind it with the device that said so, and
/// nothing else of the proposal changes.
pub proof fn law_schools_approve(s: StateView, actor: Text, now: u64, id: Text, school: Text)
    requires
        s.council is Some,
        speaks_for(s.council->0, actor, school),
    ensures
        match rules::step(s, actor, now, ActionView::ApproveProposal { id }, false) {
            Ok(next) => {
                let before = s.proposals[id];
                let after = next.proposals[id];
                &&& s.proposals.contains_key(id)
                &&& pending(before, s.council->0, now)
                &&& !before.approvals.contains_key(school)
                &&& after.approvals.contains_key(school) && after.approvals[school] == actor
                &&& after.approvals.remove(school) == before.approvals
                &&& after == (ProposalView { approvals: after.approvals, ..before })
                &&& next.proposals.contains_key(id)
                &&& next.proposals.remove(id) == s.proposals.remove(id)
                &&& next == (StateView { proposals: next.proposals, ..s })
            },
            Err(e) => {
                ||| e == ErrorView::NotFound && !s.proposals.contains_key(id)
                ||| e == ErrorView::Denied && s.proposals.contains_key(id) && (!pending(
                    s.proposals[id],
                    s.council->0,
                    now,
                ) || s.proposals[id].approvals.contains_key(school))
            },
        },
{
    law_devices_speak_for_their_schools(s.council->0, actor, school);
    let result = rules::step(s, actor, now, ActionView::ApproveProposal { id }, false);
    if result is Ok {
        let next = result->Ok_0;
        assert(next.proposals.remove(id) =~= s.proposals.remove(id));
        assert(next.proposals[id].approvals.remove(school) =~= s.proposals[id].approvals);
    }
}

/// The device that made a proposal withdraws it, once and only while it is not carried out.
pub proof fn law_proposals_are_withdrawn(s: StateView, actor: Text, now: u64, id: Text)
    ensures
        match rules::step(s, actor, now, ActionView::CancelProposal { id }, false) {
            Ok(next) => {
                let before = s.proposals[id];
                let after = next.proposals[id];
                &&& s.proposals.contains_key(id)
                &&& before.proposer == actor && !before.executed && !before.cancelled
                &&& after.cancelled
                &&& after == (ProposalView { cancelled: after.cancelled, ..before })
                &&& next.proposals.contains_key(id)
                &&& next.proposals.remove(id) == s.proposals.remove(id)
                &&& next == (StateView { proposals: next.proposals, ..s })
            },
            Err(e) => {
                ||| e == ErrorView::NotFound && !s.proposals.contains_key(id)
                ||| e == ErrorView::Denied && s.proposals.contains_key(id) && (
                s.proposals[id].proposer != actor || s.proposals[id].executed
                    || s.proposals[id].cancelled)
            },
        },
{
    let result = rules::step(s, actor, now, ActionView::CancelProposal { id }, false);
    if result is Ok {
        assert(result->Ok_0.proposals.remove(id) =~= s.proposals.remove(id));
    }
}

/// Enough schools stand behind the proposal: each with a device that speaks for it today, and a
/// change of the council has waited for its delay.
pub open spec fn decided(p: ProposalView, c: CouncilView, now: u64) -> bool {
    &&& pending(p, c, now)
    &&& p.action is UpdateCouncil ==> p.approvals.len() >= c.change_quorum && now >= p.created_ms
        + c.cooldown_ms
    &&& !(p.action is UpdateCouncil) ==> p.approvals.len() >= c.quorum
    &&& forall|school: Text| #[trigger]
        p.approvals.contains_key(school) ==> speaks_for(c, p.approvals[school], school)
}

/// A proposal on which the council has decided does what its action does when the device that
/// proposed it acts with the approval of the council, and is marked as carried out. Without such
/// a decision nothing happens.
pub proof fn law_decisions_are_carried_out(s: StateView, actor: Text, now: u64, id: Text)
    requires
        s.council matches Some(c) ==> s.proposals[id].created_ms + c.cooldown_ms <= u64::MAX,
        s.proposals.contains_key(id) ==> membership::is_management(s.proposals[id].action),
    ensures
        ({
            let p = s.proposals[id];
            let may = rules::can_read(s, actor) && s.council is Some;
            let there = s.proposals.contains_key(id);
            match rules::step(s, actor, now, ActionView::ExecuteProposal { id }, false) {
                Ok(next) => {
                    &&& may && there && decided(p, s.council->0, now)
                    &&& rules::step(s, p.proposer, now, p.action, true) matches Ok(done)
                    &&& done.proposals == s.proposals
                    &&& next.proposals.contains_key(id)
                    &&& next.proposals[id].executed
                    &&& next.proposals[id] == (ProposalView {
                        executed: next.proposals[id].executed,
                        ..p
                    })
                    &&& next.proposals.remove(id) == s.proposals.remove(id)
                    &&& next == (StateView { proposals: next.proposals, ..done })
                },
                Err(e) => {
                    ||| e == ErrorView::Denied && !may
                    ||| e == ErrorView::NotFound && may && !there
                    ||| e == ErrorView::Denied && may && there && !decided(p, s.council->0, now)
                    ||| may && there && decided(p, s.council->0, now) && rules::step(
                        s,
                        p.proposer,
                        now,
                        p.action,
                        true,
                    ) == Outcome::<StateView>::Err(e)
                },
            }
        }),
{
    let p = s.proposals[id];
    if s.council is Some && s.proposals.contains_key(id) {
        let c = s.council->0;
        assert(rules::approvals_stand(p, c) <==> forall|school: Text| #[trigger]
            p.approvals.contains_key(school) ==> speaks_for(c, p.approvals[school], school)) by {
            if rules::approvals_stand(p, c) {
                assert forall|school: Text| #[trigger]
                    p.approvals.contains_key(school) implies speaks_for(
                    c,
                    p.approvals[school],
                    school,
                ) by {
                    law_devices_speak_for_their_schools(c, p.approvals[school], school);
                }
            }
            if forall|school: Text| #[trigger]
                p.approvals.contains_key(school) ==> speaks_for(c, p.approvals[school], school) {
                assert forall|school: Text| #[trigger]
                    p.approvals.contains_key(school) implies rules::school_of(
                    c,
                    p.approvals[school],
                ) == Some(school) by {
                    law_devices_speak_for_their_schools(c, p.approvals[school], school);
                }
            }
        }
        assert(rules::is_carried(p, c, now) == decided(p, c, now));
        assert(rules::protected(p.action));
        assert(rules::step(s, p.proposer, now, p.action, true) == rules::manage(
            s,
            p.proposer,
            true,
            true,
            now,
            p.action,
        ));
        lemma_management_leaves_proposals(s, p.proposer, now, p.action);
        let result = rules::step(s, actor, now, ActionView::ExecuteProposal { id }, false);
        if result is Ok {
            assert(result->Ok_0.proposals.remove(id) =~= s.proposals.remove(id));
        }
    }
}

proof fn lemma_management_leaves_proposals(
    s: StateView,
    actor: Text,
    now: u64,
    action: ActionView,
)
    ensures
        rules::manage(s, actor, true, true, now, action) matches Ok(done) ==> done.proposals
            == s.proposals,
{
}

proof fn lemma_someone_speaks(c: CouncilView, device: Text)
    requires
        c.schools.dom().finite(),
        !voiceless(c, device),
    ensures
        rules::school_of(c, device) is Some,
{
    let test = rules::school_test(device);
    if rules::school_of(c, device) is None {
        collections::lemma_first_key_absent::<String, Set<Text>>(c.schools, test);
        assert forall|o: Text| #[trigger] c.schools.contains_key(o) implies !c.schools[o].contains(
            device,
        ) by {
            assert(!test(o, c.schools[o]));
        }
    }
}

/// Administrators and schools put two to twenty different answers to the vote, for at most thirty
/// days. All who are members then may vote, and nobody has voted yet.
pub proof fn law_ballots_are_called(
    s: StateView,
    actor: Text,
    now: u64,
    id: Text,
    title: Text,
    options: Seq<Text>,
    closes_ms: u64,
)
    requires
        s.council matches Some(c) ==> c.schools.dom().finite(),
    ensures
        ({
            let proper = {
                &&& s.admins.contains(actor) || (s.council is Some && !voiceless(
                    s.council->0,
                    actor,
                ))
                &&& says(id, 128)
                &&& says(title, 2048)
                &&& 2 <= options.len() <= 20
                &&& forall|i: int, j: int|
                    0 <= i < j < options.len() ==> (#[trigger] options[i]) != (
                    #[trigger] options[j])
                &&& forall|i: int| 0 <= i < options.len() ==> says(#[trigger] options[i], 256)
                &&& now < closes_ms
                &&& closes_ms <= now + 30 * 86_400_000
                &&& !s.ballots.contains_key(id)
                &&& s.ballots.len() < 10_000
            };
            match rules::step(
                s,
                actor,
                now,
                ActionView::CreateBallot { id, title, options, closes_ms },
                false,
            ) {
                Ok(next) => {
                    let b = next.ballots[id];
                    &&& proper
                    &&& next.ballots.contains_key(id)
                    &&& next.ballots.remove(id) == s.ballots
                    &&& b.title == title
                    &&& b.options == options
                    &&& b.closes_ms == closes_ms
                    &&& forall|m: Text| #[trigger]
                        b.electorate.contains(m) <==> s.members.contains_key(m)
                    &&& b.votes == Map::<Text, usize>::empty()
                    &&& next == (StateView { ballots: next.ballots, ..s })
                },
                Err(e) => e == ErrorView::Denied && !proper,
            }
        }),
{
    law_texts_say_something(id, 128);
    law_texts_say_something(title, 2048);
    assert forall|i: int| 0 <= i < options.len() implies says(#[trigger] options[i], 256)
        == text::is_text(options[i], 256) by {
        law_texts_say_something(options[i], 256);
    }
    if s.council is Some {
        law_devices_speak_for_their_schools(s.council->0, actor, actor);
        if !voiceless(s.council->0, actor) && rules::school_of(s.council->0, actor) is None {
            lemma_someone_speaks(s.council->0, actor);
        }
    }
    let result = rules::step(
        s,
        actor,
        now,
        ActionView::CreateBallot { id, title, options, closes_ms },
        false,
    );
    if result is Ok {
        assert(result->Ok_0.ballots.remove(id) =~= s.ballots);
    }
}

/// After an accepted vote the ballot has one vote more: that of the member for whom the device
/// acts, for the answer that was named. All other votes, and all else of the ballot, stay.
pub proof fn law_votes_are_counted(
    s: StateView,
    actor: Text,
    now: u64,
    id: Text,
    option: usize,
    member: Text,
)
    requires
        membership::acts_for(s.members, actor, member),
    ensures
        match rules::step(s, actor, now, ActionView::MemberVote { id, option }, false) {
            Ok(next) => {
                let before = s.ballots[id];
                let after = next.ballots[id];
                &&& s.ballots.contains_key(id)
                &&& now < before.closes_ms
                &&& option < before.options.len()
                &&& before.electorate.contains(member)
                &&& !before.votes.contains_key(member)
                &&& after.votes.contains_key(member)
                &&& after.votes[member] == option
                &&& after.votes.remove(member) == before.votes
                &&& after == (BallotView { votes: after.votes, ..before })
                &&& next.ballots.contains_key(id)
                &&& next.ballots.remove(id) == s.ballots.remove(id)
                &&& next == (StateView { ballots: next.ballots, ..s })
            },
            Err(e) => {
                ||| e == ErrorView::NotFound && !s.ballots.contains_key(id)
                ||| e == ErrorView::Denied && s.ballots.contains_key(id) && {
                    let b = s.ballots[id];
                    now >= b.closes_ms || option >= b.options.len() || !b.electorate.contains(
                        member,
                    ) || b.votes.contains_key(member)
                }
            },
        },
{
    membership::law_devices_act_for_their_members(s.members, actor, member);
    let result = rules::step(s, actor, now, ActionView::MemberVote { id, option }, false);
    if result is Ok {
        let next = result->Ok_0;
        assert(next.ballots.remove(id) =~= s.ballots.remove(id));
        assert(next.ballots[id].votes.remove(member) =~= s.ballots[id].votes);
    }
}

/// The answers to a vote differ where the votes differ: two accepted votes of one member on one
/// ballot for different answers lead to different ballots.
pub proof fn law_votes_are_told_apart(
    s: StateView,
    actor: Text,
    now: u64,
    id: Text,
    a: usize,
    b: usize,
)
    requires
        rules::step(s, actor, now, ActionView::MemberVote { id, option: a }, false) is Ok,
        rules::step(s, actor, now, ActionView::MemberVote { id, option: b }, false) is Ok,
        rules::step(s, actor, now, ActionView::MemberVote { id, option: a }, false)->Ok_0.ballots
            == rules::step(
            s,
            actor,
            now,
            ActionView::MemberVote { id, option: b },
            false,
        )->Ok_0.ballots,
    ensures
        a == b,
{
    membership::law_devices_act_for_their_members(s.members, actor, actor);
    let member = rules::owner(s.members, actor)->0;
    law_votes_are_counted(s, actor, now, id, a, member);
    law_votes_are_counted(s, actor, now, id, b, member);
}

/// Who is no member neither votes, nor gives feedback, nor disputes a result.
pub proof fn law_strangers_have_no_say(
    s: StateView,
    actor: Text,
    now: u64,
    id: Text,
    option: usize,
    league: Text,
    body: Text,
)
    requires
        membership::unused(s.members, actor),
    ensures
        rules::step(s, actor, now, ActionView::MemberVote { id, option }, false) == Outcome::<
            StateView,
        >::Err(ErrorView::Denied),
        rules::step(
            s,
            actor,
            now,
            ActionView::SubmitFeedback { id, category: league, text: body },
            false,
        ) == Outcome::<StateView>::Err(ErrorView::Denied),
        rules::step(
            s,
            actor,
            now,
            ActionView::DisputeResult { id, league, reason: body },
            false,
        ) == Outcome::<StateView>::Err(ErrorView::Denied),
{
    membership::law_devices_act_for_their_members(s.members, actor, actor);
}

/// A member's feedback is kept as it was written, under the member's name and with the time.
pub proof fn law_feedback_is_kept(
    s: StateView,
    actor: Text,
    now: u64,
    id: Text,
    category: Text,
    body: Text,
    member: Text,
)
    requires
        membership::acts_for(s.members, actor, member),
    ensures
        ({
            let proper = says(id, 128) && says(category, 128) && says(body, 4096);
            match rules::step(
                s,
                actor,
                now,
                ActionView::SubmitFeedback { id, category, text: body },
                false,
            ) {
                Ok(next) => {
                    let f = next.feedback[id];
                    &&& proper
                    &&& !s.feedback.contains_key(id) && s.feedback.len() < 10_000
                    &&& next.feedback.contains_key(id)
                    &&& next.feedback.remove(id) == s.feedback
                    &&& f.member == member
                    &&& f.category == category
                    &&& f.text == body
                    &&& f.created_ms == now
                    &&& f.response is None
                    &&& next == (StateView { feedback: next.feedback, ..s })
                },
                Err(e) => {
                    ||| e == ErrorView::Denied && !proper
                    ||| e == ErrorView::Capacity && proper && (s.feedback.contains_key(id)
                        || s.feedback.len() >= 10_000)
                },
            }
        }),
{
    membership::law_devices_act_for_their_members(s.members, actor, member);
    law_texts_say_something(id, 128);
    law_texts_say_something(category, 128);
    law_texts_say_something(body, 4096);
    let result = rules::step(
        s,
        actor,
        now,
        ActionView::SubmitFeedback { id, category, text: body },
        false,
    );
    if result is Ok {
        assert(result->Ok_0.feedback.remove(id) =~= s.feedback);
    }
}

/// An administrator answers feedback, and may do so again; what was written stays.
pub proof fn law_feedback_is_answered(s: StateView, actor: Text, now: u64, id: Text, body: Text)
    ensures
        ({
            let proper = s.admins.contains(actor) && says(body, 4096);
            match rules::step(
                s,
                actor,
                now,
                ActionView::RespondFeedback { id, text: body },
                false,
            ) {
                Ok(next) => {
                    let after = next.feedback[id];
                    &&& proper && s.feedback.contains_key(id)
                    &&& after.response == Some(body)
                    &&& after == (FeedbackView { response: after.response, ..s.feedback[id] })
                    &&& next.feedback.contains_key(id)
                    &&& next.feedback.remove(id) == s.feedback.remove(id)
                    &&& next == (StateView { feedback: next.feedback, ..s })
                },
                Err(e) => {
                    ||| e == ErrorView::Denied && !proper
                    ||| e == ErrorView::NotFound && proper && !s.feedback.contains_key(id)
                },
            }
        }),
{
    law_texts_say_something(body, 4096);
    let result = rules::step(
        s,
        actor,
        now,
        ActionView::RespondFeedback { id, text: body },
        false,
    );
    if result is Ok {
        assert(result->Ok_0.feedback.remove(id) =~= s.feedback.remove(id));
    }
}

} // verus!
