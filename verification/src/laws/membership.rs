//! What commands do to administrators, members, their devices and the voters.
use vstd::prelude::*;
use vstd::utf8::*;

use crate::collections;
use crate::error::{ErrorView, Outcome};
use crate::model::rules;
use crate::model::views::{
    ActionView, ConsensusPeerView, InvitationView, LeagueView, MemberView, StateView, Text,
};
use crate::order;
use crate::outside;

verus! {

/// The member uses the device.
pub open spec fn uses(m: MemberView, device: Text) -> bool {
    device == m.device || m.additional_devices.contains(device)
}

/// The device acts for the member: no member with an earlier name uses it too.
pub open spec fn acts_for(members: Map<Text, MemberView>, device: Text, member: Text) -> bool {
    &&& members.contains_key(member)
    &&& uses(members[member], device)
    &&& forall|o: Text| #[trigger]
        members.contains_key(o) && uses(members[o], device) && o != member
            ==> order::bytes_before(encode_utf8(member), encode_utf8(o))
}

/// No member uses the device.
pub open spec fn unused(members: Map<Text, MemberView>, device: Text) -> bool {
    forall|o: Text| #[trigger] members.contains_key(o) ==> !uses(members[o], device)
}

/// A device acts for the first one of the members who use it, and for nobody where nobody does.
pub proof fn law_devices_act_for_their_members(
    members: Map<Text, MemberView>,
    device: Text,
    member: Text,
)
    ensures
        acts_for(members, device, member) ==> rules::owner(members, device) == Some(member),
        unused(members, device) ==> rules::owner(members, device) is None,
        rules::enrolled(members, device) <==> !unused(members, device),
        rules::owner(members, device) matches Some(id) ==> acts_for(members, device, id),
{
    let test = rules::owner_test(device);
    if acts_for(members, device, member) {
        assert(collections::is_first::<String, MemberView>(members, test, member)) by {
            assert(test(member, members[member]));
            assert forall|o: Text| #[trigger]
                members.contains_key(o) && test(o, members[o]) && o
                    != member implies <String as crate::order::Key>::before(member, o) by {
                assert(uses(members[o], device));
            }
        }
        collections::lemma_first_key::<String, MemberView>(members, test, member);
    }
    if unused(members, device) {
        assert forall|id: Text| !collections::is_first::<String, MemberView>(
            members,
            test,
            id,
        ) by {
            if members.contains_key(id) {
                assert(!uses(members[id], device));
            }
        }
    }
    if rules::owner(members, device) is Some {
        let id = choose|id: Text| collections::is_first::<String, MemberView>(members, test, id);
        assert(test(id, members[id]));
        assert forall|o: Text| #[trigger]
            members.contains_key(o) && uses(members[o], device) && o
                != id implies order::bytes_before(encode_utf8(id), encode_utf8(o)) by {
            assert(test(o, members[o]));
        }
    }
}

/// The actions by which the federation is managed.
pub open spec fn is_management(action: ActionView) -> bool {
    match action {
        ActionView::CreateSeason { .. } => true,
        ActionView::ScheduleLeague { .. } => true,
        ActionView::ResolveDispute { .. } => true,
        ActionView::SetConsensusMembers { .. } => true,
        ActionView::GrantAdmin { .. } => true,
        ActionView::RevokeAdmin { .. } => true,
        ActionView::RotateMemberDevice { .. } => true,
        ActionView::Enroll { .. } => true,
        ActionView::CreateLeague { .. } => true,
        ActionView::UpdateCouncil { .. } => true,
        _ => false,
    }
}

/// The actor may manage: the council has approved, or there is none and the actor is an
/// administrator.
pub open spec fn may_manage(s: StateView, actor: Text, approved: bool) -> bool {
    approved || (s.council is None && s.admins.contains(actor))
}

/// Nobody else than the council, or an administrator while there is no council, manages the
/// federation. The council alone can change itself.
pub proof fn law_management_needs_authority(
    s: StateView,
    actor: Text,
    now: u64,
    action: ActionView,
    approved: bool,
)
    requires
        is_management(action),
        !may_manage(s, actor, approved) || (action is UpdateCouncil && !approved),
    ensures
        rules::step(s, actor, now, action, approved) == Outcome::<StateView>::Err(
            ErrorView::Denied,
        ),
        rules::protected(action),
{
}

/// What is not an action of management needs no approval, and an approval changes nothing of it.
pub proof fn law_only_management_is_protected(
    s: StateView,
    actor: Text,
    now: u64,
    action: ActionView,
)
    requires
        !is_management(action),
    ensures
        !rules::protected(action),
        rules::step(s, actor, now, action, true) == rules::step(s, actor, now, action, false),
{
}

/// A command is looked at only where it is made on the current revision, not before the time of
/// the last one, and by a device that was not revoked. Where it is accepted, the revision counts
/// up and the time is that of the command; nothing else is touched.
pub proof fn law_commands_are_checked_first(
    s: StateView,
    actor: Text,
    revision: u64,
    now: u64,
    action: ActionView,
)
    ensures
        match rules::apply(s, actor, revision, now, action) {
            Ok(next) => {
                &&& !s.revoked_devices.contains(actor)
                &&& revision == s.revision
                &&& now >= s.clock_ms
                &&& rules::step(s, actor, now, action, false) matches Ok(done)
                &&& next.revision == done.revision + 1
                &&& next.clock_ms == now
                &&& done == (StateView {
                    revision: done.revision,
                    clock_ms: done.clock_ms,
                    ..next
                })
            },
            Err(e) => {
                ||| e == ErrorView::Denied && s.revoked_devices.contains(actor)
                ||| e == ErrorView::Protocol("revision conflict"@) && revision != s.revision
                    && !s.revoked_devices.contains(actor)
                ||| e == ErrorView::Protocol("clock moved backwards"@) && now < s.clock_ms
                    && revision == s.revision && !s.revoked_devices.contains(actor)
                ||| rules::step(s, actor, now, action, false) == Outcome::<StateView>::Err(e)
                    && revision == s.revision && now >= s.clock_ms
                    && !s.revoked_devices.contains(actor)
                ||| e == ErrorView::Protocol("revision overflow"@) && (rules::step(
                    s,
                    actor,
                    now,
                    action,
                    false,
                ) matches Ok(done) && done.revision == u64::MAX) && revision == s.revision && now
                    >= s.clock_ms && !s.revoked_devices.contains(actor)
            },
        },
{
}

/// A federation begins with its administrators, each a device, and with nothing else.
pub proof fn law_federations_begin_empty(admins: Set<Text>)
    ensures
        match rules::created(admins) {
            Ok(s) => {
                &&& admins.len() > 0
                &&& forall|device: Text| #[trigger]
                    admins.contains(device) ==> outside::peer_of_text(device) is Some
                &&& s.admins == admins
                &&& s.revision == 0 && s.clock_ms == 0 && s.council is None
                &&& s.members == Map::<Text, MemberView>::empty()
                &&& s.leagues == Map::<Text, LeagueView>::empty()
                &&& s.consensus_members == Map::<u64, ConsensusPeerView>::empty()
                &&& s.retired_consensus_ids == Set::<u64>::empty()
                &&& s.proposals.dom() == Set::<Text>::empty()
                &&& s.ballots.dom() == Set::<Text>::empty()
                &&& s.feedback.dom() == Set::<Text>::empty()
                &&& s.seasons.dom() == Set::<Text>::empty()
                &&& s.disputes.dom() == Set::<Text>::empty()
                &&& s.device_invitations.dom() == Set::<Text>::empty()
                &&& s.revoked_devices == Set::<Text>::empty()
            },
            Err(e) => if admins.len() == 0 {
                e == ErrorView::Protocol("at least one explicit administrator required"@)
            } else {
                e == ErrorView::Protocol("invalid admin PeerId"@) && exists|device: Text|
                    #[trigger]
                    admins.contains(device) && outside::peer_of_text(device) is None
            },
        },
{
}

/// A new administrator joins the others.
pub proof fn law_administrators_are_added(
    s: StateView,
    actor: Text,
    now: u64,
    device: Text,
    approved: bool,
)
    requires
        may_manage(s, actor, approved),
    ensures
        match rules::step(s, actor, now, ActionView::GrantAdmin { device }, approved) {
            Ok(next) => {
                &&& outside::peer_of_text(device) is Some
                &&& !s.admins.contains(device)
                &&& forall|d: Text| #[trigger]
                    next.admins.contains(d) <==> s.admins.contains(d) || d == device
                &&& next == (StateView { admins: next.admins, ..s })
            },
            Err(e) => {
                ||| e == ErrorView::Protocol("invalid administrator device"@)
                    && outside::peer_of_text(device) is None
                ||| e == ErrorView::Protocol("administrator already exists"@)
                    && outside::peer_of_text(device) is Some && s.admins.contains(device)
            },
        },
{
}

/// An administrator leaves the others; the last one cannot.
pub proof fn law_administrators_are_removed(
    s: StateView,
    actor: Text,
    now: u64,
    device: Text,
    approved: bool,
)
    requires
        may_manage(s, actor, approved),
    ensures
        match rules::step(s, actor, now, ActionView::RevokeAdmin { device }, approved) {
            Ok(next) => {
                &&& s.admins.len() >= 2
                &&& s.admins.contains(device)
                &&& forall|d: Text| #[trigger]
                    next.admins.contains(d) <==> s.admins.contains(d) && d != device
                &&& next == (StateView { admins: next.admins, ..s })
            },
            Err(e) => {
                ||| e == ErrorView::Protocol("cannot remove last administrator"@) && s.admins.len()
                    < 2
                ||| e == ErrorView::NotFound && s.admins.len() >= 2 && !s.admins.contains(device)
            },
        },
{
}

/// A text names something: it is not empty, takes at most 128 bytes and holds no control
/// character.
pub open spec fn names(text: Text) -> bool {
    &&& text.len() > 0
    &&& encode_utf8(text).len() <= 128
    &&& forall|i: int|
        0 <= i < text.len() ==> !((#[trigger] text[i]) as u32 <= 31 || 127 <= text[i] as u32
            <= 159)
}

/// A member who is enrolled has the club and the device that were given, and no other.
pub proof fn law_members_are_enrolled(
    s: StateView,
    actor: Text,
    now: u64,
    member: Text,
    club: Text,
    device: Text,
    approved: bool,
)
    requires
        may_manage(s, actor, approved),
    ensures
        match rules::step(s, actor, now, ActionView::Enroll { member, club, device }, approved) {
            Ok(next) => {
                &&& names(member) && names(club)
                &&& outside::peer_of_text(device) is Some
                &&& !s.members.contains_key(member)
                &&& !s.revoked_devices.contains(device)
                &&& unused(s.members, device)
                &&& next.members.contains_key(member)
                &&& next.members[member].club == club
                &&& next.members[member].device == device
                &&& next.members[member].additional_devices == Set::<Text>::empty()
                &&& next.members.remove(member) == s.members
                &&& next == (StateView { members: next.members, ..s })
            },
            Err(e) => {
                ||| e == ErrorView::Protocol("invalid identifier"@) && !(names(member) && names(
                    club,
                ))
                ||| e == ErrorView::Protocol("invalid member device"@) && names(member) && names(
                    club,
                ) && outside::peer_of_text(device) is None
                ||| e == ErrorView::Protocol("member/device already enrolled"@) && names(member)
                    && names(club) && outside::peer_of_text(device) is Some && (
                s.members.contains_key(member) || s.revoked_devices.contains(device) || !unused(
                    s.members,
                    device,
                ))
            },
        },
{
    law_devices_act_for_their_members(s.members, device, member);
    let result = rules::step(s, actor, now, ActionView::Enroll { member, club, device }, approved);
    if result is Ok {
        assert(result->Ok_0.members.remove(member) =~= s.members);
    }
}

/// The member plays for a team of a match that goes on.
pub open spec fn is_playing(leagues: Map<Text, LeagueView>, member: Text) -> bool {
    exists|id: Text, team: Text|
        #![trigger leagues[id].teams.contains_key(team)]
        leagues.contains_key(id) && leagues[id].phase is Playing && leagues[id].teams.contains_key(
            team,
        ) && leagues[id].teams[team].members.contains(member)
}

proof fn lemma_team_of(l: LeagueView, member: Text)
    requires
        l.teams.dom().finite(),
    ensures
        rules::team_of(l, member) is Some <==> exists|team: Text| #[trigger]
            l.teams.contains_key(team) && l.teams[team].members.contains(member),
        rules::team_of(l, member) matches Some(team) ==> l.teams.contains_key(team)
            && l.teams[team].members.contains(member) && forall|o: Text| #[trigger]
            l.teams.contains_key(o) && l.teams[o].members.contains(member) && o != team
                ==> order::bytes_before(encode_utf8(team), encode_utf8(o)),
{
    let test = rules::roster_test(member);
    if rules::team_of(l, member) is None {
        collections::lemma_first_key_absent::<String, crate::model::views::TeamView>(
            l.teams,
            test,
        );
        assert forall|team: Text| #[trigger] l.teams.contains_key(
            team,
        ) implies !l.teams[team].members.contains(member) by {
            assert(!test(team, l.teams[team]));
        }
    } else {
        let team = choose|team: Text|
            collections::is_first::<String, crate::model::views::TeamView>(l.teams, test, team);
        assert(test(team, l.teams[team]));
        assert forall|o: Text| #[trigger]
            l.teams.contains_key(o) && l.teams[o].members.contains(member) && o
                != team implies order::bytes_before(encode_utf8(team), encode_utf8(o)) by {
            assert(test(o, l.teams[o]));
        }
    }
}

/// Somebody is in a team of a league exactly where one has the name on its roster; the first such
/// team is named.
pub proof fn law_teams_are_found_by_roster(l: LeagueView, member: Text)
    requires
        l.teams.dom().finite(),
    ensures
        match rules::team_of(l, member) {
            Some(team) => {
                &&& l.teams.contains_key(team)
                &&& l.teams[team].members.contains(member)
                &&& forall|o: Text| #[trigger]
                    l.teams.contains_key(o) && l.teams[o].members.contains(member) && o != team
                        ==> order::bytes_before(encode_utf8(team), encode_utf8(o))
            },
            None => forall|o: Text| #[trigger]
                l.teams.contains_key(o) ==> !l.teams[o].members.contains(member),
        },
{
    lemma_team_of(l, member);
}

/// A lost device is replaced: the member has the new one alone, all the others are revoked, and
/// the member is absent from every league until the new device reports.
pub proof fn law_devices_are_replaced(
    s: StateView,
    actor: Text,
    now: u64,
    member: Text,
    device: Text,
    approved: bool,
)
    requires
        may_manage(s, actor, approved),
        forall|id: Text| #[trigger]
            s.leagues.contains_key(id) ==> s.leagues[id].teams.dom().finite(),
    ensures
        match rules::step(
            s,
            actor,
            now,
            ActionView::RotateMemberDevice { member, device },
            approved,
        ) {
            Ok(next) => {
                &&& outside::peer_of_text(device) is Some
                &&& !s.revoked_devices.contains(device)
                &&& unused(s.members, device)
                &&& !is_playing(s.leagues, member)
                &&& s.members.contains_key(member)
                &&& next.members[member].club == s.members[member].club
                &&& next.members[member].device == device
                &&& next.members[member].additional_devices == Set::<Text>::empty()
                &&& next.members.dom() == s.members.dom()
                &&& next.members.remove(member) == s.members.remove(member)
                &&& forall|d: Text| #[trigger]
                    next.revoked_devices.contains(d) <==> s.revoked_devices.contains(d) || uses(
                        s.members[member],
                        d,
                    )
                &&& next.leagues.dom() == s.leagues.dom()
                &&& forall|id: Text| #[trigger]
                    s.leagues.contains_key(id) ==> {
                        let before = s.leagues[id];
                        let after = next.leagues[id];
                        &&& after.online == before.online.remove(member)
                        &&& after.health == before.health.remove(member)
                        &&& after == (LeagueView {
                            online: after.online,
                            health: after.health,
                            ..before
                        })
                    }
                &&& next == (StateView {
                    members: next.members,
                    revoked_devices: next.revoked_devices,
                    leagues: next.leagues,
                    ..s
                })
            },
            Err(e) => {
                let valid = outside::peer_of_text(device) is Some;
                let fresh = !s.revoked_devices.contains(device) && unused(s.members, device);
                ||| e == ErrorView::Protocol("invalid member device"@) && !valid
                ||| e == ErrorView::Protocol("device already enrolled"@) && valid && !fresh
                ||| e == ErrorView::Protocol("cannot replace member device during a match"@)
                    && valid && fresh && is_playing(s.leagues, member)
                ||| e == ErrorView::NotFound && valid && fresh && !is_playing(s.leagues, member)
                    && !s.members.contains_key(member)
            },
        },
{
    law_devices_act_for_their_members(s.members, device, member);
    assert(rules::in_match(s.leagues, member) == is_playing(s.leagues, member)) by {
        if rules::in_match(s.leagues, member) {
            let id = choose|id: Text| #[trigger]
                s.leagues.contains_key(id) && s.leagues[id].phase
                    == crate::governance::Phase::Playing && rules::team_of(s.leagues[id], member)
                    is Some;
            lemma_team_of(s.leagues[id], member);
            let team = rules::team_of(s.leagues[id], member)->0;
            assert(s.leagues[id].teams.contains_key(team));
        }
        if is_playing(s.leagues, member) {
            let (id, team) = choose|id: Text, team: Text|
                #![trigger s.leagues[id].teams.contains_key(team)]
                s.leagues.contains_key(id) && s.leagues[id].phase is Playing
                    && s.leagues[id].teams.contains_key(team)
                    && s.leagues[id].teams[team].members.contains(member);
            lemma_team_of(s.leagues[id], member);
        }
    }
    let result = rules::step(
        s,
        actor,
        now,
        ActionView::RotateMemberDevice { member, device },
        approved,
    );
    if result is Ok {
        let next = result->Ok_0;
        assert(next.members.remove(member) =~= s.members.remove(member));
        assert(next.members.dom() =~= s.members.dom());
        assert(next.leagues.dom() =~= s.leagues.dom());
        assert forall|d: Text| #[trigger] next.revoked_devices.contains(d) <==> (
        s.revoked_devices.contains(d) || uses(s.members[member], d)) by {}
    }
}

/// The names of the invitations that are not over.
pub open spec fn open_invitations(s: StateView, now: u64) -> Set<Text> {
    s.device_invitations.dom().filter(|o: Text| s.device_invitations[o].expires_ms > now)
}

/// Invitations of further devices: a member invites, for at most ten minutes, a device that nobody
/// uses; at the same time invitations that are over are forgotten.
pub proof fn law_devices_are_invited(
    s: StateView,
    actor: Text,
    now: u64,
    id: Text,
    device: Text,
    expires_ms: u64,
    member: Text,
)
    requires
        acts_for(s.members, actor, member),
    ensures
        ({
            let proper = 1 <= id.len() && encode_utf8(id).len() <= 128 && now < expires_ms && (
            expires_ms <= now + 600_000) && outside::peer_of_text(device) is Some
                && !s.revoked_devices.contains(device) && unused(s.members, device);
            match rules::step(
                s,
                actor,
                now,
                ActionView::InviteMemberDevice { id, device, expires_ms },
                false,
            ) {
                Ok(next) => {
                    &&& proper
                    &&& s.members[member].additional_devices.len() < 7
                    &&& !open_invitations(s, now).contains(id)
                    &&& open_invitations(s, now).len() < 4096
                    &&& next.device_invitations.contains_key(id)
                    &&& next.device_invitations[id] == (InvitationView {
                        member,
                        device,
                        expires_ms,
                    })
                    &&& forall|o: Text| #[trigger]
                        next.device_invitations.contains_key(o) && o != id ==> {
                            &&& s.device_invitations.contains_key(o)
                            &&& next.device_invitations[o] == s.device_invitations[o]
                            &&& s.device_invitations[o].expires_ms > now
                        }
                    &&& forall|o: Text| #[trigger]
                        s.device_invitations.contains_key(o) && s.device_invitations[o].expires_ms
                            > now ==> next.device_invitations.contains_key(o)
                    &&& next == (StateView { device_invitations: next.device_invitations, ..s })
                },
                Err(e) => {
                    ||| e == ErrorView::Denied && !proper
                    ||| e == ErrorView::Capacity && proper && {
                        ||| s.members[member].additional_devices.len() >= 7
                        ||| open_invitations(s, now).contains(id)
                        ||| open_invitations(s, now).len() >= 4096
                    }
                },
            }
        }),
{
    law_devices_act_for_their_members(s.members, actor, member);
    law_devices_act_for_their_members(s.members, device, member);
    assert(rules::live_invitations(s.device_invitations, now).dom() =~= open_invitations(s, now));
}

/// Fewer than eight devices of a member, fewer than 4096 invitations and a new name are all that
/// a proper invitation needs.
pub proof fn law_proper_invitations_are_accepted(
    s: StateView,
    actor: Text,
    now: u64,
    id: Text,
    device: Text,
    expires_ms: u64,
    member: Text,
)
    requires
        acts_for(s.members, actor, member),
        1 <= id.len(),
        encode_utf8(id).len() <= 128,
        now < expires_ms <= now + 600_000,
        outside::peer_of_text(device) is Some,
        !s.revoked_devices.contains(device),
        unused(s.members, device),
        s.members[member].additional_devices.len() < 7,
        s.device_invitations.dom().finite(),
        s.device_invitations.len() < 4096,
        !s.device_invitations.contains_key(id),
    ensures
        rules::step(
            s,
            actor,
            now,
            ActionView::InviteMemberDevice { id, device, expires_ms },
            false,
        ) is Ok,
{
    law_devices_act_for_their_members(s.members, actor, member);
    law_devices_act_for_their_members(s.members, device, member);
    let live = rules::live_invitations(s.device_invitations, now);
    assert(live.dom().subset_of(s.device_invitations.dom()));
    vstd::set_lib::lemma_len_subset(live.dom(), s.device_invitations.dom());
}

/// Who is no member invites no device.
pub proof fn law_strangers_invite_nobody(
    s: StateView,
    actor: Text,
    now: u64,
    id: Text,
    device: Text,
    expires_ms: u64,
)
    requires
        unused(s.members, actor),
    ensures
        rules::step(
            s,
            actor,
            now,
            ActionView::InviteMemberDevice { id, device, expires_ms },
            false,
        ) == Outcome::<StateView>::Err(ErrorView::Denied),
        rules::step(s, actor, now, ActionView::RevokeMemberDevice { device }, false) == Outcome::<
            StateView,
        >::Err(ErrorView::Denied),
{
    law_devices_act_for_their_members(s.members, actor, actor);
}

/// The invited device joins the devices of the member who invited it, and the invitation is used
/// up.
pub proof fn law_invited_devices_join(s: StateView, actor: Text, now: u64, id: Text)
    ensures
        match rules::step(s, actor, now, ActionView::AcceptMemberDevice { id }, false) {
            Ok(next) => {
                let i = s.device_invitations[id];
                let before = s.members[i.member];
                &&& s.device_invitations.contains_key(id)
                &&& i.device == actor && now < i.expires_ms
                &&& !s.revoked_devices.contains(actor) && unused(s.members, actor)
                &&& s.members.contains_key(i.member)
                &&& before.additional_devices.len() < 7
                &&& next.members.remove(i.member) == s.members.remove(i.member)
                &&& next.members.contains_key(i.member)
                &&& next.members[i.member].club == before.club
                &&& next.members[i.member].device == before.device
                &&& forall|d: Text| #[trigger]
                    next.members[i.member].additional_devices.contains(d)
                        <==> before.additional_devices.contains(d) || d == actor
                &&& next.device_invitations == s.device_invitations.remove(id)
                &&& next == (StateView {
                    members: next.members,
                    device_invitations: next.device_invitations,
                    ..s
                })
            },
            Err(e) => {
                let i = s.device_invitations[id];
                let there = s.device_invitations.contains_key(id);
                let meant = i.device == actor && now < i.expires_ms && !s.revoked_devices.contains(
                    actor,
                ) && unused(s.members, actor);
                ||| e == ErrorView::NotFound && !there
                ||| e == ErrorView::Denied && there && !meant
                ||| e == ErrorView::NotFound && there && meant && !s.members.contains_key(i.member)
                ||| e == ErrorView::Capacity && there && meant && s.members.contains_key(i.member)
                    && s.members[i.member].additional_devices.len() >= 7
            },
        },
{
    law_devices_act_for_their_members(s.members, actor, actor);
    let result = rules::step(s, actor, now, ActionView::AcceptMemberDevice { id }, false);
    if result is Ok {
        let who = s.device_invitations[id].member;
        assert(result->Ok_0.members.remove(who) =~= s.members.remove(who));
    }
}

/// A member gives up a device, but never the last one: it is revoked, invitations of it are
/// forgotten, and where it was the principal one, the first of the others takes its place.
pub proof fn law_devices_are_given_up(
    s: StateView,
    actor: Text,
    now: u64,
    device: Text,
    member: Text,
)
    requires
        acts_for(s.members, actor, member),
        s.members[member].additional_devices.finite(),
        !s.members[member].additional_devices.contains(s.members[member].device),
    ensures
        match rules::step(s, actor, now, ActionView::RevokeMemberDevice { device }, false) {
            Ok(next) => {
                let before = s.members[member];
                let after = next.members[member];
                &&& uses(before, device)
                &&& next.members.contains_key(member)
                &&& next.members.remove(member) == s.members.remove(member)
                &&& after.club == before.club
                &&& forall|d: Text| #[trigger] uses(after, d) <==> uses(before, d) && d != device
                &&& device != before.device ==> after.device == before.device
                &&& device == before.device ==> forall|d: Text| #[trigger]
                    before.additional_devices.contains(d) && d != after.device
                        ==> order::bytes_before(encode_utf8(after.device), encode_utf8(d))
                &&& !after.additional_devices.contains(after.device)
                &&& next.revoked_devices == s.revoked_devices.insert(device)
                &&& forall|id: Text| #[trigger]
                    next.device_invitations.contains_key(id) <==> s.device_invitations.contains_key(
                        id,
                    ) && s.device_invitations[id].device != device
                &&& forall|id: Text| #[trigger]
                    next.device_invitations.contains_key(id) ==> next.device_invitations[id]
                        == s.device_invitations[id]
                &&& next == (StateView {
                    members: next.members,
                    revoked_devices: next.revoked_devices,
                    device_invitations: next.device_invitations,
                    ..s
                })
            },
            Err(e) => e == ErrorView::Denied && (!uses(s.members[member], device) || (device
                == s.members[member].device && s.members[member].additional_devices
                == Set::<Text>::empty())),
        },
{
    law_devices_act_for_their_members(s.members, actor, member);
    let before = s.members[member];
    let result = rules::step(s, actor, now, ActionView::RevokeMemberDevice { device }, false);
    if result is Ok {
        let next = result->Ok_0;
        assert(next.members.remove(member) =~= s.members.remove(member));
        if device == before.device {
            let first = collections::lemma_least::<String>(before.additional_devices);
            assert(rules::is_least(before.additional_devices, first));
            let chosen = rules::least(before.additional_devices);
            assert(rules::is_least(before.additional_devices, chosen));
        }
        let after = next.members[member];
        assert forall|d: Text| #[trigger] uses(after, d) <==> uses(before, d) && d != device by {}
    } else if before.additional_devices.len() == 0 {
        assert(before.additional_devices =~= Set::<Text>::empty());
    }
}

/// The state is seen by administrators, members, hosts and scorers of leagues and delegates of the
/// council, and by nobody else; a revoked device sees nothing.
pub proof fn law_readers_belong(s: StateView, device: Text)
    ensures
        rules::can_read(s, device) <==> {
            &&& !s.revoked_devices.contains(device)
            &&& {
                ||| s.admins.contains(device)
                ||| !unused(s.members, device)
                ||| exists|id: Text| #[trigger]
                    s.leagues.contains_key(id) && (device == s.leagues[id].host || device
                        == s.leagues[id].scorer)
                ||| s.council is Some && exists|school: Text| #[trigger]
                    (s.council->0).schools.contains_key(school) && (
                    s.council->0).schools[school].contains(device)
            }
        },
{
    law_devices_act_for_their_members(s.members, device, device);
}

/// The voter has a number other than zero, is a peer that no other voter is, and has one to eight
/// addresses of at most 2048 bytes, each of which leads to that peer.
pub open spec fn is_voter(peers: Map<u64, ConsensusPeerView>, id: u64) -> bool {
    let voter = peers[id];
    &&& id != 0
    &&& outside::peer_of_text(voter.peer) is Some
    &&& forall|o: u64| #[trigger]
        peers.contains_key(o) && o != id ==> outside::peer_of_text(peers[o].peer)
            != outside::peer_of_text(voter.peer)
    &&& 1 <= voter.addresses.len() <= 8
    &&& forall|i: int|
        0 <= i < voter.addresses.len() ==> {
            &&& encode_utf8(#[trigger] voter.addresses[i]).len() <= 2048
            &&& outside::target_of_address(voter.addresses[i]) == Some(
                outside::peer_of_text(voter.peer),
            )
        }
}

proof fn lemma_addresses(addresses: Seq<Text>, peer: Seq<u8>)
    ensures
        rules::addresses_fault(addresses, peer) is None <==> forall|i: int|
            0 <= i < addresses.len() ==> encode_utf8(#[trigger] addresses[i]).len() <= 2048
                && outside::target_of_address(addresses[i]) == Some(Some(peer)),
    decreases addresses.len(),
{
    if addresses.len() > 0 {
        let rest = addresses.drop_first();
        lemma_addresses(rest, peer);
        if rules::address_fault(addresses[0], peer) is None {
            assert forall|i: int| 0 <= i < addresses.len() && (forall|j: int|
                0 <= j < rest.len() ==> encode_utf8(#[trigger] rest[j]).len() <= 2048
                    && outside::target_of_address(rest[j]) == Some(Some(peer))) implies encode_utf8(
                #[trigger] addresses[i],
            ).len() <= 2048 && outside::target_of_address(addresses[i]) == Some(Some(peer)) by {
                if i > 0 {
                    assert(addresses[i] == rest[i - 1]);
                }
            }
            assert forall|j: int| 0 <= j < rest.len() implies #[trigger] rest[j] == addresses[j
                + 1] by {}
        }
    }
}

/// A set of voters is accepted exactly where it is odd, not larger than seven, and each voter is
/// in order.
pub proof fn law_voters_are_valid(peers: Map<u64, ConsensusPeerView>)
    requires
        peers.dom().finite(),
    ensures
        rules::voters_fault(peers) is None <==> (peers.len() == 1 || peers.len() == 3
            || peers.len() == 5 || peers.len() == 7) && forall|id: u64| #[trigger]
            peers.contains_key(id) ==> is_voter(peers, id),
        rules::voters_fault(peers) matches Some(e) ==> e == ErrorView::Denied || e
            == ErrorView::Capacity,
{
    let test = rules::voter_test(peers);
    let first = collections::first_key::<u64, ConsensusPeerView>(peers, test);
    assert forall|id: u64| #[trigger] peers.contains_key(id) && is_voter(
        peers,
        id,
    ) implies rules::voter_fault(peers, id) is None by {
        lemma_addresses(peers[id].addresses, outside::peer_of_text(peers[id].peer)->0);
    }
    lemma_faults_are_plain(peers);
    if first is None {
        collections::lemma_first_key_absent::<u64, ConsensusPeerView>(peers, test);
        assert forall|id: u64| #[trigger] peers.contains_key(id) implies is_voter(peers, id) by {
            assert(!test(id, peers[id]));
            lemma_addresses(peers[id].addresses, outside::peer_of_text(peers[id].peer)->0);
            assert forall|o: u64| #[trigger] peers.contains_key(o) && o
                != id implies outside::peer_of_text(peers[o].peer) != outside::peer_of_text(
                peers[id].peer,
            ) by {
                assert(!test(o, peers[o]));
                if outside::peer_of_text(peers[o].peer) == outside::peer_of_text(peers[id].peer) {
                    if o < id {
                        assert(rules::repeats(peers, id));
                    } else {
                        assert(rules::repeats(peers, o));
                    }
                }
            }
        }
    } else {
        let id = choose|id: u64| collections::is_first::<u64, ConsensusPeerView>(peers, test, id);
        assert(test(id, peers[id]));
        assert(peers.contains_key(id));
    }
}

proof fn lemma_address_faults(addresses: Seq<Text>, peer: Seq<u8>)
    ensures
        rules::addresses_fault(addresses, peer) matches Some(e) ==> e == ErrorView::Denied || e
            == ErrorView::Capacity,
    decreases addresses.len(),
{
    if addresses.len() > 0 {
        lemma_address_faults(addresses.drop_first(), peer);
    }
}

proof fn lemma_faults_are_plain(peers: Map<u64, ConsensusPeerView>)
    ensures
        forall|id: u64|
            (#[trigger] rules::voter_fault(peers, id)) matches Some(e) ==> e == ErrorView::Denied
                || e == ErrorView::Capacity,
{
    assert forall|id: u64| (#[trigger] rules::voter_fault(peers, id)) is Some implies {
        ||| rules::voter_fault(peers, id)->0 == ErrorView::Denied
        ||| rules::voter_fault(peers, id)->0 == ErrorView::Capacity
    } by {
        if outside::peer_of_text(peers[id].peer) is Some {
            lemma_address_faults(
                peers[id].addresses,
                outside::peer_of_text(peers[id].peer)->0,
            );
        }
    }
}

/// The voters are the ones that were named. Those who are named no more are retired, and a number
/// that was retired, or that stands for another peer, cannot be named.
pub proof fn law_voters_are_named(
    s: StateView,
    actor: Text,
    now: u64,
    members: Map<u64, ConsensusPeerView>,
    approved: bool,
)
    requires
        may_manage(s, actor, approved),
        members.dom().finite(),
    ensures
        ({
            let free = forall|id: u64| #[trigger]
                members.contains_key(id) ==> !s.retired_consensus_ids.contains(id) && (
                s.consensus_members.contains_key(id) ==> s.consensus_members[id].peer
                    == members[id].peer);
            match rules::step(
                s,
                actor,
                now,
                ActionView::SetConsensusMembers { members },
                approved,
            ) {
                Ok(next) => {
                    &&& rules::voters_fault(members) is None
                    &&& free
                    &&& next.consensus_members == members
                    &&& forall|id: u64| #[trigger]
                        next.retired_consensus_ids.contains(id)
                            <==> s.retired_consensus_ids.contains(id) || (
                        s.consensus_members.contains_key(id) && !members.contains_key(id))
                    &&& next == (StateView {
                        consensus_members: next.consensus_members,
                        retired_consensus_ids: next.retired_consensus_ids,
                        ..s
                    })
                },
                Err(e) => {
                    ||| rules::voters_fault(members) == Some(e)
                    ||| e == ErrorView::Denied && rules::voters_fault(members) is None && !free
                },
            }
        }),
{
    assert forall|id: u64| #[trigger] members.contains_key(id) implies (rules::taken(
        s,
        members,
        id,
    ) <==> !(!s.retired_consensus_ids.contains(id) && (s.consensus_members.contains_key(id)
        ==> s.consensus_members[id].peer == members[id].peer))) by {}
}

} // verus!
