//! What holds of members and their devices.
use vstd::prelude::*;

use crate::collections;
use crate::model::rules;
use crate::model::views::{ActionView, MemberView, StateView, Text};
use crate::order::Key;

verus! {

/// No device acts for two members, none that was revoked acts for anybody, and the principal
/// device of a member is not among the further ones.
pub open spec fn devices_apart(s: StateView) -> bool {
    &&& forall|a: Text, b: Text, device: Text|
        #![trigger rules::owns(s.members[a], device), rules::owns(s.members[b], device)]
        s.members.contains_key(a) && s.members.contains_key(b) && rules::owns(s.members[a], device)
            && rules::owns(s.members[b], device) ==> a == b
    &&& forall|a: Text, device: Text|
        #![trigger rules::owns(s.members[a], device)]
        s.members.contains_key(a) && rules::owns(s.members[a], device)
            ==> !s.revoked_devices.contains(device)
    &&& forall|a: Text| #[trigger] s.members.contains_key(a) ==> member_apart(s.members[a])
}

/// The principal device of a member is not among the further ones, of which there are finitely
/// many.
pub open spec fn member_apart(m: MemberView) -> bool {
    &&& !m.additional_devices.contains(m.device)
    &&& m.additional_devices.finite()
}

/// What holds of members and their devices at all times; a member has at most seven further
/// devices.
pub open spec fn devices_sound(s: StateView) -> bool {
    &&& s.members.dom().finite()
    &&& devices_apart(s)
    &&& forall|a: Text| #[trigger]
        s.members.contains_key(a) ==> s.members[a].additional_devices.len() <= 7
}

/// The owner of a device owns it.
pub proof fn lemma_owner(members: Map<Text, MemberView>, device: Text)
    ensures
        rules::owner(members, device) matches Some(id) ==> members.contains_key(id) && rules::owns(
            members[id],
            device,
        ),
{
    let test = rules::owner_test(device);
    if rules::owner(members, device) is Some {
        let id = choose|id: Text| collections::is_first::<String, MemberView>(members, test, id);
        assert(test(id, members[id]));
    }
}

/// The least further device is one of them.
pub proof fn lemma_least_device(devices: Set<Text>)
    requires
        devices.finite(),
        devices.len() > 0,
    ensures
        devices.contains(rules::least(devices)),
{
    let k = collections::lemma_least::<String>(devices);
    assert(rules::is_least(devices, k));
}

proof fn lemma_accept_device_apart(s: StateView, actor: Text, now: u64, id: Text)
    requires
        devices_apart(s),
    ensures
        rules::accept_device(s, actor, now, id) matches Ok(next) ==> devices_apart(next),
{
    if rules::accept_device(s, actor, now, id) is Ok {
        let n = rules::accept_device(s, actor, now, id)->Ok_0;
        let who = s.device_invitations[id].member;
        assert forall|a: Text, device: Text|
            #![trigger rules::owns(n.members[a], device)]
            n.members.contains_key(a) && rules::owns(n.members[a], device) implies (
        rules::owns(s.members[a], device) || (a == who && device == actor))
            && !n.revoked_devices.contains(device) by {
            if rules::owns(s.members[a], device) {
            }
        }
        assert forall|a: Text, b: Text, device: Text|
            #![trigger rules::owns(n.members[a], device), rules::owns(n.members[b], device)]
            n.members.contains_key(a) && n.members.contains_key(b) && rules::owns(
                n.members[a],
                device,
            ) && rules::owns(n.members[b], device) implies a == b by {
            if device == actor {
                assert(!rules::owns(s.members[a], device));
                assert(!rules::owns(s.members[b], device));
            } else {
                assert(rules::owns(s.members[a], device) && rules::owns(s.members[b], device));
            }
        }
        assert(member_apart(s.members[who]));
        assert(!rules::owns(s.members[who], actor));
        assert(member_apart(n.members[who]));
    }
}

proof fn lemma_revoke_device_apart(s: StateView, actor: Text, device: Text)
    requires
        devices_apart(s),
    ensures
        rules::revoke_device(s, actor, device) matches Ok(next) ==> devices_apart(next),
{
    if rules::revoke_device(s, actor, device) is Ok {
        let n = rules::revoke_device(s, actor, device)->Ok_0;
        let who = rules::owner(s.members, actor)->0;
        lemma_owner(s.members, actor);
        let m = s.members[who];
        assert(member_apart(m));
        if m.device == device {
            lemma_least_device(m.additional_devices);
        }
        let after = n.members[who];
        assert forall|d: Text| #[trigger] rules::owns(after, d) implies rules::owns(m, d) && d
            != device by {
        }
        assert forall|a: Text, d: Text|
            #![trigger rules::owns(n.members[a], d)]
            n.members.contains_key(a) && rules::owns(n.members[a], d) implies rules::owns(
            s.members[a],
            d,
        ) && !n.revoked_devices.contains(d) by {
            if a != who && d == device {
                assert(rules::owns(s.members[a], d) && rules::owns(s.members[who], d));
            }
        }
        assert forall|a: Text, b: Text, d: Text|
            #![trigger rules::owns(n.members[a], d), rules::owns(n.members[b], d)]
            n.members.contains_key(a) && n.members.contains_key(b) && rules::owns(n.members[a], d)
                && rules::owns(n.members[b], d) implies a == b by {
            assert(rules::owns(s.members[a], d) && rules::owns(s.members[b], d));
        }
    }
}

proof fn lemma_rotate_device_apart(s: StateView, admin: bool, member: Text, device: Text)
    requires
        devices_apart(s),
    ensures
        rules::rotate_device(s, admin, member, device) matches Ok(next) ==> devices_apart(next),
{
    if rules::rotate_device(s, admin, member, device) is Ok {
        let n = rules::rotate_device(s, admin, member, device)->Ok_0;
        assert forall|a: Text, d: Text|
            #![trigger rules::owns(n.members[a], d)]
            n.members.contains_key(a) && rules::owns(n.members[a], d) implies (if a == member {
            d == device
        } else {
            rules::owns(s.members[a], d)
        }) && !n.revoked_devices.contains(d) by {
            if a == member {
                assert(!rules::owns(s.members[member], device));
            } else if rules::devices_of(s.members[member]).contains(d) {
                assert(rules::owns(s.members[a], d) && rules::owns(s.members[member], d));
            }
        }
        assert forall|a: Text, b: Text, d: Text|
            #![trigger rules::owns(n.members[a], d), rules::owns(n.members[b], d)]
            n.members.contains_key(a) && n.members.contains_key(b) && rules::owns(n.members[a], d)
                && rules::owns(n.members[b], d) implies a == b by {
            if a != member && b != member {
                assert(rules::owns(s.members[a], d) && rules::owns(s.members[b], d));
            } else if a != b {
                assert(d == device);
                let other = if a == member {
                    b
                } else {
                    a
                };
                assert(rules::owns(s.members[other], device));
            }
        }
    }
}

proof fn lemma_enroll_apart(s: StateView, admin: bool, member: Text, club: Text, device: Text)
    requires
        devices_apart(s),
    ensures
        rules::enroll(s, admin, member, club, device) matches Ok(next) ==> devices_apart(next),
{
    if rules::enroll(s, admin, member, club, device) is Ok {
        let n = rules::enroll(s, admin, member, club, device)->Ok_0;
        assert forall|a: Text, d: Text|
            #![trigger rules::owns(n.members[a], d)]
            n.members.contains_key(a) && rules::owns(n.members[a], d) implies (if a == member {
            d == device
        } else {
            rules::owns(s.members[a], d)
        }) && !n.revoked_devices.contains(d) by {
            if a != member {
                assert(rules::owns(s.members[a], d));
            }
        }
        assert forall|a: Text, b: Text, d: Text|
            #![trigger rules::owns(n.members[a], d), rules::owns(n.members[b], d)]
            n.members.contains_key(a) && n.members.contains_key(b) && rules::owns(n.members[a], d)
                && rules::owns(n.members[b], d) implies a == b by {
            if a != member && b != member {
                assert(rules::owns(s.members[a], d) && rules::owns(s.members[b], d));
            } else if a != b {
                let other = if a == member {
                    b
                } else {
                    a
                };
                assert(rules::owns(s.members[other], device));
            }
        }
    }
}

proof fn lemma_manage_devices_apart(
    s: StateView,
    actor: Text,
    admin: bool,
    approved: bool,
    now: u64,
    action: ActionView,
)
    requires
        devices_apart(s),
    ensures
        rules::manage(s, actor, admin, approved, now, action) matches Ok(next) ==> devices_apart(
            next,
        ) && s.revoked_devices.subset_of(next.revoked_devices),
{
    match action {
        ActionView::RotateMemberDevice { member, device } => {
            lemma_rotate_device_apart(s, admin, member, device);
        },
        ActionView::Enroll { member, club, device } => {
            lemma_enroll_apart(s, admin, member, club, device);
        },
        _ => {},
    }
}

proof fn lemma_step_devices_apart(
    s: StateView,
    actor: Text,
    now: u64,
    action: ActionView,
    approved: bool,
)
    requires
        devices_apart(s),
    ensures
        rules::step(s, actor, now, action, approved) matches Ok(next) ==> devices_apart(next)
            && s.revoked_devices.subset_of(next.revoked_devices),
{
    if rules::protected(action) {
        lemma_manage_devices_apart(
            s,
            actor,
            approved || s.admins.contains(actor),
            approved,
            now,
            action,
        );
    } else {
        match action {
            ActionView::AcceptMemberDevice { id } => {
                lemma_accept_device_apart(s, actor, now, id);
            },
            ActionView::RevokeMemberDevice { device } => {
                lemma_revoke_device_apart(s, actor, device);
            },
            ActionView::ExecuteProposal { id } => {
                let p = s.proposals[id];
                lemma_manage_devices_apart(s, p.proposer, true, true, now, p.action);
            },
            _ => {},
        }
    }
}

/// No command gives a device to two members, or one that was revoked to any, and none takes a
/// revocation back. So a device that was revoked never acts or reads again.
pub proof fn law_devices_stay_apart(
    s: StateView,
    actor: Text,
    revision: u64,
    now: u64,
    action: ActionView,
)
    requires
        devices_apart(s),
    ensures
        rules::apply(s, actor, revision, now, action) matches Ok(next) ==> {
            &&& devices_apart(next)
            &&& s.revoked_devices.subset_of(next.revoked_devices)
            &&& forall|device: Text| #[trigger]
                s.revoked_devices.contains(device) ==> !rules::enrolled(next.members, device)
                    && !rules::can_read(next, device)
        },
{
    lemma_step_devices_apart(s, actor, now, action, false);
    if rules::apply(s, actor, revision, now, action) is Ok {
        let next = rules::apply(s, actor, revision, now, action)->Ok_0;
        let mid = rules::step(s, actor, now, action, false)->Ok_0;
        assert(next.members == mid.members && next.revoked_devices == mid.revoked_devices);
        assert(devices_apart(next));
    }
}

/// No member gets an eighth further device.
proof fn lemma_member_stays_small(before: MemberView, after: MemberView, device: Text)
    requires
        before.additional_devices.finite(),
        before.additional_devices.len() <= 7,
        after.additional_devices == before.additional_devices || after.additional_devices
            == Set::<Text>::empty() || after.additional_devices
            == before.additional_devices.remove(device) || (after.additional_devices
            == before.additional_devices.insert(device) && before.additional_devices.len() < 7),
    ensures
        after.additional_devices.len() <= 7,
{
}

pub proof fn lemma_manage_devices_sound(
    s: StateView,
    actor: Text,
    admin: bool,
    approved: bool,
    now: u64,
    action: ActionView,
)
    requires
        devices_sound(s),
    ensures
        rules::manage(s, actor, admin, approved, now, action) matches Ok(next) ==> devices_sound(
            next,
        ),
{
    lemma_manage_devices_apart(s, actor, admin, approved, now, action);
}

/// Commands keep what holds of devices.
pub proof fn lemma_step_devices_sound(
    s: StateView,
    actor: Text,
    now: u64,
    action: ActionView,
    approved: bool,
)
    requires
        devices_sound(s),
    ensures
        rules::step(s, actor, now, action, approved) matches Ok(next) ==> devices_sound(next),
{
    lemma_step_devices_apart(s, actor, now, action, approved);
    if !rules::protected(action) && rules::step(s, actor, now, action, approved) is Ok {
        match action {
            ActionView::AcceptMemberDevice { id } => {
                let who = s.device_invitations[id].member;
                let next = rules::accept_device(s, actor, now, id)->Ok_0;
                lemma_member_stays_small(s.members[who], next.members[who], actor);
            },
            ActionView::RevokeMemberDevice { device } => {
                lemma_owner(s.members, actor);
                let who = rules::owner(s.members, actor)->0;
                let next = rules::revoke_device(s, actor, device)->Ok_0;
                let m = s.members[who];
                let gone = if m.device == device {
                    rules::least(m.additional_devices)
                } else {
                    device
                };
                lemma_member_stays_small(m, next.members[who], gone);
            },
            ActionView::ExecuteProposal { id } => {
                let p = s.proposals[id];
                lemma_manage_devices_sound(s, p.proposer, true, true, now, p.action);
            },
            _ => {},
        }
    }
}

/// Linking takes both sides: a device that no administrator or council enrolled comes to act
/// for a member only by its own command, on an invitation that a device of the member made.
pub proof fn law_linking_needs_consent(
    s: StateView,
    actor: Text,
    now: u64,
    action: ActionView,
    device: Text,
)
    requires
        devices_sound(s),
        !rules::enrolled(s.members, device),
        !rules::protected(action),
        !(action is ExecuteProposal),
    ensures
        rules::step(s, actor, now, action, false) matches Ok(next) ==> (rules::enrolled(
            next.members,
            device,
        ) ==> actor == device && action is AcceptMemberDevice
            && s.device_invitations[action->AcceptMemberDevice_id].device == device),
{
    if rules::step(s, actor, now, action, false) is Ok {
        let next = rules::step(s, actor, now, action, false)->Ok_0;
        if rules::enrolled(next.members, device) {
            let who = choose|id: Text| #[trigger]
                next.members.contains_key(id) && rules::owns(next.members[id], device);
            match action {
                ActionView::AcceptMemberDevice { id } => {
                    let invitation = s.device_invitations[id];
                    if device != actor {
                        assert(s.members.contains_key(who));
                        assert(rules::owns(s.members[who], device));
                    }
                },
                ActionView::RevokeMemberDevice { device: gone } => {
                    let owner = rules::owner(s.members, actor)->0;
                    lemma_owner(s.members, actor);
                    let m = s.members[owner];
                    assert(s.members.contains_key(who));
                    if who == owner && !rules::owns(m, device) {
                        assert(m.device == gone);
                        assert(device == rules::least(m.additional_devices));
                        lemma_least_device(m.additional_devices);
                    }
                    assert(rules::owns(s.members[who], device));
                },
                _ => {
                    assert(s.members.contains_key(who));
                    assert(rules::owns(s.members[who], device));
                },
            }
        }
    }
}

} // verus!
