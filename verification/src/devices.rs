//! Linking of devices by consent. Votes and team membership stay with the person.
use vstd::prelude::*;
use vstd::string::*;

use crate::collections;
use crate::collections::StrMap;
use crate::error;
use crate::error::{Error, Result};
use crate::governance::{find_owner, Action, State};
use crate::model::rules;
use crate::model::views::{InvitationView, Text};
use crate::order::{same_text, Duplicate};
use crate::outside;
use crate::text::within;

verus! {

/// An offer to let a further device act for a member.
#[derive(Debug, PartialEq, Eq)]
pub struct Invitation {
    pub member: String,
    pub device: String,
    pub expires_ms: u64,
}

/// The invitations that have not expired.
fn live_invitations(all: &StrMap<Invitation>, now: u64) -> (r: StrMap<Invitation>)
    ensures
        r@ == rules::live_invitations(all@, now),
{
    let ghost keys = all.keys();
    let n: usize = all.len();
    let mut r: StrMap<Invitation> = StrMap::new();
    let mut i: usize = 0;
    while i < n
        invariant
            i <= n,
            n == keys.len(),
            keys == all.keys(),
            collections::lists::<String, InvitationView>(all@, keys),
            forall|k: Text| #[trigger]
                r@.contains_key(k) <==> collections::among(keys, i as int, k) && all@[k].expires_ms
                    > now,
            forall|k: Text| #[trigger] r@.contains_key(k) ==> r@[k] == all@[k],
        decreases n - i,
    {
        let ghost k = keys[i as int];
        let ghost before = r@;
        let invitation = all.value(i);
        if invitation.expires_ms > now {
            r.insert(all.key(i).clone(), invitation.duplicate());
            assert(r@ == before.insert(k, all@[k]));
        }
        proof {
            collections::lemma_among_next(keys, i as int);
        }
        i = i + 1;
    }
    proof {
        collections::lemma_among_all::<String>(all@.dom(), keys);
        assert(r@ =~= rules::live_invitations(all@, now));
    }
    r
}

/// The invitations of other devices.
fn invitations_without(all: &StrMap<Invitation>, device: &str) -> (r: StrMap<Invitation>)
    ensures
        r@ == rules::invitations_without(all@, device@),
{
    let ghost keys = all.keys();
    let n: usize = all.len();
    let mut r: StrMap<Invitation> = StrMap::new();
    let mut i: usize = 0;
    while i < n
        invariant
            i <= n,
            n == keys.len(),
            keys == all.keys(),
            collections::lists::<String, InvitationView>(all@, keys),
            forall|k: Text| #[trigger]
                r@.contains_key(k) <==> collections::among(keys, i as int, k) && all@[k].device
                    != device@,
            forall|k: Text| #[trigger] r@.contains_key(k) ==> r@[k] == all@[k],
        decreases n - i,
    {
        let ghost k = keys[i as int];
        let ghost before = r@;
        let invitation = all.value(i);
        if !same_text(invitation.device.as_str(), device) {
            r.insert(all.key(i).clone(), invitation.duplicate());
            assert(r@ == before.insert(k, all@[k]));
        }
        proof {
            collections::lemma_among_next(keys, i as int);
        }
        i = i + 1;
    }
    proof {
        collections::lemma_among_all::<String>(all@.dom(), keys);
        assert(r@ =~= rules::invitations_without(all@, device@));
    }
    r
}

/// The first device of a list is the least of the set.
proof fn lemma_least(set: Set<Text>, items: Seq<Text>)
    requires
        collections::lists_set::<String>(set, items),
        items.len() > 0,
    ensures
        rules::least(set) == items[0],
{
    let first = items[0];
    assert forall|o: Text| #[trigger]
        set.contains(o) && o != first implies crate::order::text_before(first, o) by {
        let j = items.index_of(o);
        assert(items[j] == o);
    }
    assert(rules::is_least(set, first));
    let other = rules::least(set);
    if other != first {
        <String as crate::order::Key>::transitive(first, other, first);
        <String as crate::order::Key>::irreflexive(first);
    }
}

impl State {
    fn invite_device(
        &mut self,
        actor: &str,
        now: u64,
        id: String,
        device: String,
        expires_ms: u64,
    ) -> (r: Result<()>)
        ensures
            error::settles(
                r,
                old(self)@,
                final(self)@,
                rules::invite_device(old(self)@, actor@, now, id@, device@, expires_ms),
            ),
    {
        if id.as_str().is_empty() || !within(id.as_str(), 128) || expires_ms <= now || expires_ms
            > now.saturating_add(600_000) {
            return Err(Error::Denied);
        }
        if outside::parse_peer(device.as_str()).is_none() {
            return Err(Error::Denied);
        }
        if self.revoked_devices.contains(device.as_str()) || find_owner(
            &self.members,
            device.as_str(),
        ).is_some() {
            return Err(Error::Denied);
        }
        let member = match find_owner(&self.members, actor) {
            Some(member) => member,
            None => {
                return Err(Error::Denied);
            },
        };
        match self.members.get(member.as_str()) {
            Some(m) => {
                if m.additional_devices.len() >= 7 {
                    return Err(Error::Capacity);
                }
            },
            None => {},
        }
        let mut live = live_invitations(&self.device_invitations, now);
        if live.len() >= 4096 || live.contains_key(id.as_str()) {
            return Err(Error::Capacity);
        }
        live.insert(id, Invitation { member, device, expires_ms });
        self.device_invitations = live;
        Ok(())
    }

    fn accept_device(&mut self, actor: &str, now: u64, id: String) -> (r: Result<()>)
        ensures
            error::settles(r, old(self)@, final(self)@, rules::accept_device(old(self)@, actor@, now, id@)),
    {
        let ghost start = self@;
        let invitation = match self.device_invitations.get(id.as_str()) {
            Some(invitation) => invitation.duplicate(),
            None => {
                return Err(Error::NotFound);
            },
        };
        if !same_text(invitation.device.as_str(), actor) || invitation.expires_ms <= now
            || self.revoked_devices.contains(actor) || find_owner(&self.members, actor).is_some() {
            return Err(Error::Denied);
        }
        let mut member = match self.members.get(invitation.member.as_str()) {
            Some(member) => member.duplicate(),
            None => {
                return Err(Error::NotFound);
            },
        };
        if member.additional_devices.len() >= 7 {
            return Err(Error::Capacity);
        }
        member.additional_devices.insert(actor.to_owned());
        let ghost m = member@;
        self.device_invitations.remove(id.as_str());
        self.members.insert(invitation.member, member);
        proof {
            let expected = rules::accept_device(start, actor@, now, id@)->Ok_0;
            assert(self@.members =~= expected.members);
        }
        Ok(())
    }

    fn revoke_device(&mut self, actor: &str, device: String) -> (r: Result<()>)
        ensures
            error::settles(r, old(self)@, final(self)@, rules::revoke_device(old(self)@, actor@, device@)),
    {
        let ghost start = self@;
        let id = match find_owner(&self.members, actor) {
            Some(id) => id,
            None => {
                return Err(Error::Denied);
            },
        };
        let mut member = match self.members.get(id.as_str()) {
            Some(member) => member.duplicate(),
            None => {
                return Err(Error::Denied);
            },
        };
        let ghost before = member@;
        let principal: bool = same_text(member.device.as_str(), device.as_str());
        if !member.owns(device.as_str()) || (principal && member.additional_devices.is_empty()) {
            return Err(Error::Denied);
        }
        if principal {
            let further = member.additional_devices.item_list();
            proof {
                let items = further.deep_view();
                collections::lemma_items_of::<String>(before.additional_devices, items);
                if items.len() == 0 {
                    assert(before.additional_devices =~= Set::empty());
                }
                lemma_least(before.additional_devices, items);
                assert(items[0] == further@[0].deep_view());
            }
            member.additional_devices.remove(further[0].as_str());
            member.device = further[0].clone();
        } else {
            member.additional_devices.remove(device.as_str());
        }
        assert(member@ =~= rules::without_device(before, device@));
        let ghost owner = id@;
        self.members.insert(id, member);
        self.device_invitations =
        invitations_without(&self.device_invitations, device.as_str());
        let ghost gone = device@;
        self.revoked_devices.insert(device);
        proof {
            let expected = rules::revoke_device(start, actor@, gone)->Ok_0;
            assert(self@.members =~= expected.members);
        }
        Ok(())
    }

    /// Invites, accepts or revokes a device.
    pub(crate) fn device_transition(&mut self, actor: &str, now: u64, action: Action) -> (r: Result<
        (),
    >)
        requires
            action@ is InviteMemberDevice || action@ is AcceptMemberDevice
                || action@ is RevokeMemberDevice,
        ensures
            error::settles(
                r,
                old(self)@,
                final(self)@,
                rules::step(old(self)@, actor@, now, action@, false),
            ),
    {
        match action {
            Action::InviteMemberDevice { id, device, expires_ms } => self.invite_device(
                actor,
                now,
                id,
                device,
                expires_ms,
            ),
            Action::AcceptMemberDevice { id } => self.accept_device(actor, now, id),
            Action::RevokeMemberDevice { device } => self.revoke_device(actor, device),
            _ => Err(Error::Denied),
        }
    }
}

} // verus!
