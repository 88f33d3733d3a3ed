//! Decisions of the federation count schools, not devices or hosting machines.
use vstd::prelude::*;
use vstd::string::*;

use crate::collections;
use crate::collections::{StrMap, StrSet};
use crate::error;
use crate::error::{Error, Outcome, Result};
use crate::governance::{find_owner, Action, State};
use crate::laws;
use crate::model::rules;
use crate::model::views::{StateView, Text};
use crate::order::{same_text, Duplicate, Key};
use crate::outside;
use crate::text;
use crate::text::{text, within};

verus! {

/// The schools that decide together, and how many of them it takes.
#[derive(Debug, PartialEq, Eq)]
pub struct Council {
    pub epoch: u64,
    pub schools: StrMap<StrSet>,
    pub quorum: usize,
    pub change_quorum: usize,
    pub cooldown_ms: u64,
}

/// A management action that awaits the approval of schools.
#[derive(Debug, PartialEq, Eq)]
pub struct Proposal {
    pub proposer: String,
    pub action: Action,
    pub epoch: u64,
    pub created_ms: u64,
    pub expires_ms: u64,
    pub approvals: StrMap<String>,
    pub executed: bool,
    pub cancelled: bool,
}

/// A question to the members.
#[derive(Debug, PartialEq, Eq)]
pub struct Ballot {
    pub title: String,
    pub options: Vec<String>,
    pub closes_ms: u64,
    pub electorate: StrSet,
    pub votes: StrMap<usize>,
}

/// A note from a member, and the answer to it.
#[derive(Debug, PartialEq, Eq)]
pub struct Feedback {
    pub member: String,
    pub category: String,
    pub text: String,
    pub created_ms: u64,
    pub response: Option<String>,
}

/// Whether every device is the identity of a peer and none is listed yet; lists them.
fn admit_devices(devices: &StrSet, listed: &mut StrSet) -> (r: bool)
    ensures
        r == forall|device: Text| #[trigger]
            devices@.contains(device) ==> rules::is_peer(device) && !old(listed)@.contains(device),
        r ==> final(listed)@ == old(listed)@.union(devices@),
{
    let ghost items = devices.items();
    let ghost before = listed@;
    let n: usize = devices.len();
    let mut i: usize = 0;
    while i < n
        invariant
            i <= n,
            n == items.len(),
            before == old(listed)@,
            items == devices.items(),
            collections::lists_set::<String>(devices@, items),
            forall|j: int|
                0 <= j < i ==> rules::is_peer(#[trigger] items[j]) && !before.contains(items[j]),
            forall|k: Text| #[trigger]
                listed@.contains(k) <==> before.contains(k) || collections::among(
                    items,
                    i as int,
                    k,
                ),
        decreases n - i,
    {
        let device = devices.item(i);
        let ghost k = items[i as int];
        assert(!collections::among(items, i as int, k)) by {
            if collections::among(items, i as int, k) {
                let j = choose|j: int| 0 <= j < i && #[trigger] items[j] == k;
                <String as Key>::irreflexive(k);
            }
        }
        if outside::parse_peer(device.as_str()).is_none() {
            return false;
        }
        let ghost held = listed@;
        let fresh: bool = listed.insert(device.clone());
        assert(listed@ == held.insert(k) && fresh == !held.contains(k));
        if !fresh {
            assert(devices@.contains(k) && before.contains(k));
            return false;
        }
        proof {
            collections::lemma_among_next(items, i as int);
        }
        i = i + 1;
    }
    proof {
        collections::lemma_among_all::<String>(devices@, items);
        assert forall|device: Text| #[trigger] devices@.contains(device) implies rules::is_peer(
            device,
        ) && !before.contains(device) by {
            let j = items.index_of(device);
            assert(items[j] == device);
        }
        assert(listed@ =~= before.union(devices@));
    }
    true
}

/// Whether the schools each have a name and devices of their own.
fn are_delegations(schools: &StrMap<StrSet>) -> (r: bool)
    ensures
        r == {
            &&& forall|school: Text| #[trigger]
                schools@.contains_key(school) ==> rules::is_delegation(school, schools@[school])
            &&& forall|a: Text, b: Text, device: Text|
                #![trigger schools@[a].contains(device), schools@[b].contains(device)]
                schools@.contains_key(a) && schools@.contains_key(b) && schools@[a].contains(device)
                    && schools@[b].contains(device) ==> a == b
        },
{
    let ghost keys = schools.keys();
    let n: usize = schools.len();
    let mut listed = StrSet::new();
    let mut i: usize = 0;
    while i < n
        invariant
            i <= n,
            n == keys.len(),
            keys == schools.keys(),
            collections::lists::<String, Set<Text>>(schools@, keys),
            forall|j: int|
                0 <= j < i ==> rules::is_delegation(#[trigger] keys[j], schools@[keys[j]]),
            forall|device: Text| #[trigger]
                listed@.contains(device) <==> exists|j: int|
                    0 <= j < i && schools@[#[trigger] keys[j]].contains(device),
            forall|x: int, y: int, device: Text|
                #![trigger schools@[keys[x]].contains(device), schools@[keys[y]].contains(device)]
                0 <= x < i && 0 <= y < i && schools@[keys[x]].contains(device)
                    && schools@[keys[y]].contains(device) ==> x == y,
        decreases n - i,
    {
        let school = schools.key(i);
        let devices = schools.value(i);
        let ghost k = keys[i as int];
        let ghost before = listed@;
        assert(schools@.contains_key(k));
        let count: usize = devices.len();
        if school.as_str().is_empty() || !within(school.as_str(), 128) || devices.is_empty() || count
            > 16 {
            assert(!rules::is_delegation(k, schools@[k]));
            return false;
        }
        if !admit_devices(devices, &mut listed) {
            proof {
                let device = choose|device: Text| #[trigger]
                    devices@.contains(device) && !(rules::is_peer(device) && !before.contains(
                        device,
                    ));
                if rules::is_peer(device) {
                    let j = choose|j: int|
                        0 <= j < i && schools@[#[trigger] keys[j]].contains(device);
                    assert(schools@.dom().contains(keys[j]));
                    assert(schools@[keys[j]].contains(device) && schools@[k].contains(device));
                    <String as Key>::irreflexive(k);
                } else {
                    assert(!rules::is_delegation(k, schools@[k]));
                }
            }
            return false;
        }
        proof {
            assert forall|device: Text| #[trigger] listed@.contains(device) <==> exists|j: int|
                0 <= j < i + 1 && schools@[#[trigger] keys[j]].contains(device) by {
                if before.contains(device) {
                    let j = choose|j: int|
                        0 <= j < i && schools@[#[trigger] keys[j]].contains(device);
                    assert(schools@[keys[j]].contains(device));
                }
                if devices@.contains(device) {
                    assert(schools@[keys[i as int]].contains(device));
                }
            }
            assert forall|x: int, y: int, device: Text|
                #![trigger schools@[keys[x]].contains(device), schools@[keys[y]].contains(device)]
                0 <= x < i + 1 && 0 <= y < i + 1 && schools@[keys[x]].contains(device)
                    && schools@[keys[y]].contains(device) implies x == y by {
                if x < i && y == i {
                    assert(before.contains(device));
                }
                if y < i && x == i {
                    assert(before.contains(device));
                }
            }
        }
        i = i + 1;
    }
    proof {
        assert forall|school: Text| #[trigger] schools@.contains_key(
            school,
        ) implies rules::is_delegation(school, schools@[school]) by {
            assert(schools@.dom().contains(school));
            let j = keys.index_of(school);
            assert(keys[j] == school);
        }
        assert forall|a: Text, b: Text, device: Text|
            #![trigger schools@[a].contains(device), schools@[b].contains(device)]
            schools@.contains_key(a) && schools@.contains_key(b) && schools@[a].contains(device)
                && schools@[b].contains(device) implies a == b by {
            assert(schools@.dom().contains(a) && schools@.dom().contains(b));
            let x = keys.index_of(a);
            let y = keys.index_of(b);
            assert(keys[x] == a && keys[y] == b);
            assert(schools@[keys[x]].contains(device) && schools@[keys[y]].contains(device));
        }
    }
    true
}

impl Council {
    /// Accepts a council whose schools, quorums and waiting time are in order.
    pub fn validate(&self) -> (r: Result<()>)
        ensures
            rules::is_council(self@) ==> r is Ok,
            !rules::is_council(self@) ==> r is Err && r->Err_0@ == error::ErrorView::Denied,
    {
        let n: usize = self.schools.len();
        if n == 0 || n > 128 {
            return Err(Error::Denied);
        }
        if self.quorum < (2 * n + 2) / 3 || self.quorum > n || self.change_quorum < (3 * n + 3) / 4
            || self.change_quorum < self.quorum || self.change_quorum > n || self.cooldown_ms
            < 172_800_000 || self.cooldown_ms > 604_800_000 {
            return Err(Error::Denied);
        }
        if !are_delegations(&self.schools) {
            return Err(Error::Denied);
        }
        Ok(())
    }

    /// The school that the device speaks for.
    fn school(&self, device: &str) -> (r: Option<String>)
        ensures
            r.deep_view() == rules::school_of(self@, device@),
            r is Some == rules::represents(self@, device@),
    {
        let ghost keys = self.schools.keys();
        let ghost test = rules::school_test(device@);
        let n: usize = self.schools.len();
        let mut i: usize = 0;
        while i < n
            invariant
                i <= n,
                n == keys.len(),
                keys == self.schools.keys(),
                collections::lists::<String, Set<Text>>(self.schools@, keys),
                test == rules::school_test(device@),
                forall|j: int| 0 <= j < i ==> !test(#[trigger] keys[j], self.schools@[keys[j]]),
            decreases n - i,
        {
            let ghost k = keys[i as int];
            assert(self.schools@.dom().contains(k));
            assert(test(k, self.schools@[k]) == self.schools@[k].contains(device@));
            if self.schools.value(i).contains(device) {
                proof {
                    collections::lemma_first_at::<String, Set<Text>>(
                        self.schools@,
                        keys,
                        test,
                        i as int,
                    );
                    assert(self@.schools.contains_key(k));
                }
                return Some(self.schools.key(i).clone());
            }
            i = i + 1;
        }
        proof {
            collections::lemma_first_none::<String, Set<Text>>(self.schools@, keys, test);
            assert forall|school: Text| #[trigger] self@.schools.contains_key(
                school,
            ) implies !self@.schools[school].contains(device@) by {
                assert(!test(school, self.schools@[school]));
            }
        }
        None
    }

    /// Whether the device speaks for some school.
    pub(crate) fn represents(&self, device: &str) -> (r: bool)
        ensures
            r == rules::represents(self@, device@),
    {
        self.school(device).is_some()
    }
}

/// Whether only a council can decide on the action, once there is one.
pub(crate) fn protected(action: &Action) -> (r: bool)
    ensures
        r == rules::protected(action@),
{
    match action {
        Action::CreateSeason { .. } => true,
        Action::ScheduleLeague { .. } => true,
        Action::ResolveDispute { .. } => true,
        Action::SetConsensusMembers { .. } => true,
        Action::GrantAdmin { .. } => true,
        Action::RevokeAdmin { .. } => true,
        Action::RotateMemberDevice { .. } => true,
        Action::Enroll { .. } => true,
        Action::CreateLeague { .. } => true,
        Action::UpdateCouncil { .. } => true,
        _ => false,
    }
}

/// Whether the action changes the council.
fn changes_council(action: &Action) -> (r: bool)
    ensures
        r == (action@ is UpdateCouncil),
{
    match action {
        Action::UpdateCouncil { .. } => true,
        _ => false,
    }
}

/// Whether no two of the texts are the same.
fn all_different(options: &Vec<String>) -> (r: bool)
    ensures
        r == options.deep_view().no_duplicates(),
{
    let ghost view = options.deep_view();
    let mut seen = StrSet::new();
    let mut i: usize = 0;
    while i < options.len()
        invariant
            i <= options.len(),
            view == options.deep_view(),
            forall|k: Text| #[trigger]
                seen@.contains(k) <==> collections::among(view, i as int, k),
            forall|x: int, y: int| 0 <= x < y < i ==> #[trigger] view[x] != #[trigger] view[y],
        decreases options.len() - i,
    {
        let ghost before = seen@;
        assert(view[i as int] == options@[i as int].deep_view());
        if !seen.insert(options[i].clone()) {
            proof {
                let j = choose|j: int| 0 <= j < i && #[trigger] view[j] == view[i as int];
            }
            return false;
        }
        proof {
            collections::lemma_among_next(view, i as int);
            assert forall|x: int, y: int| 0 <= x < y < i + 1 implies #[trigger] view[x]
                != #[trigger] view[y] by {
                if y == i && view[x] == view[y] {
                    assert(collections::among(view, i as int, view[i as int]));
                }
            }
        }
        i = i + 1;
    }
    true
}

/// Whether every option is free text of at most 256 bytes.
fn all_texts(options: &Vec<String>) -> (r: bool)
    ensures
        r == !exists|i: int|
            0 <= i < options.deep_view().len() && !text::is_text(
                #[trigger] options.deep_view()[i],
                256,
            ),
{
    let ghost view = options.deep_view();
    let mut i: usize = 0;
    while i < options.len()
        invariant
            i <= options.len(),
            view == options.deep_view(),
            forall|j: int| 0 <= j < i ==> text::is_text(#[trigger] view[j], 256),
        decreases options.len() - i,
    {
        assert(view[i as int] == options@[i as int].deep_view());
        if text(options[i].as_str(), 256).is_err() {
            return false;
        }
        i = i + 1;
    }
    true
}

impl Proposal {
    /// Whether each approval was given by a device that still speaks for the school.
    fn approvals_stand(&self, council: &Council) -> (r: bool)
        ensures
            r == rules::approvals_stand(self@, council@),
    {
        let ghost keys = self.approvals.keys();
        let n: usize = self.approvals.len();
        let mut i: usize = 0;
        while i < n
            invariant
                i <= n,
                n == keys.len(),
                keys == self.approvals.keys(),
                collections::lists::<String, Text>(self.approvals@, keys),
                forall|j: int|
                    0 <= j < i ==> rules::school_of(
                        council@,
                        self.approvals@[#[trigger] keys[j]],
                    ) == Some(keys[j]),
            decreases n - i,
        {
            let ghost k = keys[i as int];
            assert(self.approvals@.dom().contains(k));
            let stands: bool = match council.school(self.approvals.value(i).as_str()) {
                Some(school) => same_text(school.as_str(), self.approvals.key(i).as_str()),
                None => false,
            };
            if !stands {
                assert(self@.approvals.contains_key(k));
                return false;
            }
            i = i + 1;
        }
        assert forall|school: Text| #[trigger] self@.approvals.contains_key(
            school,
        ) implies rules::school_of(council@, self@.approvals[school]) == Some(school) by {
            assert(self.approvals@.dom().contains(school));
            let j = keys.index_of(school);
            assert(keys[j] == school);
        }
        true
    }

    /// Whether the proposal can still be approved or carried out.
    fn is_open(&self, council: &Council, now: u64) -> (r: bool)
        ensures
            r == rules::is_open(self@, council@, now),
    {
        self.epoch == council.epoch && self.expires_ms > now && !self.executed && !self.cancelled
    }

    /// Whether the proposal has what it takes to be carried out.
    fn is_carried(&self, council: &Council, now: u64) -> (r: bool)
        ensures
            r == rules::is_carried(self@, council@, now),
    {
        let change: bool = changes_council(&self.action);
        let threshold: usize = if change {
            council.change_quorum
        } else {
            council.quorum
        };
        if !self.is_open(council, now) || self.approvals.len() < threshold {
            return false;
        }
        if change && now < self.created_ms.saturating_add(council.cooldown_ms) {
            return false;
        }
        self.approvals_stand(council)
    }
}

impl State {
    fn install_council(&mut self, actor: &str, council: Council) -> (r: Result<()>)
        ensures
            error::settles(
                r,
                old(self)@,
                final(self)@,
                rules::install_council(old(self)@, actor@, council@),
            ),
    {
        if self.council.is_some() || !self.admins.contains(actor) {
            return Err(Error::Denied);
        }
        match council.validate() {
            Ok(_) => {},
            Err(e) => {
                return Err(e);
            },
        }
        let mut council = council;
        council.epoch = 1;
        self.council = Some(council);
        Ok(())
    }

    fn update_council(&mut self, approved: bool, council: Council) -> (r: Result<()>)
        ensures
            error::settles(
                r,
                old(self)@,
                final(self)@,
                rules::update_council(old(self)@, approved, council@),
            ),
    {
        if !approved {
            return Err(Error::Denied);
        }
        match council.validate() {
            Ok(_) => {},
            Err(e) => {
                return Err(e);
            },
        }
        let epoch: u64 = match &self.council {
            Some(current) => match current.epoch.checked_add(1) {
                Some(epoch) => epoch,
                None => {
                    return Err(Error::Capacity);
                },
            },
            None => {
                return Err(Error::Denied);
            },
        };
        let mut council = council;
        council.epoch = epoch;
        self.council = Some(council);
        Ok(())
    }

    fn propose(&mut self, actor: &str, now: u64, id: String, action: Action, expires_ms: u64) -> (r:
        Result<()>)
        ensures
            error::settles(
                r,
                old(self)@,
                final(self)@,
                rules::propose(old(self)@, actor@, now, id@, action@, expires_ms),
            ),
    {
        if text(id.as_str(), 128).is_err() {
            return Err(Error::Denied);
        }
        if !protected(&action) || expires_ms <= now || expires_ms > now.saturating_add(604_800_000)
            || self.proposals.contains_key(id.as_str()) || self.proposals.len() >= 10000 {
            return Err(Error::Denied);
        }
        let (school, epoch): (String, u64) = match &self.council {
            Some(council) => match council.school(actor) {
                Some(school) => {
                    if changes_council(&action) && expires_ms <= now.saturating_add(
                        council.cooldown_ms,
                    ) {
                        return Err(Error::Denied);
                    }
                    (school, council.epoch)
                },
                None => {
                    return Err(Error::Denied);
                },
            },
            None => {
                return Err(Error::Denied);
            },
        };
        let ghost speaker = school@;
        let mut approvals: StrMap<String> = StrMap::new();
        approvals.insert(school, actor.to_owned());
        assert(approvals@ =~= Map::empty().insert(speaker, actor@));
        self.proposals.insert(
            id,
            Proposal {
                proposer: actor.to_owned(),
                action,
                epoch,
                created_ms: now,
                expires_ms,
                approvals,
                executed: false,
                cancelled: false,
            },
        );
        Ok(())
    }

    fn approve(&mut self, actor: &str, now: u64, id: String) -> (r: Result<()>)
        ensures
            error::settles(r, old(self)@, final(self)@, rules::approve(old(self)@, actor@, now, id@)),
    {
        let ghost start = self@;
        let ghost expected = rules::approve(start, actor@, now, id@);
        let council = match &self.council {
            Some(council) => council,
            None => {
                return Err(Error::Denied);
            },
        };
        let school = match council.school(actor) {
            Some(school) => school,
            None => {
                return Err(Error::Denied);
            },
        };
        let mut proposal = match self.proposals.get(id.as_str()) {
            Some(proposal) => proposal.duplicate(),
            None => {
                return Err(Error::NotFound);
            },
        };
        if !proposal.is_open(council, now) || proposal.approvals.contains_key(school.as_str()) {
            return Err(Error::Denied);
        }
        proposal.approvals.insert(school, actor.to_owned());
        self.proposals.insert(id, proposal);
        assert(self@.proposals =~= expected->Ok_0.proposals);
        Ok(())
    }

    fn cancel(&mut self, actor: &str, id: String) -> (r: Result<()>)
        ensures
            error::settles(r, old(self)@, final(self)@, rules::cancel(old(self)@, actor@, id@)),
    {
        let ghost expected = rules::cancel(self@, actor@, id@);
        let mut proposal = match self.proposals.get(id.as_str()) {
            Some(proposal) => proposal.duplicate(),
            None => {
                return Err(Error::NotFound);
            },
        };
        if !same_text(proposal.proposer.as_str(), actor) || proposal.executed
            || proposal.cancelled {
            return Err(Error::Denied);
        }
        proposal.cancelled = true;
        self.proposals.insert(id, proposal);
        assert(self@.proposals =~= expected->Ok_0.proposals);
        Ok(())
    }

    /// The proposal that the actor may carry out now.
    fn carried(&self, actor: &str, now: u64, id: &str) -> (r: Result<Proposal>)
        ensures
            match r {
                Ok(p) => {
                    &&& rules::can_read(self@, actor@)
                    &&& self@.council is Some
                    &&& self@.proposals.contains_key(id@)
                    &&& p@ == self@.proposals[id@]
                    &&& rules::is_carried(p@, self@.council->0, now)
                },
                Err(e) => rules::execute(self@, actor@, now, id@) == Outcome::<StateView>::Err(e@),
            },
    {
        if !self.can_read(actor) {
            return Err(Error::Denied);
        }
        let council = match &self.council {
            Some(council) => council,
            None => {
                return Err(Error::Denied);
            },
        };
        let proposal = match self.proposals.get(id) {
            Some(proposal) => proposal,
            None => {
                return Err(Error::NotFound);
            },
        };
        if !proposal.is_carried(council, now) {
            return Err(Error::Denied);
        }
        Ok(proposal.duplicate())
    }

    fn execute(&mut self, actor: &str, now: u64, id: String) -> (r: Result<()>)
        requires
            rules::well_formed(old(self)@),
        ensures
            error::settles(r, old(self)@, final(self)@, rules::execute(old(self)@, actor@, now, id@)),
        decreases 1int, 0int,
    {
        let ghost start = self@;
        let ghost expected = rules::execute(start, actor@, now, id@);
        let proposal = match self.carried(actor, now, id.as_str()) {
            Ok(proposal) => proposal,
            Err(e) => {
                return Err(e);
            },
        };
        match self.transition_authorized(
            proposal.proposer.as_str(),
            now,
            proposal.action,
            true,
        ) {
            Ok(_) => {},
            Err(e) => {
                return Err(e);
            },
        }
        proof {
            let p = start.proposals[id@];
            assert(start.proposals.contains_key(id@) && rules::protected(p.action));
            laws::commands::lemma_manage_well_formed(start, p.proposer, true, true, now, p.action);
        }
        let mut done = match self.proposals.remove(id.as_str()) {
            Some(done) => done,
            None => {
                return Err(Error::NotFound);
            },
        };
        done.executed = true;
        self.proposals.insert(id, done);
        assert(self@.proposals =~= expected->Ok_0.proposals);
        Ok(())
    }

    fn create_ballot(
        &mut self,
        actor: &str,
        now: u64,
        id: String,
        title: String,
        options: Vec<String>,
        closes_ms: u64,
    ) -> (r: Result<()>)
        ensures
            error::settles(
                r,
                old(self)@,
                final(self)@,
                rules::create_ballot(
                    old(self)@,
                    actor@,
                    now,
                    id@,
                    title@,
                    options.deep_view(),
                    closes_ms,
                ),
            ),
    {
        let delegate: bool = match &self.council {
            Some(council) => council.school(actor).is_some(),
            None => false,
        };
        if !self.admins.contains(actor) && !delegate {
            return Err(Error::Denied);
        }
        if text(id.as_str(), 128).is_err() || text(title.as_str(), 2048).is_err() {
            return Err(Error::Denied);
        }
        if options.len() < 2 || options.len() > 20 || !all_different(&options) || closes_ms <= now
            || closes_ms > now.saturating_add(2_592_000_000) || self.ballots.contains_key(
            id.as_str(),
        ) || self.ballots.len() >= 10000 {
            return Err(Error::Denied);
        }
        if !all_texts(&options) {
            return Err(Error::Denied);
        }
        let electorate = self.electorate();
        self.ballots.insert(id, Ballot { title, options, closes_ms, electorate, votes: StrMap::new() });
        Ok(())
    }

    /// Everybody who is enrolled.
    fn electorate(&self) -> (r: StrSet)
        ensures
            r@ == self@.members.dom(),
    {
        let list = self.members.key_list();
        let ghost keys = list.deep_view();
        let mut r = StrSet::new();
        let mut i: usize = 0;
        while i < list.len()
            invariant
                i <= list.len(),
                keys == list.deep_view(),
                forall|k: Text| #[trigger]
                    r@.contains(k) <==> collections::among(keys, i as int, k),
            decreases list.len() - i,
        {
            assert(keys[i as int] == list@[i as int].deep_view());
            let ghost before = r@;
            r.insert(list[i].clone());
            assert(r@ == before.insert(keys[i as int]));
            proof {
                collections::lemma_among_next(keys, i as int);
            }
            i = i + 1;
        }
        proof {
            collections::lemma_among_all::<String>(self@.members.dom(), keys);
            assert(r@ =~= self@.members.dom());
        }
        r
    }

    fn vote(&mut self, actor: &str, now: u64, id: String, option: usize) -> (r: Result<()>)
        ensures
            error::settles(r, old(self)@, final(self)@, rules::vote(old(self)@, actor@, now, id@, option)),
    {
        let ghost expected = rules::vote(self@, actor@, now, id@, option);
        let member = match find_owner(&self.members, actor) {
            Some(member) => member,
            None => {
                return Err(Error::Denied);
            },
        };
        let mut ballot = match self.ballots.get(id.as_str()) {
            Some(ballot) => ballot.duplicate(),
            None => {
                return Err(Error::NotFound);
            },
        };
        if now >= ballot.closes_ms || option >= ballot.options.len() || !ballot.electorate.contains(
            member.as_str(),
        ) || ballot.votes.contains_key(member.as_str()) {
            return Err(Error::Denied);
        }
        ballot.votes.insert(member, option);
        self.ballots.insert(id, ballot);
        assert(self@.ballots =~= expected->Ok_0.ballots);
        Ok(())
    }

    fn submit_feedback(
        &mut self,
        actor: &str,
        now: u64,
        id: String,
        category: String,
        body: String,
    ) -> (r: Result<()>)
        ensures
            error::settles(
                r,
                old(self)@,
                final(self)@,
                rules::submit_feedback(old(self)@, actor@, now, id@, category@, body@),
            ),
    {
        let member = match find_owner(&self.members, actor) {
            Some(member) => member,
            None => {
                return Err(Error::Denied);
            },
        };
        if text(id.as_str(), 128).is_err() || text(category.as_str(), 128).is_err() || text(
            body.as_str(),
            4096,
        ).is_err() {
            return Err(Error::Denied);
        }
        if self.feedback.contains_key(id.as_str()) || self.feedback.len() >= 10000 {
            return Err(Error::Capacity);
        }
        self.feedback.insert(
            id,
            Feedback { member, category, text: body, created_ms: now, response: None },
        );
        Ok(())
    }

    fn respond(&mut self, actor: &str, id: String, body: String) -> (r: Result<()>)
        ensures
            error::settles(r, old(self)@, final(self)@, rules::respond(old(self)@, actor@, id@, body@)),
    {
        let ghost expected = rules::respond(self@, actor@, id@, body@);
        if !self.admins.contains(actor) {
            return Err(Error::Denied);
        }
        if text(body.as_str(), 4096).is_err() {
            return Err(Error::Denied);
        }
        let mut note = match self.feedback.get(id.as_str()) {
            Some(note) => note.duplicate(),
            None => {
                return Err(Error::NotFound);
            },
        };
        note.response = Some(body);
        self.feedback.insert(id, note);
        assert(self@.feedback =~= expected->Ok_0.feedback);
        Ok(())
    }

    /// Installs and changes the council, handles proposals, ballots and feedback.
    pub(crate) fn council_transition(
        &mut self,
        actor: &str,
        now: u64,
        action: Action,
        approved: bool,
    ) -> (r: Result<()>)
        requires
            rules::well_formed(old(self)@),
            rules::is_council_action(action@),
        ensures
            action@ is UpdateCouncil ==> error::settles(
                r,
                old(self)@,
                final(self)@,
                rules::update_council(old(self)@, approved, action@->UpdateCouncil_council),
            ),
            !(action@ is UpdateCouncil) ==> error::settles(
                r,
                old(self)@,
                final(self)@,
                rules::step(old(self)@, actor@, now, action@, approved),
            ),
        decreases
                (if action@ is ExecuteProposal {
                    1int
                } else {
                    0int
                }),
                1int,
    {
        match action {
            Action::InstallCouncil { council } => self.install_council(actor, council),
            Action::UpdateCouncil { council } => self.update_council(approved, council),
            Action::Propose { id, action, expires_ms } => self.propose(
                actor,
                now,
                id,
                *action,
                expires_ms,
            ),
            Action::ApproveProposal { id } => self.approve(actor, now, id),
            Action::CancelProposal { id } => self.cancel(actor, id),
            Action::ExecuteProposal { id } => self.execute(actor, now, id),
            Action::CreateBallot { id, title, options, closes_ms } => self.create_ballot(
                actor,
                now,
                id,
                title,
                options,
                closes_ms,
            ),
            Action::MemberVote { id, option } => self.vote(actor, now, id, option),
            Action::SubmitFeedback { id, category, text } => self.submit_feedback(
                actor,
                now,
                id,
                category,
                text,
            ),
            Action::RespondFeedback { id, text } => self.respond(actor, id, text),
            _ => Err(Error::Protocol("not a council action".to_owned())),
        }
    }
}

} // verus!
