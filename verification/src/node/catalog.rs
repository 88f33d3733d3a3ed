//! What a node offers, and whom it lets in.
use vstd::prelude::*;
use vstd::string::*;

use crate::access;
use crate::access::{AccessPolicy, AccessPolicyView, SignedGrant};
use crate::collections;
use crate::collections::StrMap;
use crate::error;
use crate::error::{invalid, Error, ErrorView, Outcome, Result};
use crate::federation;
use crate::federation::{
    Circle, StudentClaims, StudentClaimsView, StudentDelegation, StudentDelegationView,
    StudentPresentation, StudentPresentationView,
};
use crate::identity::PeerId;
use crate::model::views::Text;
use crate::order::{Duplicate, Key};
use crate::outside;
use crate::protocol::{
    DirectoryResponse, DirectoryResponseView, OpenRequest, OpenRequestView, ServiceRecord,
    ServiceRecordView, Status, MAX_SERVICES,
};
use crate::service;
use crate::service::{Service, ServiceId, ServiceView};

verus! {

/// The services that a node offers, by the text form of their identities.
pub struct Catalog {
    services: StrMap<Service>,
}

impl View for Catalog {
    type V = Map<Text, ServiceView>;

    closed spec fn view(&self) -> Map<Text, ServiceView> {
        self.services@
    }
}

/// What holds of a catalog: each service is listed under its own identity, is properly named,
/// and there are not too many.
pub open spec fn catalog_sound(m: Map<Text, ServiceView>) -> bool {
    &&& m.dom().finite()
    &&& m.len() <= MAX_SERVICES
    &&& forall|key: Text| #[trigger]
        m.contains_key(key) ==> {
            &&& key == service::uuid_text(m[key].id.number)
            &&& outside::uuid_of_text(key) == Ok::<u128, Text>(m[key].id.number)
            &&& service::is_service(m[key].name, m[key].protocol)
        }
}

/// The catalog with one more service, or with another version of one.
pub open spec fn published(m: Map<Text, ServiceView>, s: ServiceView) -> Outcome<
    Map<Text, ServiceView>,
> {
    let key = service::uuid_text(s.id.number);
    if !service::is_service(s.name, s.protocol) {
        Err(ErrorView::Protocol("invalid service name or protocol"@))
    } else if !m.contains_key(key) && m.len() >= MAX_SERVICES {
        Err(ErrorView::Capacity)
    } else {
        Ok(m.insert(key, s))
    }
}

/// The services of a catalog as they are listed, in the order of their identities.
pub open spec fn directory_of(m: Map<Text, ServiceView>) -> Seq<ServiceRecordView> {
    collections::keys_of::<String, ServiceView>(m).map_values(
        |key: Text| service::listed(m[key].id, m[key].name, m[key].protocol),
    )
}

/// What a listed service says of its identity.
pub open spec fn record_id(r: ServiceRecordView) -> std::result::Result<u128, Text> {
    outside::uuid_of_text(r.id)
}

/// What is wrong with the first `n` services that a host lists.
pub open spec fn records_fault(records: Seq<ServiceRecordView>, n: nat) -> Option<ErrorView>
    decreases n,
{
    if n == 0 {
        None
    } else {
        let earlier = records_fault(records, (n - 1) as nat);
        let r = records[n - 1];
        if earlier is Some {
            earlier
        } else if record_id(r) is Err {
            Some(ErrorView::Protocol(record_id(r)->Err_0))
        } else if !service::is_service(r.name, r.protocol) {
            Some(ErrorView::Protocol("invalid service name or protocol"@))
        } else if exists|i: int|
            0 <= i < n - 1 && record_id(#[trigger] records[i]) == record_id(r) {
            Some(ErrorView::Protocol("duplicate service id"@))
        } else {
            None
        }
    }
}

/// What is wrong with what a host lists.
pub open spec fn directory_fault(records: Seq<ServiceRecordView>) -> Option<ErrorView> {
    if records.len() > MAX_SERVICES {
        Some(ErrorView::Capacity)
    } else {
        records_fault(records, records.len())
    }
}

fn among_numbers(list: &Vec<u128>, number: u128) -> (r: bool)
    ensures
        r == list@.contains(number),
{
    let mut i: usize = 0;
    while i < list.len()
        invariant
            i <= list@.len(),
            forall|j: int| 0 <= j < i ==> #[trigger] list@[j] != number,
        decreases list.len() - i,
    {
        if list[i] == number {
            return true;
        }
        i = i + 1;
    }
    false
}

/// Accepts what a host lists. That is what the host says of itself; it is no proof of ownership.
pub fn check_directory(response: DirectoryResponse) -> (r: Result<Vec<ServiceRecord>>)
    ensures
        match directory_fault(response@.services) {
            None => r is Ok && r->Ok_0.deep_view() == response@.services,
            Some(e) => r is Err && r->Err_0@ == e,
        },
{
    let ghost records = response@.services;
    assert(records.len() == response.services@.len());
    if response.services.len() > MAX_SERVICES {
        return Err(Error::Capacity);
    }
    let n: usize = response.services.len();
    let mut ids: Vec<u128> = Vec::new();
    let mut i: usize = 0;
    while i < n
        invariant
            i <= n,
            n == response.services@.len(),
            records == response@.services,
            records.len() == n,
            n <= MAX_SERVICES,
            ids@.len() == i,
            records_fault(records, i as nat) is None,
            forall|j: int|
                0 <= j < i ==> record_id(#[trigger] records[j]) == Ok::<u128, Text>(ids@[j]),
        decreases n - i,
    {
        let record = &response.services[i];
        proof {
            assert(records[i as int] == record@);
            lemma_fault_persists(records, (i + 1) as nat, n as nat);
        }
        let id = match ServiceId::parse(record.id.as_str()) {
            Ok(id) => id,
            Err(e) => {
                return Err(e);
            },
        };
        let candidate = Service {
            id,
            name: record.name.clone(),
            protocol: record.protocol.clone(),
            access: AccessPolicy::Deny,
        };
        match candidate.validate() {
            Ok(_) => {},
            Err(e) => {
                return Err(e);
            },
        }
        if among_numbers(&ids, id.number) {
            proof {
                let j = ids@.index_of(id.number);
                assert(record_id(records[j]) == record_id(records[i as int]));
            }
            return Err(invalid("duplicate service id"));
        }
        assert(forall|j: int|
            0 <= j < i ==> record_id(#[trigger] records[j]) != record_id(records[i as int])) by {
            assert forall|j: int| 0 <= j < i implies record_id(#[trigger] records[j]) != record_id(
                records[i as int],
            ) by {
                assert(ids@.contains(ids@[j]));
            }
        }
        ids.push(id.number);
        i = i + 1;
    }
    Ok(response.services)
}

/// A fault among the first services is a fault of them all.
proof fn lemma_fault_persists(records: Seq<ServiceRecordView>, m: nat, n: nat)
    requires
        m <= n,
    ensures
        records_fault(records, m) is Some ==> records_fault(records, n) == records_fault(
            records,
            m,
        ),
    decreases n,
{
    if m < n {
        lemma_fault_persists(records, m, (n - 1) as nat);
    }
}

/// What a student shows, with what the JSON in the two payloads of the credential says.
pub struct Presented {
    pub presentation: StudentPresentation,
    pub delegation: std::result::Result<StudentDelegation, String>,
    pub claims: std::result::Result<StudentClaims, String>,
}

/// What a [`Presented`] stands for.
pub struct PresentedView {
    pub presentation: StudentPresentationView,
    pub delegation: std::result::Result<StudentDelegationView, Text>,
    pub claims: std::result::Result<StudentClaimsView, Text>,
}

impl View for Presented {
    type V = PresentedView;

    open spec fn view(&self) -> PresentedView {
        PresentedView {
            presentation: self.presentation@,
            delegation: federation::said(self.delegation),
            claims: federation::said(self.claims),
        }
    }
}

/// What becomes of a request for a session.
pub enum Admission {
    NotFound,
    Denied,
    Open { student: Option<StudentClaims> },
}

/// What an [`Admission`] stands for.
pub enum AdmissionView {
    NotFound,
    Denied,
    Open { student: Option<StudentClaimsView> },
}

impl View for Admission {
    type V = AdmissionView;

    open spec fn view(&self) -> AdmissionView {
        match self {
            Admission::NotFound => AdmissionView::NotFound,
            Admission::Denied => AdmissionView::Denied,
            Admission::Open { student } => AdmissionView::Open { student: student.deep_view() },
        }
    }
}

/// Who is let in as a student, and what is known of them then.
pub open spec fn student_admission(
    trust: federation::TrustPolicyView,
    minimum: Circle,
    current_enrollment: bool,
    shown: Option<PresentedView>,
    peer: Seq<u8>,
    now: u64,
) -> Option<StudentClaimsView> {
    match shown {
        None => None,
        Some(p) => {
            let worth = if current_enrollment {
                federation::admitted_student(
                    trust,
                    p.presentation.credential,
                    p.delegation,
                    p.claims,
                    peer,
                    p.presentation.profile,
                    now,
                )
            } else {
                federation::admitted(
                    trust,
                    p.presentation.credential,
                    p.delegation,
                    p.claims,
                    peer,
                    p.presentation.profile,
                    now,
                )
            };
            match worth {
                Ok((near, claims)) => if near.level() >= minimum.level() {
                    Some(claims)
                } else {
                    None
                },
                Err(_) => None,
            }
        },
    }
}

/// What becomes of a request of a peer for a session with a service that is offered under the
/// given policy.
pub open spec fn policy_admission(
    policy: AccessPolicyView,
    number: u128,
    request: OpenRequestView,
    shown: Option<PresentedView>,
    peer: Seq<u8>,
    local: Seq<u8>,
    now: u64,
) -> AdmissionView {
    match policy {
        AccessPolicyView::Students { trust, minimum, current_enrollment } => {
            match student_admission(trust, minimum, current_enrollment, shown, peer, now) {
                Some(claims) => AdmissionView::Open { student: Some(claims) },
                None => AdmissionView::Denied,
            }
        },
        policy => if access::authorized(
            policy,
            peer,
            local,
            ServiceId { number },
            request.grant,
            now,
        ) {
            AdmissionView::Open { student: None }
        } else {
            AdmissionView::Denied
        },
    }
}

/// What becomes of a request of a peer for a session. `shown` is what the request says of a
/// student, if that can be read. The clock matters only where the service is offered.
pub open spec fn admission(
    m: Map<Text, ServiceView>,
    request: OpenRequestView,
    shown: Option<PresentedView>,
    peer: Seq<u8>,
    local: Seq<u8>,
    clock: Outcome<u64>,
) -> Outcome<AdmissionView> {
    match outside::uuid_of_text(request.service_id) {
        Err(e) => Err(ErrorView::Protocol(e)),
        Ok(number) => {
            let key = service::uuid_text(number);
            if !m.contains_key(key) {
                Ok(AdmissionView::NotFound)
            } else {
                match clock {
                    Err(e) => Err(e),
                    Ok(now) => Ok(
                        policy_admission(
                            m[key].access,
                            number,
                            request,
                            shown,
                            peer,
                            local,
                            now,
                        ),
                    ),
                }
            }
        },
    }
}

impl Admission {
    /// What the peer is told. `room` tells whether one more session fits.
    pub fn status(&self, room: bool) -> (r: Status)
        ensures
            r == (match self@ {
                AdmissionView::NotFound => Status::NotFound,
                AdmissionView::Denied => Status::Denied,
                AdmissionView::Open { .. } => if room {
                    Status::Accepted
                } else {
                    Status::Busy
                },
            }),
            r is Accepted <==> self@ is Open && room,
            r is Busy <==> self@ is Open && !room,
            r is Denied <==> self@ is Denied,
            r is NotFound <==> self@ is NotFound,
    {
        match self {
            Admission::NotFound => Status::NotFound,
            Admission::Denied => Status::Denied,
            Admission::Open { .. } => if room {
                Status::Accepted
            } else {
                Status::Busy
            },
        }
    }
}

/// What a session status with the given number means to the peer that asked.
pub open spec fn status_result(number: i32) -> Outcome<()> {
    if number == Status::Accepted.number() {
        Ok(())
    } else if number == Status::Denied.number() {
        Err(ErrorView::Denied)
    } else if number == Status::NotFound.number() {
        Err(ErrorView::NotFound)
    } else if number == Status::Busy.number() {
        Err(ErrorView::Capacity)
    } else {
        Err(ErrorView::Protocol("unknown session status"@))
    }
}

/// What a session status with the given number means to the peer that asked.
pub fn session_result(number: i32) -> (r: Result<()>)
    ensures
        match status_result(number) {
            Ok(_) => r is Ok,
            Err(e) => r is Err && r->Err_0@ == e,
        },
{
    match Status::from_number(number) {
        Some(Status::Accepted) => Ok(()),
        Some(Status::Denied) => Err(Error::Denied),
        Some(Status::NotFound) => Err(Error::NotFound),
        Some(Status::Busy) => Err(Error::Capacity),
        _ => Err(invalid("unknown session status")),
    }
}

/// A request for a session with a service.
pub fn open_request(service: ServiceId, grant: Option<SignedGrant>, student: Vec<u8>) -> (r:
    OpenRequest)
    ensures
        r@ == (OpenRequestView {
            service_id: service::uuid_text(service.number),
            grant: match grant {
                Some(g) => Some(g@),
                None => None,
            },
            student: student@,
        }),
        outside::uuid_of_text(r@.service_id) == Ok::<u128, Text>(service.number),
{
    OpenRequest {
        service_id: service.text(),
        grant: match grant {
            Some(g) => Some(g.envelope),
            None => None,
        },
        student,
    }
}

impl Catalog {
    #[verifier::type_invariant]
    closed spec fn sound(&self) -> bool {
        catalog_sound(self.services@)
    }

    /// A catalog without services.
    pub fn new() -> (r: Self)
        ensures
            r@ == Map::<Text, ServiceView>::empty(),
            catalog_sound(r@),
    {
        Catalog { services: StrMap::new() }
    }

    /// Offers a service, or another version of it.
    pub fn publish(&mut self, service: Service) -> (r: Result<()>)
        ensures
            error::settles(r, old(self)@, final(self)@, published(old(self)@, service@)),
            catalog_sound(final(self)@),
    {
        proof {
            use_type_invariant(&*self);
        }
        match service.validate() {
            Ok(_) => {},
            Err(e) => {
                return Err(e);
            },
        }
        let key: String = service.id.text();
        if !self.services.contains_key(key.as_str()) && self.services.len() >= MAX_SERVICES {
            return Err(Error::Capacity);
        }
        let ghost k = key@;
        let ghost v = service@;
        let mut services = self.services.duplicate();
        services.insert(key, service);
        assert(services@ == self.services@.insert(k, v));
        self.services = services;
        Ok(())
    }

    /// Offers a service no more. Sessions that are open stay open.
    pub fn withdraw(&mut self, id: ServiceId)
        ensures
            final(self)@ == old(self)@.remove(service::uuid_text(id.number)),
            !final(self)@.contains_key(service::uuid_text(id.number)),
            forall|key: Text| #[trigger]
                old(self)@.contains_key(key) && key != service::uuid_text(id.number)
                    ==> final(self)@.contains_key(key) && final(self)@[key] == old(self)@[key],
            catalog_sound(final(self)@),
    {
        proof {
            use_type_invariant(&*self);
        }
        let key: String = id.text();
        let mut services = self.services.duplicate();
        services.remove(key.as_str());
        assert(services@ == self.services@.remove(key@));
        self.services = services;
    }

    /// The services as they are listed. A peer accepts the list.
    pub fn directory(&self) -> (r: DirectoryResponse)
        ensures
            r@ == (DirectoryResponseView { services: directory_of(self@) }),
            directory_fault(r@.services) is None,
            catalog_sound(self@),
    {
        let ghost m = self.services@;
        let ghost keys = self.services.keys();
        let ghost f = |key: Text| service::listed(m[key].id, m[key].name, m[key].protocol);
        let n: usize = self.services.len();
        let mut services: Vec<ServiceRecord> = Vec::new();
        let mut i: usize = 0;
        proof {
            use_type_invariant(self);
            collections::lemma_items_of::<String>(m.dom(), keys);
        }
        while i < n
            invariant
                i <= n,
                n == keys.len(),
                keys == self.services.keys(),
                m == self.services@,
                f == (|key: Text| service::listed(m[key].id, m[key].name, m[key].protocol)),
                services@.len() == i,
                forall|j: int| 0 <= j < i ==> (#[trigger] services@[j])@ == f(keys[j]),
            decreases n - i,
        {
            let record = self.services.value(i).record();
            assert(record@ == f(keys[i as int]));
            services.push(record);
            i = i + 1;
        }
        assert(services.deep_view() =~= directory_of(m));
        proof {
            lemma_directory_accepted(m, n as nat);
        }
        DirectoryResponse { services }
    }

    /// What becomes of a request of a peer for a session. `shown` is what the request says of a
    /// student, if that can be read, and `clock` the time in seconds.
    pub fn consider(
        &self,
        request: &OpenRequest,
        shown: Option<Presented>,
        peer: &PeerId,
        local: &PeerId,
        clock: Result<u64>,
    ) -> (r: Result<Admission>)
        ensures
            match admission(
                self@,
                request@,
                match shown {
                    Some(p) => Some(p@),
                    None => None,
                },
                peer@,
                local@,
                error::outcome(clock),
            ) {
                Ok(a) => r is Ok && r->Ok_0@ == a,
                Err(e) => r is Err && r->Err_0@ == e,
            },
    {
        let id = match ServiceId::parse(request.service_id.as_str()) {
            Ok(id) => id,
            Err(e) => {
                return Err(e);
            },
        };
        let key: String = id.text();
        let offered = match self.services.get(key.as_str()) {
            Some(offered) => offered,
            None => {
                return Ok(Admission::NotFound);
            },
        };
        let now: u64 = match clock {
            Ok(now) => now,
            Err(e) => {
                return Err(e);
            },
        };
        match &offered.access {
            AccessPolicy::Students { trust, minimum, current_enrollment } => {
                let p = match shown {
                    Some(p) => p,
                    None => {
                        return Ok(Admission::Denied);
                    },
                };
                let worth = if *current_enrollment {
                    trust.verify_current_student(
                        &p.presentation.credential,
                        p.delegation,
                        p.claims,
                        peer,
                        p.presentation.profile.as_str(),
                        now,
                    )
                } else {
                    trust.verify(
                        &p.presentation.credential,
                        p.delegation,
                        p.claims,
                        peer,
                        p.presentation.profile.as_str(),
                        now,
                    )
                };
                match worth {
                    Ok((near, claims)) => if near.reaches(*minimum) {
                        Ok(Admission::Open { student: Some(claims) })
                    } else {
                        Ok(Admission::Denied)
                    },
                    Err(_) => Ok(Admission::Denied),
                }
            },
            policy => {
                let grant: Option<SignedGrant> = match &request.grant {
                    Some(envelope) => Some(SignedGrant { envelope: envelope.duplicate() }),
                    None => None,
                };
                match policy.authorize(peer, local, id, grant.as_ref(), now) {
                    Ok(_) => Ok(Admission::Open { student: None }),
                    Err(_) => Ok(Admission::Denied),
                }
            },
        }
    }
}

/// What a sound catalog lists is accepted.
proof fn lemma_directory_accepted(m: Map<Text, ServiceView>, n: nat)
    requires
        catalog_sound(m),
        n <= directory_of(m).len(),
    ensures
        records_fault(directory_of(m), n) is None,
        directory_of(m).len() <= MAX_SERVICES,
    decreases n,
{
    let keys = collections::keys_of::<String, ServiceView>(m);
    let records = directory_of(m);
    collections::lemma_listable::<String>(m.dom());
    assert(collections::lists::<String, ServiceView>(m, keys));
    assert(keys.no_duplicates()) by {
        assert forall|i: int, j: int| 0 <= i < keys.len() && 0 <= j < keys.len() && i
            != j implies keys[i] != keys[j] by {
            if i < j {
                String::irreflexive(keys[i]);
                assert(String::before(keys[i], keys[j]));
            } else {
                String::irreflexive(keys[i]);
                assert(String::before(keys[j], keys[i]));
            }
        }
    }
    assert(keys.len() == m.len()) by {
        assert(m.dom() =~= keys.to_set());
        keys.unique_seq_to_set();
    }
    if n > 0 {
        lemma_directory_accepted(m, (n - 1) as nat);
        let key = keys[n - 1];
        assert(m.dom().contains(key));
        assert(m.contains_key(key));
        assert(records[n - 1].id == key);
        assert forall|i: int| 0 <= i < n - 1 implies record_id(#[trigger] records[i]) != record_id(
            records[n - 1],
        ) by {
            assert(m.dom().contains(keys[i]));
            assert(m.contains_key(keys[i]));
            assert(records[i].id == keys[i]);
            assert(keys[i] != key);
        }
    }
}

/// A peer is let in only to a service that is offered, and only where the policy of that service
/// lets it in: any peer where it is public, a named one, the holder of a grant, or a student whose
/// school is near enough.
pub proof fn law_admission_needs_authority(
    m: Map<Text, ServiceView>,
    request: OpenRequestView,
    shown: Option<PresentedView>,
    peer: Seq<u8>,
    local: Seq<u8>,
    now: u64,
)
    requires
        admission(m, request, shown, peer, local, Ok(now)) matches Ok(a) && a is Open,
    ensures
        ({
            let number = outside::uuid_of_text(request.service_id)->Ok_0;
            let key = service::uuid_text(number);
            let offered = m[key];
            &&& m.contains_key(key)
            &&& offered.access !is Deny
            &&& match offered.access {
                AccessPolicyView::Students { trust, minimum, current_enrollment } => {
                    &&& shown is Some
                    &&& ({
                        let p = shown->0;
                        let worth = federation::admitted(
                            trust,
                            p.presentation.credential,
                            p.delegation,
                            p.claims,
                            peer,
                            p.presentation.profile,
                            now,
                        );
                        &&& worth is Ok
                        &&& (worth->Ok_0).0.level() >= minimum.level()
                        &&& current_enrollment ==> federation::is_current(
                            (worth->Ok_0).1.evidence,
                        )
                    })
                },
                policy => access::authorized(
                    policy,
                    peer,
                    local,
                    ServiceId { number },
                    request.grant,
                    now,
                ),
            }
        }),
{
}

/// A service that was withdrawn is not found any more, whoever asks, and the others are as they
/// were.
pub proof fn law_withdrawn_services_are_gone(
    m: Map<Text, ServiceView>,
    id: ServiceId,
    request: OpenRequestView,
    shown: Option<PresentedView>,
    peer: Seq<u8>,
    local: Seq<u8>,
    clock: Outcome<u64>,
)
    requires
        outside::uuid_of_text(request.service_id) is Ok,
    ensures
        ({
            let asked = service::uuid_text(outside::uuid_of_text(request.service_id)->Ok_0);
            let gone = service::uuid_text(id.number);
            let after = admission(m.remove(gone), request, shown, peer, local, clock);
            if asked == gone {
                after == Outcome::<AdmissionView>::Ok(AdmissionView::NotFound)
            } else {
                after == admission(m, request, shown, peer, local, clock)
            }
        }),
{
}

} // verus!
