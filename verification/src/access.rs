//! Who may open a session with a service.
use vstd::prelude::*;
use vstd::string::*;
use vstd::utf8::*;

use crate::collections::{OrdSet, StrSet};
use crate::error;
use crate::error::{invalid, Error, ErrorView, Result};
use crate::federation::{joined, Circle, TrustPolicy, TrustPolicyView};
use crate::identity;
use crate::identity::{Identity, PeerId};
use crate::model::views::Text;
use crate::order::{same_bytes, same_text, Duplicate};
use crate::outside;
use crate::protocol;
use crate::protocol::{
    GrantClaims, GrantClaimsView, GrantEnvelope, GrantEnvelopeView, MAX_FRAME,
};
use crate::service;
use crate::service::ServiceId;
use crate::wire;
use crate::wire::Message;

verus! {

/// Who may open a session.
#[derive(Debug, PartialEq, Eq)]
pub enum AccessPolicy {
    Deny,
    Public,
    Peers(OrdSet<PeerId>),
    Grants { issuers: OrdSet<PeerId>, revoked: StrSet },
    Students { trust: Box<TrustPolicy>, minimum: Circle, current_enrollment: bool },
}

/// What an [`AccessPolicy`] stands for.
pub enum AccessPolicyView {
    Deny,
    Public,
    Peers(Set<Seq<u8>>),
    Grants { issuers: Set<Seq<u8>>, revoked: Set<Text> },
    Students { trust: TrustPolicyView, minimum: Circle, current_enrollment: bool },
}

impl DeepView for AccessPolicy {
    type V = AccessPolicyView;

    open spec fn deep_view(&self) -> AccessPolicyView {
        match self {
            AccessPolicy::Deny => AccessPolicyView::Deny,
            AccessPolicy::Public => AccessPolicyView::Public,
            AccessPolicy::Peers(peers) => AccessPolicyView::Peers(peers@),
            AccessPolicy::Grants { issuers, revoked } => AccessPolicyView::Grants {
                issuers: issuers@,
                revoked: revoked@,
            },
            AccessPolicy::Students { trust, minimum, current_enrollment } => {
                AccessPolicyView::Students {
                    trust: trust@,
                    minimum: *minimum,
                    current_enrollment: *current_enrollment,
                }
            },
        }
    }
}

impl View for AccessPolicy {
    type V = AccessPolicyView;

    open spec fn view(&self) -> AccessPolicyView {
        self.deep_view()
    }
}

impl Default for AccessPolicy {
    fn default() -> (r: Self)
        ensures
            r@ == AccessPolicyView::Deny,
    {
        AccessPolicy::Deny
    }
}

impl Duplicate for AccessPolicy {
    fn duplicate(&self) -> (r: Self) {
        match self {
            AccessPolicy::Deny => AccessPolicy::Deny,
            AccessPolicy::Public => AccessPolicy::Public,
            AccessPolicy::Peers(peers) => AccessPolicy::Peers(peers.duplicate()),
            AccessPolicy::Grants { issuers, revoked } => AccessPolicy::Grants {
                issuers: issuers.duplicate(),
                revoked: revoked.duplicate(),
            },
            AccessPolicy::Students { trust, minimum, current_enrollment } => {
                AccessPolicy::Students {
                    trust: Box::new(trust.duplicate()),
                    minimum: *minimum,
                    current_enrollment: *current_enrollment,
                }
            },
        }
    }
}

impl Clone for AccessPolicy {
    fn clone(&self) -> (r: Self)
        ensures
            r@ == self@,
    {
        self.duplicate()
    }
}

/// What is granted: to whom, by whom it is honoured, for which service, and when.
#[derive(Debug)]
pub struct Grant {
    pub subject: PeerId,
    pub audience: PeerId,
    pub service: ServiceId,
    pub not_before: u64,
    pub expires_at: u64,
}

/// A grant that is bound to its holder. It is no bearer token, and no login to a game.
#[derive(Debug, PartialEq, Eq)]
pub struct SignedGrant {
    pub envelope: GrantEnvelope,
}

impl View for SignedGrant {
    type V = GrantEnvelopeView;

    open spec fn view(&self) -> GrantEnvelopeView {
        self.envelope@
    }
}

impl Clone for SignedGrant {
    fn clone(&self) -> (r: Self)
        ensures
            r@ == self@,
    {
        SignedGrant { envelope: self.envelope.duplicate() }
    }
}

/// The purpose of grants: the text `jlucraft/union/grant/1` and a zero byte.
pub open spec fn grant_domain() -> Seq<u8> {
    seq![106u8, 108, 117, 99, 114, 97, 102, 116, 47, 117, 110, 105, 111, 110, 47, 103, 114, 97, 110, 116, 47, 49, 0]
}

fn grant_bytes() -> (r: [u8; 23])
    ensures
        r@ == grant_domain(),
{
    let r: [u8; 23] = [106, 108, 117, 99, 114, 97, 102, 116, 47, 117, 110, 105, 111, 110, 47, 103, 114, 97, 110, 116, 47, 49, 0];
    assert(r@ =~= grant_domain());
    r
}

/// What a grant with the given name says.
pub open spec fn claims_of(
    id: u128,
    subject: Seq<u8>,
    audience: Seq<u8>,
    service: ServiceId,
    not_before: u64,
    expires_at: u64,
) -> GrantClaimsView {
    GrantClaimsView {
        id: service::uuid_text(id),
        subject,
        audience,
        service_id: service::uuid_text(service.number),
        not_before,
        expires_at,
    }
}

/// The claims, signed by the issuer.
pub open spec fn sealed(issuer: Seq<u8>, claims: GrantClaimsView) -> GrantEnvelopeView {
    let bytes = GrantClaims::wire(claims);
    GrantEnvelopeView {
        claims: bytes,
        issuer_key: outside::public_key(issuer),
        signature: outside::signature(issuer, grant_domain() + bytes),
    }
}

/// What issuing a grant leads to: its signature is valid, and its name is read as a name.
pub open spec fn vouched(issuer: Seq<u8>, id: u128, claims: GrantClaimsView) -> bool {
    &&& outside::peer_of_key(outside::public_key(issuer)) is Some
    &&& outside::is_signature(
        outside::public_key(issuer),
        grant_domain() + GrantClaims::wire(claims),
        sealed(issuer, claims).signature,
    )
    &&& outside::uuid_of_text(service::uuid_text(id)) is Ok
}

impl SignedGrant {
    /// Issues a grant under a new, random name.
    pub fn issue(issuer: &Identity, grant: Grant) -> (r: Result<Self>)
        ensures
            grant.expires_at <= grant.not_before ==> r is Err && r->Err_0@ == ErrorView::Protocol(
                "grant expiry must follow not_before"@,
            ),
            grant.expires_at > grant.not_before ==> r is Ok && exists|id: u128|
                {
                    let claims = #[trigger] claims_of(
                        id,
                        grant.subject@,
                        grant.audience@,
                        grant.service,
                        grant.not_before,
                        grant.expires_at,
                    );
                    &&& service::marked_random(id)
                    &&& r->Ok_0@ == sealed(issuer@, claims)
                    &&& vouched(issuer@, id, claims)
                },
    {
        Self::issue_named(issuer, outside::random_uuid(), grant)
    }

    /// Issues a grant under the given name.
    pub fn issue_named(issuer: &Identity, id: u128, grant: Grant) -> (r: Result<Self>)
        ensures
            grant.expires_at <= grant.not_before ==> r is Err && r->Err_0@ == ErrorView::Protocol(
                "grant expiry must follow not_before"@,
            ),
            grant.expires_at > grant.not_before ==> r is Ok && {
                let claims = claims_of(
                    id,
                    grant.subject@,
                    grant.audience@,
                    grant.service,
                    grant.not_before,
                    grant.expires_at,
                );
                r->Ok_0@ == sealed(issuer@, claims) && vouched(issuer@, id, claims)
            },
    {
        if grant.expires_at <= grant.not_before {
            return Err(invalid("grant expiry must follow not_before"));
        }
        let claims = GrantClaims {
            id: outside::format_uuid(id),
            subject: grant.subject.to_bytes(),
            audience: grant.audience.to_bytes(),
            service_id: grant.service.text(),
            not_before: grant.not_before,
            expires_at: grant.expires_at,
        };
        let bytes: Vec<u8> = wire::encode(&claims);
        let domain = grant_bytes();
        let message: Vec<u8> = joined(domain.as_slice(), bytes.as_slice());
        let signature = match issuer.sign(message.as_slice()) {
            Ok(signature) => signature,
            Err(e) => {
                return Err(Error::Identity(e));
            },
        };
        Ok(
            SignedGrant {
                envelope: GrantEnvelope {
                    claims: bytes,
                    issuer_key: issuer.public_key(),
                    signature,
                },
            },
        )
    }

    /// The encoding of the grant.
    pub fn encode(&self) -> (r: Vec<u8>)
        ensures
            r@ == GrantEnvelope::wire(self@),
    {
        wire::encode(&self.envelope)
    }

    /// The grant that a byte string encodes.
    pub fn decode(bytes: &[u8]) -> (r: Result<Self>)
        ensures
            bytes@.len() > MAX_FRAME ==> r is Err && r->Err_0@ == ErrorView::Protocol(
                "grant too large"@,
            ),
            bytes@.len() <= MAX_FRAME ==> match wire::decoded::<GrantEnvelope>(bytes@) {
                Ok(envelope) => r is Ok && r->Ok_0@ == envelope,
                Err(fault) => r is Err && r->Err_0@ == wire::undecodable(fault),
            },
    {
        if bytes.len() > MAX_FRAME {
            return Err(invalid("grant too large"));
        }
        match wire::decode::<GrantEnvelope>(bytes) {
            Ok(envelope) => Ok(SignedGrant { envelope }),
            Err(e) => Err(e),
        }
    }

    /// The name of the grant, to look at only: whether it holds, a policy decides.
    pub fn id(&self) -> (r: Result<String>)
        ensures
            match wire::decoded::<GrantClaims>(self@.claims) {
                Ok(claims) => r is Ok && r->Ok_0@ == claims.id,
                Err(fault) => r is Err && r->Err_0@ == wire::undecodable(fault),
            },
    {
        match wire::decode::<GrantClaims>(self.envelope.claims.as_slice()) {
            Ok(claims) => Ok(claims.id),
            Err(e) => Err(e),
        }
    }
}

/// The claims give the peer access to this service of this node now.
pub open spec fn claims_hold(
    c: GrantClaimsView,
    revoked: Set<Text>,
    peer: Seq<u8>,
    audience: Seq<u8>,
    service: ServiceId,
    now: u64,
) -> bool {
    &&& c.subject == peer
    &&& c.audience == audience
    &&& c.service_id == service::uuid_text(service.number)
    &&& c.not_before <= now < c.expires_at
    &&& c.not_before < c.expires_at
    &&& !revoked.contains(c.id)
    &&& outside::uuid_of_text(c.id) is Ok
}

/// The grant was signed by one of the issuers, and its claims hold.
pub open spec fn grant_holds(
    envelope: GrantEnvelopeView,
    issuers: Set<Seq<u8>>,
    revoked: Set<Text>,
    peer: Seq<u8>,
    audience: Seq<u8>,
    service: ServiceId,
    now: u64,
) -> bool {
    &&& outside::peer_of_key(envelope.issuer_key) matches Some(issuer)
    &&& issuers.contains(issuer)
    &&& outside::is_signature(
        envelope.issuer_key,
        grant_domain() + envelope.claims,
        envelope.signature,
    )
    &&& wire::decoded::<GrantClaims>(envelope.claims) matches Ok(c)
    &&& claims_hold(c, revoked, peer, audience, service, now)
}

/// The policy lets the peer in.
pub open spec fn authorized(
    policy: AccessPolicyView,
    peer: Seq<u8>,
    audience: Seq<u8>,
    service: ServiceId,
    grant: Option<GrantEnvelopeView>,
    now: u64,
) -> bool {
    match policy {
        AccessPolicyView::Public => true,
        AccessPolicyView::Peers(peers) => peers.contains(peer),
        AccessPolicyView::Grants { issuers, revoked } => match grant {
            Some(envelope) => grant_holds(
                envelope,
                issuers,
                revoked,
                peer,
                audience,
                service,
                now,
            ),
            None => false,
        },
        _ => false,
    }
}

fn check_claims(
    c: &GrantClaims,
    revoked: &StrSet,
    peer: &PeerId,
    audience: &PeerId,
    service: ServiceId,
    now: u64,
) -> (r: bool)
    ensures
        r == claims_hold(c@, revoked@, peer@, audience@, service, now),
{
    same_bytes(c.subject.as_slice(), peer.to_bytes().as_slice()) && same_bytes(
        c.audience.as_slice(),
        audience.to_bytes().as_slice(),
    ) && same_text(c.service_id.as_str(), service.text().as_str()) && c.not_before <= now
        && c.expires_at > now && c.expires_at > c.not_before && !revoked.contains(c.id.as_str())
        && outside::parse_uuid(c.id.as_str()).is_ok()
}

fn check_grant(
    envelope: &GrantEnvelope,
    issuers: &OrdSet<PeerId>,
    revoked: &StrSet,
    peer: &PeerId,
    audience: &PeerId,
    service: ServiceId,
    now: u64,
) -> (r: bool)
    ensures
        r == grant_holds(envelope@, issuers@, revoked@, peer@, audience@, service, now),
{
    let issuer = match PeerId::of_key(envelope.issuer_key.as_slice()) {
        Some(issuer) => issuer,
        None => {
            return false;
        },
    };
    if !issuers.contains(&issuer) {
        return false;
    }
    let domain = grant_bytes();
    let message: Vec<u8> = joined(domain.as_slice(), envelope.claims.as_slice());
    if !outside::verify(
        envelope.issuer_key.as_slice(),
        message.as_slice(),
        envelope.signature.as_slice(),
    ) {
        return false;
    }
    match wire::decode::<GrantClaims>(envelope.claims.as_slice()) {
        Ok(claims) => check_claims(&claims, revoked, peer, audience, service, now),
        Err(_) => false,
    }
}

impl AccessPolicy {
    /// Lets the peer in, or denies access.
    pub fn authorize(
        &self,
        peer: &PeerId,
        audience: &PeerId,
        service: ServiceId,
        grant: Option<&SignedGrant>,
        now: u64,
    ) -> (r: Result<()>)
        ensures
            authorized(
                self@,
                peer@,
                audience@,
                service,
                match grant {
                    Some(g) => Some(g@),
                    None => None,
                },
                now,
            ) ==> r is Ok,
            !authorized(
                self@,
                peer@,
                audience@,
                service,
                match grant {
                    Some(g) => Some(g@),
                    None => None,
                },
                now,
            ) ==> r is Err && r->Err_0@ == ErrorView::Denied,
    {
        let allowed: bool = match self {
            AccessPolicy::Public => true,
            AccessPolicy::Peers(peers) => peers.contains(peer),
            AccessPolicy::Grants { issuers, revoked } => match grant {
                Some(grant) => check_grant(
                    &grant.envelope,
                    issuers,
                    revoked,
                    peer,
                    audience,
                    service,
                    now,
                ),
                None => false,
            },
            _ => false,
        };
        if allowed {
            Ok(())
        } else {
            Err(Error::Denied)
        }
    }
}

/// A grant lets in the holder that it was issued to, at the node and for the service that it
/// names, from when it says until it expires, unless it was revoked; and nobody else, nowhere
/// else and at no other time.
pub proof fn law_grants_are_bound(
    issuer: Seq<u8>,
    id: u128,
    subject: Seq<u8>,
    audience: Seq<u8>,
    service: ServiceId,
    not_before: u64,
    expires_at: u64,
    issuers: Set<Seq<u8>>,
    revoked: Set<Text>,
    peer: Seq<u8>,
    here: Seq<u8>,
    wanted: ServiceId,
    now: u64,
)
    requires
        not_before < expires_at,
        subject.len() <= u64::MAX,
        audience.len() <= u64::MAX,
        vouched(
            issuer,
            id,
            claims_of(id, subject, audience, service, not_before, expires_at),
        ),
    ensures
        authorized(
            AccessPolicyView::Grants { issuers, revoked },
            peer,
            here,
            wanted,
            Some(
                sealed(
                    issuer,
                    claims_of(id, subject, audience, service, not_before, expires_at),
                ),
            ),
            now,
        ) <==> {
            &&& issuers.contains(identity::peer_of_secret(issuer))
            &&& peer == subject
            &&& here == audience
            &&& wanted == service
            &&& not_before <= now < expires_at
            &&& !revoked.contains(service::uuid_text(id))
        },
{
    let c = claims_of(id, subject, audience, service, not_before, expires_at);
    lemma_uuid_text_fits(id);
    lemma_uuid_text_fits(service.number);
    protocol::law_grant_claims_round_trip(c);
    if service::uuid_text(wanted.number) == service::uuid_text(service.number) {
        service::law_identities_have_their_own_texts(wanted.number, service.number);
    }
}

/// The text form of a name is short.
proof fn lemma_uuid_text_fits(id: u128)
    ensures
        encode_utf8(service::uuid_text(id)).len() <= u64::MAX,
{
    let text = service::uuid_text(id);
    assert forall|i: int| 0 <= i < text.len() implies 0 <= (#[trigger] text[i]) as u32 <= 127 by {
        lemma_digit_ascii(id, i);
    }
    assert(is_ascii_chars(text));
    is_ascii_chars_encode_utf8(text);
}

proof fn lemma_digit_ascii(id: u128, i: int)
    requires
        0 <= i < 36,
    ensures
        service::uuid_text(id)[i] as u32 <= 127,
{
    assert forall|n: u8| #![auto] n < 16 implies (crate::model::rules::hex_digit(n)) as u32 <= 127 by {
    }
    assert forall|k: int| #[trigger] service::uuid_digit(id, k) as u32 <= 127 by {
        let shifted = id >> ((124 - 4 * k) as u128);
        assert(shifted & 0xf < 16) by (bit_vector);
    }
}

/// A grant that was encoded is decoded as it was.
pub proof fn law_grants_are_read_back(envelope: GrantEnvelopeView)
    requires
        GrantEnvelope::wire(envelope).len() <= MAX_FRAME,
        envelope.claims.len() <= u64::MAX,
        envelope.issuer_key.len() <= u64::MAX,
        envelope.signature.len() <= u64::MAX,
    ensures
        wire::decoded::<GrantEnvelope>(GrantEnvelope::wire(envelope)) == Ok::<
            GrantEnvelopeView,
            wire::FaultView,
        >(envelope),
{
    crate::protocol::law_grant_envelope_round_trip(envelope);
}

} // verus!
