//! Institutional identity is delegated, apart from who owns which machine. Trust circles are
//! worked out by each service that relies on them, never taken from clients.
use vstd::prelude::*;
use vstd::string::*;

use crate::collections::{StrMap, StrSet};
use crate::error;
use crate::error::{Error, ErrorView, Outcome, Result};
use crate::identity;
use crate::identity::{Identity, PeerId};
use crate::model::views::Text;
use crate::order::{copy_bytes, same_text, Duplicate};
use crate::outside;

verus! {

/// How close a school is to the one that relies on its word, the farthest first.
#[derive(Clone, Copy, Debug, PartialEq, Eq, Structural)]
pub enum Circle {
    Unknown,
    Mua,
    Province,
    Local,
}

impl Circle {
    /// The place of the circle, from the outside in.
    pub open spec fn level(self) -> int {
        match self {
            Circle::Unknown => 0,
            Circle::Mua => 1,
            Circle::Province => 2,
            Circle::Local => 3,
        }
    }

    fn rank(self) -> (r: u8)
        ensures
            r == self.level(),
    {
        match self {
            Circle::Unknown => 0,
            Circle::Mua => 1,
            Circle::Province => 2,
            Circle::Local => 3,
        }
    }

    /// Whether the circle is at least as close as the other one.
    pub fn reaches(self, minimum: Circle) -> (r: bool)
        ensures
            r == (self.level() >= minimum.level()),
    {
        self.rank() >= minimum.rank()
    }
}

/// What an affiliation was shown by.
#[derive(Clone, Copy, Debug, PartialEq, Eq, Structural)]
pub enum Evidence {
    InstitutionalEmail,
    MuaStudentVerification,
    MuaAccountOnly,
    CurrentEnrollment,
    Alumni,
}

impl DeepView for Circle {
    type V = Circle;

    open spec fn deep_view(&self) -> Circle {
        *self
    }
}

impl Duplicate for Circle {
    fn duplicate(&self) -> (r: Self) {
        *self
    }
}

impl DeepView for Evidence {
    type V = Evidence;

    open spec fn deep_view(&self) -> Evidence {
        *self
    }
}

impl Duplicate for Evidence {
    fn duplicate(&self) -> (r: Self) {
        *self
    }
}

/// What a school lets an issuer do: speak of students, and nothing else.
#[derive(Debug, PartialEq, Eq)]
pub struct StudentDelegation {
    pub id: String,
    pub school: String,
    pub issuer: String,
    pub not_before: u64,
    pub expires_at: u64,
    pub max_credential_seconds: u64,
    pub evidence: Vec<Evidence>,
}

/// What a [`StudentDelegation`] stands for.
#[verifier::ext_equal]
pub struct StudentDelegationView {
    pub id: Text,
    pub school: Text,
    pub issuer: Text,
    pub not_before: u64,
    pub expires_at: u64,
    pub max_credential_seconds: u64,
    pub evidence: Seq<Evidence>,
}

impl DeepView for StudentDelegation {
    type V = StudentDelegationView;

    open spec fn deep_view(&self) -> StudentDelegationView {
        StudentDelegationView {
            id: self.id@,
            school: self.school@,
            issuer: self.issuer@,
            not_before: self.not_before,
            expires_at: self.expires_at,
            max_credential_seconds: self.max_credential_seconds,
            evidence: self.evidence@,
        }
    }
}

impl View for StudentDelegation {
    type V = StudentDelegationView;

    open spec fn view(&self) -> StudentDelegationView {
        self.deep_view()
    }
}

impl Duplicate for StudentDelegation {
    fn duplicate(&self) -> (r: Self) {
        StudentDelegation {
            id: self.id.clone(),
            school: self.school.clone(),
            issuer: self.issuer.clone(),
            not_before: self.not_before,
            expires_at: self.expires_at,
            max_credential_seconds: self.max_credential_seconds,
            evidence: copy_evidence(&self.evidence),
        }
    }
}

impl Clone for StudentDelegation {
    fn clone(&self) -> (r: Self)
        ensures
            r@ == self@,
    {
        self.duplicate()
    }
}

/// A copy of a list of kinds of evidence.
fn copy_evidence(list: &Vec<Evidence>) -> (r: Vec<Evidence>)
    ensures
        r@ == list@,
{
    let mut r: Vec<Evidence> = Vec::new();
    let mut i: usize = 0;
    while i < list.len()
        invariant
            i <= list.len(),
            r@ == list@.take(i as int),
        decreases list.len() - i,
    {
        r.push(list[i]);
        assert(r@ =~= list@.take(i + 1));
        i = i + 1;
    }
    assert(r@ =~= list@);
    r
}

/// What an issuer says of a student.
#[derive(Debug, PartialEq, Eq)]
pub struct StudentClaims {
    pub id: String,
    pub school: String,
    pub subject: String,
    pub game_profile: String,
    pub holder: String,
    pub evidence: Evidence,
    pub verified_at: u64,
    pub issued_at: u64,
    pub expires_at: u64,
}

/// What a [`StudentClaims`] stands for.
#[verifier::ext_equal]
pub struct StudentClaimsView {
    pub id: Text,
    pub school: Text,
    pub subject: Text,
    pub game_profile: Text,
    pub holder: Text,
    pub evidence: Evidence,
    pub verified_at: u64,
    pub issued_at: u64,
    pub expires_at: u64,
}

impl DeepView for StudentClaims {
    type V = StudentClaimsView;

    open spec fn deep_view(&self) -> StudentClaimsView {
        StudentClaimsView {
            id: self.id@,
            school: self.school@,
            subject: self.subject@,
            game_profile: self.game_profile@,
            holder: self.holder@,
            evidence: self.evidence,
            verified_at: self.verified_at,
            issued_at: self.issued_at,
            expires_at: self.expires_at,
        }
    }
}

impl View for StudentClaims {
    type V = StudentClaimsView;

    open spec fn view(&self) -> StudentClaimsView {
        self.deep_view()
    }
}

impl Duplicate for StudentClaims {
    fn duplicate(&self) -> (r: Self) {
        StudentClaims {
            id: self.id.clone(),
            school: self.school.clone(),
            subject: self.subject.clone(),
            game_profile: self.game_profile.clone(),
            holder: self.holder.clone(),
            evidence: self.evidence,
            verified_at: self.verified_at,
            issued_at: self.issued_at,
            expires_at: self.expires_at,
        }
    }
}

impl Clone for StudentClaims {
    fn clone(&self) -> (r: Self)
        ensures
            r@ == self@,
    {
        self.duplicate()
    }
}


/// A payload with the key that signed it.
#[derive(Debug, PartialEq, Eq)]
pub struct SignedDocument {
    pub payload: Vec<u8>,
    pub key: Vec<u8>,
    pub signature: Vec<u8>,
}

/// What a [`SignedDocument`] stands for.
#[verifier::ext_equal]
pub struct SignedDocumentView {
    pub payload: Seq<u8>,
    pub key: Seq<u8>,
    pub signature: Seq<u8>,
}

impl DeepView for SignedDocument {
    type V = SignedDocumentView;

    open spec fn deep_view(&self) -> SignedDocumentView {
        SignedDocumentView {
            payload: self.payload@,
            key: self.key@,
            signature: self.signature@,
        }
    }
}

impl View for SignedDocument {
    type V = SignedDocumentView;

    open spec fn view(&self) -> SignedDocumentView {
        self.deep_view()
    }
}

impl Duplicate for SignedDocument {
    fn duplicate(&self) -> (r: Self) {
        SignedDocument {
            payload: copy_bytes(&self.payload),
            key: copy_bytes(&self.key),
            signature: copy_bytes(&self.signature),
        }
    }
}

impl Clone for SignedDocument {
    fn clone(&self) -> (r: Self)
        ensures
            r@ == self@,
    {
        self.duplicate()
    }
}


/// What a student shows: what the school delegated, and what the issuer says.
#[derive(Debug, PartialEq, Eq)]
pub struct StudentCredential {
    pub delegation: SignedDocument,
    pub student: SignedDocument,
}

/// What a [`StudentCredential`] stands for.
#[verifier::ext_equal]
pub struct StudentCredentialView {
    pub delegation: SignedDocumentView,
    pub student: SignedDocumentView,
}

impl DeepView for StudentCredential {
    type V = StudentCredentialView;

    open spec fn deep_view(&self) -> StudentCredentialView {
        StudentCredentialView {
            delegation: self.delegation.deep_view(),
            student: self.student.deep_view(),
        }
    }
}

impl View for StudentCredential {
    type V = StudentCredentialView;

    open spec fn view(&self) -> StudentCredentialView {
        self.deep_view()
    }
}

impl Duplicate for StudentCredential {
    fn duplicate(&self) -> (r: Self) {
        StudentCredential {
            delegation: self.delegation.duplicate(),
            student: self.student.duplicate(),
        }
    }
}

impl Clone for StudentCredential {
    fn clone(&self) -> (r: Self)
        ensures
            r@ == self@,
    {
        self.duplicate()
    }
}


/// A credential with the profile that the student plays under. Whoever lets the student play
/// compares that profile with the one that is logged in.
#[derive(Debug, PartialEq, Eq)]
pub struct StudentPresentation {
    pub credential: StudentCredential,
    pub profile: String,
}

/// What a [`StudentPresentation`] stands for.
#[verifier::ext_equal]
pub struct StudentPresentationView {
    pub credential: StudentCredentialView,
    pub profile: Text,
}

impl DeepView for StudentPresentation {
    type V = StudentPresentationView;

    open spec fn deep_view(&self) -> StudentPresentationView {
        StudentPresentationView {
            credential: self.credential.deep_view(),
            profile: self.profile@,
        }
    }
}

impl View for StudentPresentation {
    type V = StudentPresentationView;

    open spec fn view(&self) -> StudentPresentationView {
        self.deep_view()
    }
}

impl Duplicate for StudentPresentation {
    fn duplicate(&self) -> (r: Self) {
        StudentPresentation {
            credential: self.credential.duplicate(),
            profile: self.profile.clone(),
        }
    }
}

impl Clone for StudentPresentation {
    fn clone(&self) -> (r: Self)
        ensures
            r@ == self@,
    {
        self.duplicate()
    }
}


/// Whom a service trusts. The roots of a school are named one by one; that a school is in a
/// circle gives no trust.
#[derive(Debug, PartialEq, Eq)]
pub struct TrustPolicy {
    pub local_school: String,
    pub province_schools: StrSet,
    pub mua_schools: StrSet,
    pub school_roots: StrMap<StrSet>,
    pub revoked: StrSet,
    pub max_verification_age_seconds: u64,
}

/// What a [`TrustPolicy`] stands for.
#[verifier::ext_equal]
pub struct TrustPolicyView {
    pub local_school: Text,
    pub province_schools: Set<Text>,
    pub mua_schools: Set<Text>,
    pub school_roots: Map<Text, Set<Text>>,
    pub revoked: Set<Text>,
    pub max_verification_age_seconds: u64,
}

impl DeepView for TrustPolicy {
    type V = TrustPolicyView;

    open spec fn deep_view(&self) -> TrustPolicyView {
        TrustPolicyView {
            local_school: self.local_school@,
            province_schools: self.province_schools@,
            mua_schools: self.mua_schools@,
            school_roots: self.school_roots@,
            revoked: self.revoked@,
            max_verification_age_seconds: self.max_verification_age_seconds,
        }
    }
}

impl View for TrustPolicy {
    type V = TrustPolicyView;

    open spec fn view(&self) -> TrustPolicyView {
        self.deep_view()
    }
}

impl Duplicate for TrustPolicy {
    fn duplicate(&self) -> (r: Self) {
        TrustPolicy {
            local_school: self.local_school.clone(),
            province_schools: self.province_schools.duplicate(),
            mua_schools: self.mua_schools.duplicate(),
            school_roots: self.school_roots.duplicate(),
            revoked: self.revoked.duplicate(),
            max_verification_age_seconds: self.max_verification_age_seconds,
        }
    }
}

impl Clone for TrustPolicy {
    fn clone(&self) -> (r: Self)
        ensures
            r@ == self@,
    {
        self.duplicate()
    }
}


/// The bytes that a signature is made for: what it is for, then what is said.
pub open spec fn signed_bytes(domain: Seq<u8>, payload: Seq<u8>) -> Seq<u8> {
    domain + payload
}

/// A document that the identity signs for the given purpose.
pub open spec fn signed(secret: Seq<u8>, domain: Seq<u8>, payload: Seq<u8>) -> SignedDocumentView {
    SignedDocumentView {
        payload,
        key: outside::public_key(secret),
        signature: outside::signature(secret, signed_bytes(domain, payload)),
    }
}

/// The peer that signed the document for the given purpose.
pub open spec fn signer(d: SignedDocumentView, domain: Seq<u8>) -> Outcome<Seq<u8>> {
    if d.payload.len() > 16384 {
        Err(ErrorView::Capacity)
    } else if outside::peer_of_key(d.key) is None || !outside::is_signature(
        d.key,
        signed_bytes(domain, d.payload),
        d.signature,
    ) {
        Err(ErrorView::Denied)
    } else {
        Ok(outside::peer_of_key(d.key)->0)
    }
}

/// Two byte strings in a row.
pub(crate) fn joined(a: &[u8], b: &[u8]) -> (r: Vec<u8>)
    ensures
        r@ == a@ + b@,
{
    let mut r: Vec<u8> = Vec::new();
    r.extend_from_slice(a);
    r.extend_from_slice(b);
    assert(r@ =~= a@ + b@);
    r
}

impl SignedDocument {
    /// Signs a payload for the given purpose.
    pub fn sign(identity: &Identity, domain: &[u8], payload: Vec<u8>) -> (r: Result<Self>)
        ensures
            r is Ok,
            r->Ok_0@ == signed(identity@, domain@, payload@),
            payload@.len() <= 16384 ==> signer(r->Ok_0@, domain@) == Outcome::<Seq<u8>>::Ok(
                identity::peer_of_secret(identity@),
            ),
    {
        let message: Vec<u8> = joined(domain, payload.as_slice());
        let signature = match identity.sign(message.as_slice()) {
            Ok(signature) => signature,
            Err(e) => {
                return Err(Error::Protocol(e));
            },
        };
        Ok(SignedDocument { payload, key: identity.public_key(), signature })
    }

    /// The peer that signed the document for the given purpose.
    pub fn verify(&self, domain: &[u8]) -> (r: Result<PeerId>)
        ensures
            match signer(self@, domain@) {
                Ok(peer) => r is Ok && r->Ok_0@ == peer,
                Err(e) => r is Err && r->Err_0@ == e,
            },
    {
        if self.payload.len() > 16384 {
            return Err(Error::Capacity);
        }
        let peer = match PeerId::of_key(self.key.as_slice()) {
            Some(peer) => peer,
            None => {
                return Err(Error::Denied);
            },
        };
        let message: Vec<u8> = joined(domain, self.payload.as_slice());
        if !outside::verify(self.key.as_slice(), message.as_slice(), self.signature.as_slice()) {
            return Err(Error::Denied);
        }
        Ok(peer)
    }
}

/// The purpose of a delegation: the text `jlucraft/student-delegation/1` and a zero byte.
pub open spec fn delegation_domain() -> Seq<u8> {
    seq![106u8, 108, 117, 99, 114, 97, 102, 116, 47, 115, 116, 117, 100, 101, 110, 116, 45, 100, 101, 108, 101, 103, 97, 116, 105, 111, 110, 47, 49, 0]
}

/// The purpose of a credential: the text `jlucraft/student-credential/1` and a zero byte.
pub open spec fn student_domain() -> Seq<u8> {
    seq![106u8, 108, 117, 99, 114, 97, 102, 116, 47, 115, 116, 117, 100, 101, 110, 116, 45, 99, 114, 101, 100, 101, 110, 116, 105, 97, 108, 47, 49, 0]
}

fn delegation_bytes() -> (r: [u8; 30])
    ensures
        r@ == delegation_domain(),
{
    let r: [u8; 30] = [106, 108, 117, 99, 114, 97, 102, 116, 47, 115, 116, 117, 100, 101, 110, 116, 45, 100, 101, 108, 101, 103, 97, 116, 105, 111, 110, 47, 49, 0];
    assert(r@ =~= delegation_domain());
    r
}

fn student_bytes() -> (r: [u8; 30])
    ensures
        r@ == student_domain(),
{
    let r: [u8; 30] = [106, 108, 117, 99, 114, 97, 102, 116, 47, 115, 116, 117, 100, 101, 110, 116, 45, 99, 114, 101, 100, 101, 110, 116, 105, 97, 108, 47, 49, 0];
    assert(r@ =~= student_domain());
    r
}

/// Signs a delegation, which is given as JSON, with the key of a school.
pub fn delegate(root: &Identity, claims: Vec<u8>) -> (r: Result<SignedDocument>)
    ensures
        r is Ok,
        r->Ok_0@ == signed(root@, delegation_domain(), claims@),
{
    let domain = delegation_bytes();
    SignedDocument::sign(root, domain.as_slice(), claims)
}

/// Signs the claims on a student, which are given as JSON, with the key of an issuer.
pub fn issue(issuer: &Identity, delegation: SignedDocument, claims: Vec<u8>) -> (r: Result<
    StudentCredential,
>)
    ensures
        r is Ok,
        r->Ok_0@ == (StudentCredentialView {
            delegation: delegation@,
            student: signed(issuer@, student_domain(), claims@),
        }),
{
    let domain = student_bytes();
    match SignedDocument::sign(issuer, domain.as_slice(), claims) {
        Ok(student) => Ok(StudentCredential { delegation, student }),
        Err(e) => Err(e),
    }
}

/// Whether one of the kinds of evidence is the given one.
fn has_evidence(list: &Vec<Evidence>, evidence: Evidence) -> (r: bool)
    ensures
        r == list@.contains(evidence),
{
    let mut i: usize = 0;
    while i < list.len()
        invariant
            i <= list.len(),
            forall|j: int| 0 <= j < i ==> list@[j] != evidence,
        decreases list.len() - i,
    {
        if list[i] == evidence {
            assert(list@[i as int] == evidence);
            return true;
        }
        i = i + 1;
    }
    false
}

/// The names that must agree: the school has the root, which delegated to the issuer, who
/// speaks of this holder and this profile; and nobody of them was revoked.
pub open spec fn names_agree(
    policy: TrustPolicyView,
    root: Seq<u8>,
    d: StudentDelegationView,
    issuer: Seq<u8>,
    c: StudentClaimsView,
    holder: Seq<u8>,
    profile: Text,
) -> bool {
    &&& policy.school_roots.contains_key(d.school)
    &&& outside::text_of_peer(root) matches Some(t) && policy.school_roots[d.school].contains(t)
    &&& outside::text_of_peer(issuer) == Some(d.issuer)
    &&& c.school == d.school
    &&& outside::text_of_peer(holder) == Some(c.holder)
    &&& c.game_profile == profile
    &&& c.subject.len() > 0
    &&& c.id.len() > 0
    &&& d.id.len() > 0
    &&& !policy.revoked.contains(d.id)
    &&& !policy.revoked.contains(c.id)
    &&& !policy.revoked.contains(d.issuer)
}

/// The times that must agree: now is within both documents, the credential is within the
/// delegation and not longer than it allows, and the verification is recent enough.
pub open spec fn times_agree(
    policy: TrustPolicyView,
    d: StudentDelegationView,
    c: StudentClaimsView,
    now: u64,
) -> bool {
    &&& d.not_before <= now < d.expires_at
    &&& d.not_before <= c.issued_at <= now
    &&& now < c.expires_at <= d.expires_at
    &&& c.expires_at > c.issued_at
    &&& c.expires_at - c.issued_at <= d.max_credential_seconds
    &&& c.verified_at <= c.issued_at
    &&& now - c.verified_at <= policy.max_verification_age_seconds
}

/// How close the school of the claims is. Accounts and past studies show no affiliation.
pub open spec fn circle(policy: TrustPolicyView, c: StudentClaimsView) -> Circle {
    if c.evidence == Evidence::MuaAccountOnly || c.evidence == Evidence::Alumni {
        Circle::Unknown
    } else if c.school == policy.local_school {
        Circle::Local
    } else if policy.province_schools.contains(c.school) {
        Circle::Province
    } else if policy.mua_schools.contains(c.school) {
        Circle::Mua
    } else {
        Circle::Unknown
    }
}

/// What a credential is worth to the policy, given what its two payloads say.
pub open spec fn admitted(
    policy: TrustPolicyView,
    credential: StudentCredentialView,
    delegation: std::result::Result<StudentDelegationView, Text>,
    claims: std::result::Result<StudentClaimsView, Text>,
    holder: Seq<u8>,
    profile: Text,
    now: u64,
) -> Outcome<(Circle, StudentClaimsView)> {
    match signer(credential.delegation, delegation_domain()) {
        Err(e) => Err(e),
        Ok(root) => match delegation {
            Err(text) => Err(ErrorView::Protocol(text)),
            Ok(d) => match signer(credential.student, student_domain()) {
                Err(e) => Err(e),
                Ok(issuer) => match claims {
                    Err(text) => Err(ErrorView::Protocol(text)),
                    Ok(c) => if names_agree(policy, root, d, issuer, c, holder, profile)
                        && times_agree(policy, d, c, now) && d.evidence.contains(c.evidence) {
                        Ok((circle(policy, c), c))
                    } else {
                        Err(ErrorView::Denied)
                    },
                },
            },
        },
    }
}

/// Evidence of being a student now, not only of an affiliation.
pub open spec fn is_current(evidence: Evidence) -> bool {
    evidence == Evidence::CurrentEnrollment || evidence == Evidence::MuaStudentVerification
}

/// As `admitted`, for current students alone.
pub open spec fn admitted_student(
    policy: TrustPolicyView,
    credential: StudentCredentialView,
    delegation: std::result::Result<StudentDelegationView, Text>,
    claims: std::result::Result<StudentClaimsView, Text>,
    holder: Seq<u8>,
    profile: Text,
    now: u64,
) -> Outcome<(Circle, StudentClaimsView)> {
    match admitted(policy, credential, delegation, claims, holder, profile, now) {
        Err(e) => Err(e),
        Ok((near, c)) => if is_current(c.evidence) {
            Ok((near, c))
        } else {
            Err(ErrorView::Denied)
        },
    }
}

/// What the payload of a document says, as it was decoded.
pub open spec fn said<T: DeepView>(r: std::result::Result<T, String>) -> std::result::Result<
    T::V,
    Text,
> {
    match r {
        Ok(value) => Ok(value.deep_view()),
        Err(text) => Err(text@),
    }
}

impl TrustPolicy {
    fn names_agree(
        &self,
        root: &PeerId,
        d: &StudentDelegation,
        issuer: &PeerId,
        c: &StudentClaims,
        holder: &PeerId,
        profile: &str,
    ) -> (r: bool)
        ensures
            r == names_agree(self@, root@, d@, issuer@, c@, holder@, profile@),
    {
        let trusted: bool = match self.school_roots.get(d.school.as_str()) {
            Some(roots) => roots.contains(root.text().as_str()),
            None => false,
        };
        trusted && same_text(d.issuer.as_str(), issuer.text().as_str()) && same_text(
            c.school.as_str(),
            d.school.as_str(),
        ) && same_text(c.holder.as_str(), holder.text().as_str()) && same_text(
            c.game_profile.as_str(),
            profile,
        ) && !c.subject.as_str().is_empty() && !c.id.as_str().is_empty() && !d.id.as_str().is_empty()
            && !self.revoked.contains(d.id.as_str()) && !self.revoked.contains(c.id.as_str())
            && !self.revoked.contains(d.issuer.as_str())
    }

    fn times_agree(&self, d: &StudentDelegation, c: &StudentClaims, now: u64) -> (r: bool)
        ensures
            r == times_agree(self@, d@, c@, now),
    {
        d.not_before <= now && d.expires_at > now && c.issued_at >= d.not_before && c.issued_at
            <= now && c.expires_at > now && c.expires_at <= d.expires_at && c.expires_at
            > c.issued_at && c.expires_at - c.issued_at <= d.max_credential_seconds && c.verified_at
            <= c.issued_at && now.saturating_sub(c.verified_at)
            <= self.max_verification_age_seconds
    }

    fn circle(&self, c: &StudentClaims) -> (r: Circle)
        ensures
            r == circle(self@, c@),
    {
        if c.evidence == Evidence::MuaAccountOnly || c.evidence == Evidence::Alumni {
            Circle::Unknown
        } else if same_text(c.school.as_str(), self.local_school.as_str()) {
            Circle::Local
        } else if self.province_schools.contains(c.school.as_str()) {
            Circle::Province
        } else if self.mua_schools.contains(c.school.as_str()) {
            Circle::Mua
        } else {
            Circle::Unknown
        }
    }

    /// What a credential is worth to the policy. `delegation` and `claims` are what the JSON in
    /// its two payloads says, or why it cannot be read.
    pub fn verify(
        &self,
        credential: &StudentCredential,
        delegation: std::result::Result<StudentDelegation, String>,
        claims: std::result::Result<StudentClaims, String>,
        holder: &PeerId,
        profile: &str,
        now: u64,
    ) -> (r: Result<(Circle, StudentClaims)>)
        ensures
            match admitted(
                self@,
                credential@,
                said(delegation),
                said(claims),
                holder@,
                profile@,
                now,
            ) {
                Ok((near, c)) => r is Ok && r->Ok_0.0 == near && r->Ok_0.1@ == c,
                Err(e) => r is Err && r->Err_0@ == e,
            },
    {
        let for_delegation = delegation_bytes();
        let root = match credential.delegation.verify(for_delegation.as_slice()) {
            Ok(root) => root,
            Err(e) => {
                return Err(e);
            },
        };
        let d = match delegation {
            Ok(d) => d,
            Err(text) => {
                return Err(Error::Protocol(text));
            },
        };
        let for_student = student_bytes();
        let issuer = match credential.student.verify(for_student.as_slice()) {
            Ok(issuer) => issuer,
            Err(e) => {
                return Err(e);
            },
        };
        let c = match claims {
            Ok(c) => c,
            Err(text) => {
                return Err(Error::Protocol(text));
            },
        };
        if !self.names_agree(&root, &d, &issuer, &c, holder, profile) || !self.times_agree(
            &d,
            &c,
            now,
        ) || !has_evidence(&d.evidence, c.evidence) {
            return Err(Error::Denied);
        }
        let near = self.circle(&c);
        Ok((near, c))
    }

    /// As `verify`, for current students alone. An address at a school shows an affiliation, not
    /// that its owner studies there now.
    pub fn verify_current_student(
        &self,
        credential: &StudentCredential,
        delegation: std::result::Result<StudentDelegation, String>,
        claims: std::result::Result<StudentClaims, String>,
        holder: &PeerId,
        profile: &str,
        now: u64,
    ) -> (r: Result<(Circle, StudentClaims)>)
        ensures
            match admitted_student(
                self@,
                credential@,
                said(delegation),
                said(claims),
                holder@,
                profile@,
                now,
            ) {
                Ok((near, c)) => r is Ok && r->Ok_0.0 == near && r->Ok_0.1@ == c,
                Err(e) => r is Err && r->Err_0@ == e,
            },
    {
        match self.verify(credential, delegation, claims, holder, profile, now) {
            Ok((near, c)) => if c.evidence == Evidence::CurrentEnrollment || c.evidence
                == Evidence::MuaStudentVerification {
                Ok((near, c))
            } else {
                Err(Error::Denied)
            },
            Err(e) => Err(e),
        }
    }
}

/// A credential holds for one device and one profile, for a time, from an issuer to whom a root
/// has delegated that the policy itself names; and nothing of it was revoked.
pub proof fn law_credentials_are_bound(
    policy: TrustPolicyView,
    credential: StudentCredentialView,
    delegation: std::result::Result<StudentDelegationView, Text>,
    claims: std::result::Result<StudentClaimsView, Text>,
    holder: Seq<u8>,
    profile: Text,
    now: u64,
)
    ensures
        admitted(policy, credential, delegation, claims, holder, profile, now) matches Ok((near, c))
            ==> {
            &&& outside::text_of_peer(holder) == Some(c.holder)
            &&& c.game_profile == profile
            &&& c.issued_at <= now < c.expires_at
            &&& now - c.verified_at <= policy.max_verification_age_seconds
            &&& !policy.revoked.contains(c.id)
            &&& policy.school_roots.contains_key(c.school)
            &&& signer(credential.delegation, delegation_domain()) matches Ok(root)
            &&& outside::text_of_peer(root) matches Some(name)
            &&& policy.school_roots[c.school].contains(name)
            &&& signer(credential.student, student_domain()) matches Ok(issuer)
            &&& outside::text_of_peer(issuer) matches Some(station)
            &&& !policy.revoked.contains(station)
            &&& delegation matches Ok(d)
            &&& d.issuer == station
            &&& d.school == c.school
            &&& d.not_before <= now < d.expires_at
            &&& d.evidence.contains(c.evidence)
            &&& !policy.revoked.contains(d.id)
            &&& near == circle(policy, c)
        },
{
}

/// An affiliation is not an enrollment: an address, an account or past studies do not pass
/// where current students are asked for.
pub proof fn law_affiliation_is_not_enrollment(
    policy: TrustPolicyView,
    credential: StudentCredentialView,
    delegation: std::result::Result<StudentDelegationView, Text>,
    c: StudentClaimsView,
    holder: Seq<u8>,
    profile: Text,
    now: u64,
)
    requires
        c.evidence == Evidence::InstitutionalEmail || c.evidence == Evidence::MuaAccountOnly
            || c.evidence == Evidence::Alumni,
    ensures
        admitted_student(policy, credential, delegation, Ok(c), holder, profile, now) is Err,
{
}

/// What a school delegates and an issuer signs is accepted by a policy that trusts the school,
/// as long as names, times and evidence agree.
pub proof fn law_issued_credentials_are_admitted(
    policy: TrustPolicyView,
    root: Seq<u8>,
    issuer: Seq<u8>,
    delegation_json: Seq<u8>,
    claims_json: Seq<u8>,
    d: StudentDelegationView,
    c: StudentClaimsView,
    holder: Seq<u8>,
    profile: Text,
    now: u64,
)
    requires
        signer(signed(root, delegation_domain(), delegation_json), delegation_domain())
            == Outcome::<Seq<u8>>::Ok(identity::peer_of_secret(root)),
        signer(signed(issuer, student_domain(), claims_json), student_domain()) == Outcome::<
            Seq<u8>,
        >::Ok(identity::peer_of_secret(issuer)),
        names_agree(
            policy,
            identity::peer_of_secret(root),
            d,
            identity::peer_of_secret(issuer),
            c,
            holder,
            profile,
        ),
        times_agree(policy, d, c, now),
        d.evidence.contains(c.evidence),
    ensures
        admitted(
            policy,
            (StudentCredentialView {
                delegation: signed(root, delegation_domain(), delegation_json),
                student: signed(issuer, student_domain(), claims_json),
            }),
            Ok(d),
            Ok(c),
            holder,
            profile,
            now,
        ) == Outcome::<(Circle, StudentClaimsView)>::Ok((circle(policy, c), c)),
{
}

} // verus!
