//! Whom signatures, grants and credentials let in.
use vstd::prelude::*;
use vstd::utf8::*;

use crate::access;
use crate::access::AccessPolicyView;
use crate::error::{ErrorView, Outcome};
use crate::federation;
use crate::federation::{
    Circle, SignedDocumentView, StudentClaimsView, StudentCredentialView, StudentDelegationView,
    TrustPolicyView,
};
use crate::identity;
use crate::journal;
use crate::journal::{CommandView, SignedCommandView};
use crate::laws::membership;
use crate::model::rules;
use crate::model::views::Text;
use crate::outside;
use crate::protocol::{GrantClaims, GrantEnvelopeView};
use crate::service;
use crate::service::ServiceId;
use crate::wire;

verus! {

// The purposes of signatures.

proof fn lemma_plain(text: Text, bytes: Seq<u8>)
    requires
        text.len() == bytes.len(),
        forall|i: int| 0 <= i < text.len() ==> (#[trigger] text[i]) == bytes[i] as char,
        forall|i: int| 0 <= i < bytes.len() ==> 0 < #[trigger] bytes[i] <= 127,
    ensures
        encode_utf8(text) == bytes,
{
    assert forall|i: int| 0 <= i < text.len() implies '\0' <= #[trigger] text[i] <= '\u{7f}' by {
        assert(bytes[i] <= 127);
    }
    assert(is_ascii_chars(text));
    is_ascii_chars_encode_utf8(text);
    assert(encode_utf8(text) =~= bytes);
}

/// What is signed begins with the name of its purpose and a zero byte.
pub proof fn law_signatures_have_a_purpose()
    ensures
        access::grant_domain() == encode_utf8("jlucraft/union/grant/1"@).push(0),
        federation::delegation_domain() == encode_utf8("jlucraft/student-delegation/1"@).push(0),
        federation::student_domain() == encode_utf8("jlucraft/student-credential/1"@).push(0),
        journal::command_domain() == encode_utf8("jlucraft/governance/1"@).push(0),
{
    reveal_strlit("jlucraft/union/grant/1");
    reveal_strlit("jlucraft/student-delegation/1");
    reveal_strlit("jlucraft/student-credential/1");
    reveal_strlit("jlucraft/governance/1");
    lemma_plain("jlucraft/union/grant/1"@, access::grant_domain().drop_last());
    lemma_plain("jlucraft/student-delegation/1"@, federation::delegation_domain().drop_last());
    lemma_plain("jlucraft/student-credential/1"@, federation::student_domain().drop_last());
    lemma_plain("jlucraft/governance/1"@, journal::command_domain().drop_last());
    assert(access::grant_domain() =~= access::grant_domain().drop_last().push(0));
    assert(federation::delegation_domain() =~= federation::delegation_domain().drop_last().push(0));
    assert(federation::student_domain() =~= federation::student_domain().drop_last().push(0));
    assert(journal::command_domain() =~= journal::command_domain().drop_last().push(0));
}

/// What is signed for one purpose is never what is signed for another one.
pub proof fn law_purposes_stay_apart(a: Seq<u8>, b: Seq<u8>)
    ensures
        access::grant_domain() + a != federation::delegation_domain() + b,
        access::grant_domain() + a != federation::student_domain() + b,
        access::grant_domain() + a != journal::command_domain() + b,
        federation::delegation_domain() + a != federation::student_domain() + b,
        federation::delegation_domain() + a != journal::command_domain() + b,
        federation::student_domain() + a != journal::command_domain() + b,
{
    let g = access::grant_domain();
    let d = federation::delegation_domain();
    let t = federation::student_domain();
    let c = journal::command_domain();
    assert((g + a)[9] != (d + b)[9]);
    assert((g + a)[9] != (t + b)[9]);
    assert((g + a)[9] != (c + b)[9]);
    assert((d + a)[17] != (t + b)[17]);
    assert((d + a)[9] != (c + b)[9]);
    assert((t + a)[9] != (c + b)[9]);
}

/// A document holds what was to be signed, the signer's key, and the signature of purpose and
/// content together.
pub proof fn law_documents_are_signed(secret: Seq<u8>, domain: Seq<u8>, payload: Seq<u8>)
    ensures
        ({
            let d = federation::signed(secret, domain, payload);
            &&& d.payload == payload
            &&& d.key == outside::public_key(secret)
            &&& d.signature == outside::signature(secret, domain + payload)
        }),
{
}

/// A document of at most 16,384 bytes was signed by the peer of its key exactly where the
/// signature is one of that key on purpose and content together.
pub proof fn law_documents_name_their_signer(d: SignedDocumentView, domain: Seq<u8>)
    ensures
        ({
            let fits = d.payload.len() <= 16_384;
            let proper = outside::peer_of_key(d.key) is Some && outside::is_signature(
                d.key,
                domain + d.payload,
                d.signature,
            );
            match federation::signer(d, domain) {
                Ok(peer) => fits && proper && outside::peer_of_key(d.key) == Some(peer),
                Err(e) => {
                    ||| e == ErrorView::Capacity && !fits
                    ||| e == ErrorView::Denied && fits && !proper
                },
            }
        }),
{
}

// Grants.

/// A grant says for whom, where, for what and when it holds, and is signed as such.
pub proof fn law_grants_say_what_they_allow(
    issuer: Seq<u8>,
    id: u128,
    subject: Seq<u8>,
    audience: Seq<u8>,
    service: ServiceId,
    not_before: u64,
    expires_at: u64,
)
    ensures
        ({
            let c = access::claims_of(id, subject, audience, service, not_before, expires_at);
            let e = access::sealed(issuer, c);
            &&& c.id == service::uuid_text(id)
            &&& c.subject == subject
            &&& c.audience == audience
            &&& c.service_id == service::uuid_text(service.number)
            &&& c.not_before == not_before
            &&& c.expires_at == expires_at
            &&& e.claims == <GrantClaims as wire::Message>::wire(c)
            &&& e.issuer_key == outside::public_key(issuer)
            &&& e.signature == outside::signature(issuer, access::grant_domain() + e.claims)
        }),
{
}

/// The grant of one of the issuers, with a good signature, that names this peer, this node and
/// this service, at a time within its bounds, and that is not revoked.
pub open spec fn opens(
    g: GrantEnvelopeView,
    issuers: Set<Seq<u8>>,
    revoked: Set<Text>,
    peer: Seq<u8>,
    audience: Seq<u8>,
    service: ServiceId,
    now: u64,
) -> bool {
    &&& outside::peer_of_key(g.issuer_key) is Some
    &&& issuers.contains(outside::peer_of_key(g.issuer_key)->0)
    &&& outside::is_signature(g.issuer_key, access::grant_domain() + g.claims, g.signature)
    &&& wire::decoded::<GrantClaims>(g.claims) is Ok
    &&& {
        let c = wire::decoded::<GrantClaims>(g.claims)->Ok_0;
        &&& c.subject == peer
        &&& c.audience == audience
        &&& c.service_id == service::uuid_text(service.number)
        &&& now >= c.not_before
        &&& now < c.expires_at
        &&& !revoked.contains(c.id)
        &&& outside::uuid_of_text(c.id) is Ok
    }
}

/// A public service is open to all, one for peers to those who are named, one for grants to those
/// who bring one that opens it. Without a further look nobody enters any other.
pub proof fn law_policies_decide(
    policy: AccessPolicyView,
    peer: Seq<u8>,
    audience: Seq<u8>,
    service: ServiceId,
    grant: Option<GrantEnvelopeView>,
    now: u64,
)
    ensures
        access::authorized(policy, peer, audience, service, grant, now) <==> match policy {
            AccessPolicyView::Public => true,
            AccessPolicyView::Peers(peers) => peers.contains(peer),
            AccessPolicyView::Grants { issuers, revoked } => grant is Some && opens(
                grant->0,
                issuers,
                revoked,
                peer,
                audience,
                service,
                now,
            ),
            AccessPolicyView::Deny => false,
            AccessPolicyView::Students { trust, minimum, current_enrollment } => false,
        },
{
}

// Credentials.

/// The circles lie one within the other, from nobody known to the own school.
pub proof fn law_circles_are_nested()
    ensures
        Circle::Unknown.level() < Circle::Mua.level() < Circle::Province.level()
            < Circle::Local.level(),
{
}

/// An account or past studies show no affiliation, whatever the school. Otherwise the own school
/// is closest, then those of the province, then those of the union.
pub proof fn law_schools_lie_in_circles(policy: TrustPolicyView, c: StudentClaimsView)
    ensures
        ({
            let near = federation::circle(policy, c);
            let shown = c.evidence is InstitutionalEmail || c.evidence is MuaStudentVerification
                || c.evidence is CurrentEnrollment;
            let own = c.school == policy.local_school;
            let neighbour = policy.province_schools.contains(c.school);
            let member = policy.mua_schools.contains(c.school);
            &&& near is Local <==> shown && own
            &&& near is Province <==> shown && !own && neighbour
            &&& near is Mua <==> shown && !own && !neighbour && member
            &&& near is Unknown <==> !shown || (!own && !neighbour && !member)
        }),
{
}

/// What the two documents of a credential must say for this holder, this profile and this time.
pub open spec fn bears_out(
    policy: TrustPolicyView,
    root: Seq<u8>,
    issuer: Seq<u8>,
    d: StudentDelegationView,
    c: StudentClaimsView,
    holder: Seq<u8>,
    profile: Text,
    now: u64,
) -> bool {
    &&& policy.school_roots.contains_key(d.school)
    &&& outside::text_of_peer(root) is Some
    &&& policy.school_roots[d.school].contains(outside::text_of_peer(root)->0)
    &&& outside::text_of_peer(issuer) == Some(d.issuer)
    &&& outside::text_of_peer(holder) == Some(c.holder)
    &&& c.school == d.school
    &&& c.game_profile == profile
    &&& c.subject.len() >= 1 && c.id.len() >= 1 && d.id.len() >= 1
    &&& !policy.revoked.contains(d.id)
    &&& !policy.revoked.contains(c.id)
    &&& !policy.revoked.contains(d.issuer)
    &&& d.evidence.contains(c.evidence)
    &&& d.not_before <= c.issued_at
    &&& c.verified_at <= c.issued_at
    &&& c.issued_at <= now
    &&& now < c.expires_at
    &&& c.expires_at <= d.expires_at
    &&& c.expires_at <= c.issued_at + d.max_credential_seconds
    &&& now <= c.verified_at + policy.max_verification_age_seconds
}

/// A credential is admitted exactly where both documents are signed, the one for a delegation and
/// the other for a student, can be read, and bear each other out; then it is worth the circle of
/// its school.
pub proof fn law_credentials_are_weighed(
    policy: TrustPolicyView,
    credential: StudentCredentialView,
    delegation: std::result::Result<StudentDelegationView, Text>,
    claims: std::result::Result<StudentClaimsView, Text>,
    holder: Seq<u8>,
    profile: Text,
    now: u64,
)
    ensures
        ({
            let root = federation::signer(
                credential.delegation,
                federation::delegation_domain(),
            );
            let issuer = federation::signer(credential.student, federation::student_domain());
            match federation::admitted(
                policy,
                credential,
                delegation,
                claims,
                holder,
                profile,
                now,
            ) {
                Ok((near, c)) => {
                    &&& root is Ok && issuer is Ok && delegation is Ok && claims is Ok
                    &&& c == claims->Ok_0
                    &&& near == federation::circle(policy, c)
                    &&& bears_out(
                        policy,
                        root->Ok_0,
                        issuer->Ok_0,
                        delegation->Ok_0,
                        c,
                        holder,
                        profile,
                        now,
                    )
                },
                Err(e) => {
                    ||| root is Err && e == root->Err_0
                    ||| root is Ok && delegation is Err && e == ErrorView::Protocol(
                        delegation->Err_0,
                    )
                    ||| root is Ok && delegation is Ok && issuer is Err && e == issuer->Err_0
                    ||| root is Ok && delegation is Ok && issuer is Ok && claims is Err && e
                        == ErrorView::Protocol(claims->Err_0)
                    ||| root is Ok && delegation is Ok && issuer is Ok && claims is Ok && e
                        == ErrorView::Denied && !bears_out(
                        policy,
                        root->Ok_0,
                        issuer->Ok_0,
                        delegation->Ok_0,
                        claims->Ok_0,
                        holder,
                        profile,
                        now,
                    )
                },
            }
        }),
{
}

/// Where current students are asked for, a credential passes exactly where it is admitted and its
/// evidence is of an enrollment or of a verification as a student.
pub proof fn law_current_students_pass(
    policy: TrustPolicyView,
    credential: StudentCredentialView,
    delegation: std::result::Result<StudentDelegationView, Text>,
    claims: std::result::Result<StudentClaimsView, Text>,
    holder: Seq<u8>,
    profile: Text,
    now: u64,
)
    ensures
        ({
            let all = federation::admitted(
                policy,
                credential,
                delegation,
                claims,
                holder,
                profile,
                now,
            );
            match federation::admitted_student(
                policy,
                credential,
                delegation,
                claims,
                holder,
                profile,
                now,
            ) {
                Ok((near, c)) => {
                    &&& all == Outcome::<(Circle, StudentClaimsView)>::Ok((near, c))
                    &&& c.evidence is CurrentEnrollment || c.evidence is MuaStudentVerification
                },
                Err(e) => {
                    ||| all == Outcome::<(Circle, StudentClaimsView)>::Err(e)
                    ||| e == ErrorView::Denied && all is Ok && !((
                    all->Ok_0).1.evidence is CurrentEnrollment) && !((
                    all->Ok_0).1.evidence is MuaStudentVerification)
                },
            }
        }),
{
}

// Keys and names.

/// A key is taken from one to 4096 bytes that hold one.
pub proof fn law_keys_are_imported(bytes: Seq<u8>)
    ensures
        match identity::imported(bytes) {
            Ok(secret) => {
                &&& 1 <= bytes.len() <= 4096
                &&& outside::parsed_secret(bytes) is Ok
                &&& outside::parsed_secret(bytes)->Ok_0 == secret
            },
            Err(e) => {
                ||| e == ErrorView::Identity("invalid key size"@) && !(1 <= bytes.len() <= 4096)
                ||| 1 <= bytes.len() <= 4096 && outside::parsed_secret(bytes) is Err && e
                    == ErrorView::Identity(outside::parsed_secret(bytes)->Err_0)
            },
        },
        1 <= bytes.len() <= 4096 ==> identity::restored(bytes) == identity::imported(bytes),
{
}

/// A key file is read where it is a regular file of at most 4096 bytes whose mode, where it has
/// one, gives nothing to the group or to others.
pub proof fn law_key_files_are_private(regular: bool, len: u64, mode: Option<u32>)
    ensures
        ({
            let small = regular && len <= 4096;
            let private = mode is None || (mode->0) % 64 == 0;
            match identity::key_file_fault(regular, len, mode) {
                None => small && private,
                Some(e) => {
                    ||| e == ErrorView::Identity("expected a small regular key file"@) && !small
                    ||| e == ErrorView::Identity("key file must be private (chmod 600)"@) && small
                        && !private
                },
            }
        }),
{
    if mode is Some {
        let bits = mode->0;
        assert(bits & 0o077 == bits % 64) by (bit_vector);
    }
}

/// The text of a number: 32 digits of sixteen, the lowest last, in groups of 8, 4, 4, 4 and 12.
/// Each digit stands one place further right in the text of a sixteenth of the number.
pub proof fn law_identities_are_written_in_groups(id: u128, i: int)
    requires
        0 <= i < 31,
    ensures
        ({
            let t = service::uuid_text(id);
            &&& t.len() == 36
            &&& t[8] == '-' && t[13] == '-' && t[18] == '-' && t[23] == '-'
            &&& t[35] == rules::hex_digit((id % 16) as u8)
            &&& t[service::digit_place(i)] == service::uuid_text(id / 16)[service::digit_place(
                i + 1,
            )]
        }),
{
    let t = service::uuid_text(id);
    let sh = (124 - 4 * (i + 1)) as u128;
    assert(id & 0xf == id % 16 && id >> 0u128 == id) by (bit_vector);
    assert((id / 16) >> sh == id >> ((sh + 4) as u128)) by (bit_vector)
        requires
            sh <= 120,
    ;
    assert(t[service::digit_place(i)] == service::uuid_digit(id, i));
    assert(service::uuid_text(id / 16)[service::digit_place(i + 1)] == service::uuid_digit(
        id / 16,
        i + 1,
    ));
}

/// Where the digits stand in the text.
pub proof fn law_digits_stand_between_the_hyphens(i: int)
    requires
        0 <= i < 32,
    ensures
        ({
            let k = service::digit_place(i);
            &&& 0 <= k < 36
            &&& k != 8 && k != 13 && k != 18 && k != 23
            &&& i < 31 ==> k < service::digit_place(i + 1)
            &&& i == 0 ==> k == 0
            &&& i == 31 ==> k == 35
        }),
{
}

/// A random number shows in its text: the version is a four, and the variant one of four digits.
pub proof fn law_random_identities_are_marked(id: u128)
    ensures
        service::marked_random(id) <==> {
            let t = service::uuid_text(id);
            t[14] == '4' && (t[19] == '8' || t[19] == '9' || t[19] == 'a' || t[19] == 'b')
        },
{
    let t = service::uuid_text(id);
    let v = ((id >> 76u128) & 0xf) as u8;
    let w = ((id >> 60u128) & 0xf) as u8;
    assert(t[14] == service::uuid_digit(id, 12));
    assert(t[19] == service::uuid_digit(id, 16));
    assert((id >> 76u128) & 0xf < 16 && (id >> 60u128) & 0xf < 16 && ((id >> 62u128) & 0x3 == 2
        <==> 8 <= (id >> 60u128) & 0xf <= 11)) by (bit_vector);
    assert(forall|n: u8| n < 16 ==> rules::hex_digit(n) == seq![
        '0', '1', '2', '3', '4', '5', '6', '7', '8', '9', 'a', 'b', 'c', 'd', 'e', 'f',
    ][n as int]);
    assert(t[14] == rules::hex_digit(v));
    assert(t[19] == rules::hex_digit(w));
}

/// A service has a name, and names its protocol in plain ASCII.
pub proof fn law_services_are_named(name: Text, protocol: Text)
    ensures
        service::is_service(name, protocol) <==> membership::names(name) && membership::names(
            protocol,
        ) && forall|i: int| 0 <= i < protocol.len() ==> (#[trigger] protocol[i]) as u32 <= 127,
{
}

// Commands.

/// A signed command holds what was to be signed, the signer's key, and the signature of purpose
/// and command together.
pub proof fn law_commands_are_signed(secret: Seq<u8>, payload: Seq<u8>)
    ensures
        ({
            let c = journal::signed_command(secret, payload);
            &&& c.payload == payload
            &&& c.public_key == outside::public_key(secret)
            &&& c.signature == outside::signature(secret, journal::command_domain() + payload)
        }),
{
}

/// A command of at most 65,536 bytes is one of the device whose key signed it; its content is what
/// was read of it.
pub proof fn law_commands_name_their_signer(
    c: SignedCommandView,
    decoded: std::result::Result<CommandView, Text>,
)
    ensures
        ({
            let fits = c.payload.len() <= 65_536;
            let proper = outside::peer_of_key(c.public_key) is Some && outside::is_signature(
                c.public_key,
                journal::command_domain() + c.payload,
                c.signature,
            );
            match journal::opened(c, decoded) {
                Ok((actor, command)) => {
                    &&& fits && proper
                    &&& decoded is Ok && decoded->Ok_0 == command
                    &&& actor == outside::text_of_peer(outside::peer_of_key(c.public_key)->0)->0
                },
                Err(e) => {
                    ||| e == ErrorView::Capacity && !fits
                    ||| e == ErrorView::Denied && fits && !proper
                    ||| fits && proper && decoded is Err && e == ErrorView::Protocol(
                        decoded->Err_0,
                    )
                },
            }
        }),
{
}

} // verus!
