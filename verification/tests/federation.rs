use union_core::collections::{StrMap, StrSet};
use union_core::federation::{
    delegate, issue, Circle, Evidence, StudentClaims, StudentCredential, StudentDelegation,
    TrustPolicy,
};
use union_core::{Error, Identity, PeerId};

/// A credential with what its two payloads say.
struct Shown {
    credential: StudentCredential,
    delegation: StudentDelegation,
    claims: StudentClaims,
}

fn set(items: &[&str]) -> StrSet {
    let mut r = StrSet::new();
    for item in items {
        r.insert(item.to_string());
    }
    r
}

fn roots(school: &str, root: &Identity) -> StrMap<StrSet> {
    let mut r = StrMap::new();
    r.insert(school.to_string(), set(&[&root.peer_id().text()]));
    r
}

fn written<T: std::fmt::Debug>(value: &T) -> Vec<u8> {
    format!("{value:?}").into_bytes()
}

fn issued(
    root: &Identity,
    issuer: &Identity,
    delegation: &StudentDelegation,
    claims: &StudentClaims,
) -> Result<Shown, Error> {
    let signed = delegate(root, written(delegation))?;
    Ok(Shown {
        credential: issue(issuer, signed, written(claims))?,
        delegation: delegation.clone(),
        claims: claims.clone(),
    })
}

fn verify(
    policy: &TrustPolicy,
    shown: &Shown,
    holder: &PeerId,
    profile: &str,
    now: u64,
) -> Result<(Circle, StudentClaims), Error> {
    policy.verify(
        &shown.credential,
        Ok(shown.delegation.clone()),
        Ok(shown.claims.clone()),
        holder,
        profile,
        now,
    )
}

#[test]
fn delegated_email_issuer_cannot_elevate_school_or_holder() -> Result<(), Error>
{
    let root = Identity::generate();
    let issuer = Identity::generate();
    let holder = Identity::generate();
    let delegation = StudentDelegation {
        id: "delegation".into(),
        school: "jlu".into(),
        issuer: issuer.peer_id().text(),
        not_before: 10,
        expires_at: 1000,
        max_credential_seconds: 100,
        evidence: vec![Evidence::InstitutionalEmail],
    };
    let claims = StudentClaims {
        id: "student".into(),
        school: "jlu".into(),
        subject: "student-opaque-id".into(),
        game_profile: "profile".into(),
        holder: holder.peer_id().text(),
        evidence: Evidence::InstitutionalEmail,
        verified_at: 20,
        issued_at: 20,
        expires_at: 100,
    };
    let credential = issued(&root, &issuer, &delegation, &claims)?;
    let mut policy = TrustPolicy {
        local_school: "jlu".into(),
        province_schools: StrSet::new(),
        mua_schools: set(&["jlu"]),
        school_roots: roots("jlu", &root),
        revoked: StrSet::new(),
        max_verification_age_seconds: 200,
    };
    assert_eq!(
        verify(&policy, &credential, &holder.peer_id(), "profile", 30)?.0,
        Circle::Local
    );
    policy.local_school = "other".into();
    assert_eq!(
        verify(&policy, &credential, &holder.peer_id(), "profile", 30)?.0,
        Circle::Mua
    );
    policy.province_schools.insert("jlu".into());
    assert_eq!(
        verify(&policy, &credential, &holder.peer_id(), "profile", 30)?.0,
        Circle::Province
    );
    assert!(
        verify(&policy, &credential, &issuer.peer_id(), "profile", 30).is_err()
    );
    let mut forged = claims;
    forged.school = "other".into();
    let forged = issued(&root, &issuer, &delegation, &forged)?;
    assert!(
        verify(&policy, &forged, &holder.peer_id(), "profile", 30).is_err()
    );
    policy.revoked.insert("delegation".into());
    assert!(
        verify(&policy, &credential, &holder.peer_id(), "profile", 30).is_err()
    );
    Ok(())
}

#[test]
fn mua_account_and_alumni_never_imply_current_student() -> Result<(), Error> {
    let root = Identity::generate();
    let issuer = Identity::generate();
    let holder = Identity::generate();
    let delegation = StudentDelegation {
        id: "d".into(),
        school: "jlu".into(),
        issuer: issuer.peer_id().text(),
        not_before: 0,
        expires_at: 1000,
        max_credential_seconds: 1000,
        evidence: vec![
            Evidence::MuaAccountOnly,
            Evidence::Alumni,
            Evidence::InstitutionalEmail,
            Evidence::CurrentEnrollment,
        ],
    };
    let policy = TrustPolicy {
        local_school: "jlu".into(),
        province_schools: StrSet::new(),
        mua_schools: StrSet::new(),
        school_roots: roots("jlu", &root),
        revoked: StrSet::new(),
        max_verification_age_seconds: 1000,
    };
    for evidence in [
        Evidence::MuaAccountOnly,
        Evidence::Alumni,
        Evidence::InstitutionalEmail,
        Evidence::CurrentEnrollment,
    ] {
        let claims = StudentClaims {
            id: "s".into(),
            school: "jlu".into(),
            subject: "MUA:123".into(),
            game_profile: "uuid".into(),
            holder: holder.peer_id().text(),
            evidence,
            verified_at: 10,
            issued_at: 10,
            expires_at: 100,
        };
        let credential = issued(&root, &issuer, &delegation, &claims)?;
        let expected = if matches!(evidence, Evidence::MuaAccountOnly | Evidence::Alumni) {
            Circle::Unknown
        } else {
            Circle::Local
        };
        assert_eq!(
            verify(&policy, &credential, &holder.peer_id(), "uuid", 20)?.0,
            expected
        );
        assert_eq!(
            policy
                .verify_current_student(
                    &credential.credential,
                    Ok(credential.delegation.clone()),
                    Ok(credential.claims.clone()),
                    &holder.peer_id(),
                    "uuid",
                    20
                )
                .is_ok(),
            evidence == Evidence::CurrentEnrollment
        );
    }
    Ok(())
}
