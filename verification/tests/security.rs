use union_core::collections::{OrdSet, StrSet};
use union_core::protocol::{self, DirectoryRequest, Expected, GrantEnvelope, Piece};
use union_core::wire;
use union_core::{AccessPolicy, Error, Grant, Identity, PeerId, ServiceId, SignedGrant};

fn only(peer: PeerId) -> OrdSet<PeerId> {
    let mut r = OrdSet::new();
    r.insert(peer);
    r
}

fn names(items: &[&str]) -> StrSet {
    let mut r = StrSet::new();
    for item in items {
        r.insert(item.to_string());
    }
    r
}

#[test]
fn grants_bind_issuer_holder_host_service_time_and_revocation() -> Result<(), Error> {
    let issuer = Identity::generate();
    let subject = Identity::generate().peer_id();
    let audience = Identity::generate().peer_id();
    let service = ServiceId::new();
    let policy = AccessPolicy::Grants {
        issuers: only(issuer.peer_id()),
        revoked: StrSet::new(),
    };
    let signed = SignedGrant::issue(
        &issuer,
        Grant {
            subject: subject.clone(),
            audience: audience.clone(),
            service,
            not_before: 100,
            expires_at: 200,
        },
    )?;
    let signed = SignedGrant::decode(&signed.encode())?;
    policy.authorize(&subject, &audience, service, Some(&signed), 100)?;
    assert!(
        policy
            .authorize(&subject, &audience, service, Some(&signed), 99)
            .is_err()
    );
    assert!(
        policy
            .authorize(&subject, &audience, service, Some(&signed), 200)
            .is_err()
    );
    assert!(
        policy
            .authorize(&issuer.peer_id(), &audience, service, Some(&signed), 150)
            .is_err()
    );
    assert!(
        policy
            .authorize(&subject, &issuer.peer_id(), service, Some(&signed), 150)
            .is_err()
    );
    assert!(
        policy
            .authorize(&subject, &audience, ServiceId::new(), Some(&signed), 150)
            .is_err()
    );
    assert!(
        policy
            .authorize(&subject, &audience, service, None, 150)
            .is_err()
    );
    let foreign = AccessPolicy::Grants {
        issuers: only(Identity::generate().peer_id()),
        revoked: StrSet::new(),
    };
    assert!(
        foreign
            .authorize(&subject, &audience, service, Some(&signed), 150)
            .is_err()
    );
    let revoked = AccessPolicy::Grants {
        issuers: only(issuer.peer_id()),
        revoked: names(&[&signed.id()?]),
    };
    assert!(
        revoked
            .authorize(&subject, &audience, service, Some(&signed), 150)
            .is_err()
    );
    let mut envelope = wire::decode::<GrantEnvelope>(signed.encode().as_slice())?;
    envelope.claims.push(0);
    let tampered = SignedGrant::decode(&wire::encode(&envelope))?;
    assert!(
        policy
            .authorize(&subject, &audience, service, Some(&tampered), 150)
            .is_err()
    );
    // Owning the host does not make its key a trusted federation issuer.
    let hosting_key = Identity::generate();
    let forged_authority = SignedGrant::issue(
        &hosting_key,
        Grant {
            subject: subject.clone(),
            audience: audience.clone(),
            service,
            not_before: 100,
            expires_at: 200,
        },
    )?;
    assert!(
        policy
            .authorize(&subject, &audience, service, Some(&forged_authority), 150)
            .is_err()
    );
    Ok(())
}

#[test]
fn frames_are_bounded_and_carry_messages_unchanged() -> Result<(), Error> {
    let header = ((protocol::MAX_FRAME + 1) as u32).to_be_bytes();
    assert!(matches!(protocol::frame_size(header), Err(Error::Protocol(_))));
    assert_eq!(protocol::frame_size((protocol::MAX_FRAME as u32).to_be_bytes())?, 65536);
    // An empty request is nothing but its size.
    assert_eq!(protocol::encode_frame(&DirectoryRequest {})?, vec![0, 0, 0, 0]);
    let envelope = GrantEnvelope {
        claims: vec![1, 2, 3],
        issuer_key: vec![4],
        signature: vec![5, 6],
    };
    let frame = protocol::encode_frame(&envelope)?;
    let size = protocol::frame_size([frame[0], frame[1], frame[2], frame[3]])?;
    assert_eq!(size, frame.len() - 4);
    assert_eq!(wire::decode::<GrantEnvelope>(&frame[4..])?, envelope);
    // Nothing but the frame is read, and of one that is too large only the size.
    assert_eq!(Expected::Size.wanted(), 4);
    let body = match Expected::Size.accept::<GrantEnvelope>(&frame[..4])? {
        Piece::More(next) => next,
        Piece::Whole(_) => panic!("a message came of its size"),
    };
    assert_eq!(body, Expected::Body { size });
    assert_eq!(body.wanted(), size);
    assert!(matches!(body.accept::<GrantEnvelope>(&frame[4..])?, Piece::Whole(m) if m == envelope));
    assert!(matches!(
        Expected::Size.accept::<GrantEnvelope>(&header),
        Err(Error::Protocol(text)) if text == "frame too large"
    ));
    let large = GrantEnvelope { claims: vec![0; 70_000], issuer_key: vec![], signature: vec![] };
    assert!(matches!(protocol::encode_frame(&large), Err(Error::Protocol(text)) if text == "frame too large"));
    Ok(())
}

#[test]
fn grants_are_short_lived_and_small() {
    let issuer = Identity::generate();
    let grant = |not_before: u64, expires_at: u64| Grant {
        subject: issuer.peer_id(),
        audience: issuer.peer_id(),
        service: ServiceId::new(),
        not_before,
        expires_at,
    };
    assert!(SignedGrant::issue(&issuer, grant(5, 5)).is_err());
    assert!(SignedGrant::issue(&issuer, grant(5, 6)).is_ok());
    assert!(SignedGrant::decode(&vec![0; protocol::MAX_FRAME + 1]).is_err());
    assert!(SignedGrant::decode(&[255]).is_err());
}

#[test]
fn policies_without_grants_ignore_them() -> Result<(), Error> {
    let peer = Identity::generate().peer_id();
    let host = Identity::generate().peer_id();
    let service = ServiceId::new();
    AccessPolicy::Public.authorize(&peer, &host, service, None, 0)?;
    AccessPolicy::Peers(only(peer.clone())).authorize(&peer, &host, service, None, 0)?;
    assert!(matches!(
        AccessPolicy::Peers(only(host.clone())).authorize(&peer, &host, service, None, 0),
        Err(Error::Denied)
    ));
    assert!(matches!(
        AccessPolicy::default().authorize(&peer, &host, service, None, 0),
        Err(Error::Denied)
    ));
    Ok(())
}

#[test]
fn identities_have_texts_that_name_them() {
    let identity = Identity::generate();
    let peer = identity.peer_id();
    let text = peer.text();
    assert!(text.starts_with("12D3KooW"));
    assert_eq!(PeerId::parse(&text).unwrap().to_bytes(), peer.to_bytes());
    assert!(PeerId::parse("nobody").is_none());
    assert!(PeerId::of_key(&identity.public_key()).unwrap().same(&peer));
    assert!(PeerId::of_key(&[1, 2, 3]).is_none());
    assert!(!Identity::generate().peer_id().same(&peer));
    let address = format!("/ip4/127.0.0.1/udp/9/quic-v1/p2p/{text}");
    assert!(PeerId::of_address(&address).unwrap().unwrap().same(&peer));
    assert!(PeerId::of_address("/ip4/127.0.0.1/udp/9/quic-v1").unwrap().is_none());
    assert!(PeerId::of_address("nowhere").is_none());
}

#[test]
fn key_files_are_small_private_and_regular() {
    assert!(Identity::check_key_file(true, 68, Some(0o100600)).is_ok());
    assert!(Identity::check_key_file(true, 4096, None).is_ok());
    let refused = |regular: bool, len: u64, mode: Option<u32>| {
        match Identity::check_key_file(regular, len, mode) {
            Err(Error::Identity(text)) => text,
            _ => panic!("a key file that is not fit was taken"),
        }
    };
    assert_eq!(refused(false, 68, Some(0o100600)), "expected a small regular key file");
    assert_eq!(refused(true, 4097, Some(0o100600)), "expected a small regular key file");
    assert_eq!(refused(true, 68, Some(0o100644)), "key file must be private (chmod 600)");
    assert!(matches!(Identity::restore(b"corrupt"), Err(Error::Identity(_))));
    assert!(matches!(Identity::import_secret(&[]), Err(Error::Identity(text)) if text == "invalid key size"));
}

#[test]
fn service_identities_are_read_back() -> Result<(), Error> {
    let id = ServiceId { number: 0x0123_4567_89ab_cdef_fedc_ba98_7654_3210 };
    assert_eq!(id.text(), "01234567-89ab-cdef-fedc-ba9876543210");
    assert_eq!(ServiceId::parse(&id.text())?, id);
    assert!(matches!(ServiceId::parse("no uuid"), Err(Error::Protocol(_))));
    assert_ne!(ServiceId::new(), ServiceId::new());
    for id in [ServiceId::new(), ServiceId::default()] {
        assert_eq!((id.number >> 76) & 0xf, 4);
        assert_eq!((id.number >> 62) & 0x3, 2);
        assert_eq!(&id.text()[14..15], "4");
    }
    assert_ne!(ServiceId { number: 1 }.text(), ServiceId { number: 2 }.text());
    Ok(())
}
