use union_core::client::Input;
use union_core::collections::{OrdSet, StrMap, StrSet};
use union_core::federation::{
    delegate, issue, Circle, Evidence, StudentClaims, StudentDelegation, StudentPresentation,
    TrustPolicy,
};
use union_core::governance::Action;
use union_core::node::catalog::{
    check_directory, open_request, session_result, Admission, Catalog, Presented,
};
use union_core::node::peers::{self, DialStep, Dials};
use union_core::node::{self, NodeConfig, RelayConfig, Span};
use union_core::protocol::{DirectoryResponse, OpenRequest, ServiceRecord, Status};
use union_core::terminal::{self, AccessArgs, NodeArgs};
use union_core::{AccessPolicy, Error, Grant, Identity, PeerId, Service, ServiceId, SignedGrant};

type R = Result<(), Error>;

fn peer() -> PeerId {
    Identity::generate().peer_id()
}

fn service(id: ServiceId, access: AccessPolicy) -> Service {
    Service { id, name: "Test game".into(), protocol: "test/echo".into(), access }
}

fn only(peer: &PeerId) -> OrdSet<PeerId> {
    let mut r = OrdSet::new();
    r.insert(peer.clone());
    r
}

fn request(id: ServiceId) -> OpenRequest {
    open_request(id, None, Vec::new())
}

#[test]
fn catalogs_are_listed_in_order_and_bounded() -> R {
    let mut catalog = Catalog::new();
    for number in [3u128, 1, 2] {
        catalog.publish(service(ServiceId { number }, AccessPolicy::Public))?;
    }
    let listed = check_directory(catalog.directory())?;
    let ids: Vec<String> = listed.iter().map(|r| r.id.clone()).collect();
    assert_eq!(
        ids,
        vec![
            "00000000-0000-0000-0000-000000000001",
            "00000000-0000-0000-0000-000000000002",
            "00000000-0000-0000-0000-000000000003"
        ]
    );
    assert_eq!(listed[0].name, "Test game");
    assert_eq!(listed[0].protocol, "test/echo");
    assert!(terminal::offers(&listed, ServiceId { number: 2 }));
    catalog.withdraw(ServiceId { number: 2 });
    assert!(!terminal::offers(&catalog.directory().services, ServiceId { number: 2 }));
    for number in 10u128..72 {
        catalog.publish(service(ServiceId { number }, AccessPolicy::Public))?;
    }
    assert_eq!(catalog.directory().services.len(), 64);
    assert!(matches!(
        catalog.publish(service(ServiceId { number: 99 }, AccessPolicy::Public)),
        Err(Error::Capacity)
    ));
    // Another version of a service that is listed already takes no more room.
    catalog.publish(service(ServiceId { number: 10 }, AccessPolicy::Deny))?;
    let mut unnamed = service(ServiceId { number: 1 }, AccessPolicy::Public);
    unnamed.name = String::new();
    assert!(matches!(
        catalog.publish(unnamed),
        Err(Error::Protocol(text)) if text == "invalid service name or protocol"
    ));
    let mut foreign = service(ServiceId { number: 1 }, AccessPolicy::Public);
    foreign.protocol = "\u{e9}cho".into();
    assert!(foreign.validate().is_err());
    Ok(())
}

#[test]
fn directories_of_other_hosts_are_checked() {
    let record = |number: u128, name: &str| ServiceRecord {
        id: ServiceId { number }.text(),
        name: name.into(),
        protocol: "p".into(),
    };
    let check = |services: Vec<ServiceRecord>| check_directory(DirectoryResponse { services });
    assert_eq!(check(vec![record(1, "a"), record(2, "b")]).unwrap().len(), 2);
    assert!(matches!(
        check(vec![record(1, "a"), record(1, "b")]),
        Err(Error::Protocol(text)) if text == "duplicate service id"
    ));
    assert!(matches!(
        check(vec![record(1, "")]),
        Err(Error::Protocol(text)) if text == "invalid service name or protocol"
    ));
    let mut nameless = record(1, "a");
    nameless.id = "none".into();
    assert!(matches!(check(vec![nameless]), Err(Error::Protocol(_))));
    assert!(matches!(
        check((0..65u128).map(|n| record(n, "a")).collect()),
        Err(Error::Capacity)
    ));
}

#[test]
fn sessions_are_opened_as_the_policy_says() -> R {
    let (issuer, host, guest) = (Identity::generate(), peer(), peer());
    let [open, closed, named, granted] = [1u128, 2, 3, 4].map(|number| ServiceId { number });
    let mut catalog = Catalog::new();
    catalog.publish(service(open, AccessPolicy::Public))?;
    catalog.publish(service(closed, AccessPolicy::Deny))?;
    catalog.publish(service(named, AccessPolicy::Peers(only(&guest))))?;
    catalog.publish(service(
        granted,
        AccessPolicy::Grants { issuers: only(&issuer.peer_id()), revoked: StrSet::new() },
    ))?;
    let told = |request: &OpenRequest, who: &PeerId, now: u64| -> Result<Status, Error> {
        Ok(catalog.consider(request, None, who, &host, Ok(now))?.status(true))
    };
    assert_eq!(told(&request(open), &guest, 0)?, Status::Accepted);
    assert_eq!(told(&request(closed), &guest, 0)?, Status::Denied);
    assert_eq!(told(&request(named), &guest, 0)?, Status::Accepted);
    assert_eq!(told(&request(named), &host, 0)?, Status::Denied);
    assert_eq!(told(&request(ServiceId { number: 9 }), &guest, 0)?, Status::NotFound);
    assert_eq!(told(&request(granted), &guest, 5)?, Status::Denied);
    let grant = SignedGrant::issue(
        &issuer,
        Grant {
            subject: guest.clone(),
            audience: host.clone(),
            service: granted,
            not_before: 0,
            expires_at: 10,
        },
    )?;
    let with_grant = open_request(granted, Some(grant), Vec::new());
    assert_eq!(told(&with_grant, &guest, 5)?, Status::Accepted);
    assert_eq!(told(&with_grant, &guest, 10)?, Status::Denied);
    let admission = catalog.consider(&request(open), None, &guest, &host, Ok(0))?;
    assert_eq!(admission.status(false), Status::Busy);
    let nonsense = OpenRequest { service_id: "?".into(), grant: None, student: Vec::new() };
    assert!(matches!(told(&nonsense, &guest, 0), Err(Error::Protocol(_))));
    // A clock that fails matters only to a service that is offered.
    let lost = |id: ServiceId| {
        let clock = Err(Error::Network("clock".into()));
        catalog.consider(&request(id), None, &guest, &host, clock)
    };
    assert!(matches!(lost(open), Err(Error::Network(text)) if text == "clock"));
    assert!(matches!(lost(ServiceId { number: 9 }), Ok(Admission::NotFound)));
    Ok(())
}

#[test]
fn statuses_mean_what_the_host_decided() {
    assert!(session_result(Status::Accepted.to_number()).is_ok());
    assert!(matches!(session_result(Status::Denied.to_number()), Err(Error::Denied)));
    assert!(matches!(session_result(Status::NotFound.to_number()), Err(Error::NotFound)));
    assert!(matches!(session_result(Status::Busy.to_number()), Err(Error::Capacity)));
    for other in [0, 5, -1] {
        assert!(matches!(
            session_result(other),
            Err(Error::Protocol(text)) if text == "unknown session status"
        ));
    }
}

#[test]
fn students_are_let_in_by_their_circle() -> R {
    let (root, issuer, holder, host) =
        (Identity::generate(), Identity::generate(), peer(), peer());
    let delegation = StudentDelegation {
        id: "d".into(),
        school: "jlu".into(),
        issuer: issuer.peer_id().text(),
        not_before: 0,
        expires_at: 1000,
        max_credential_seconds: 300,
        evidence: vec![Evidence::CurrentEnrollment, Evidence::InstitutionalEmail],
    };
    let shown = |evidence: Evidence| -> Result<Presented, Error> {
        let claims = StudentClaims {
            id: "s".into(),
            school: "jlu".into(),
            subject: "student".into(),
            game_profile: "game-uuid".into(),
            holder: holder.text(),
            evidence,
            verified_at: 1,
            issued_at: 1,
            expires_at: 300,
        };
        let document = delegate(&root, format!("{delegation:?}").into_bytes())?;
        let credential = issue(&issuer, document, format!("{claims:?}").into_bytes())?;
        Ok(Presented {
            presentation: StudentPresentation { credential, profile: "game-uuid".into() },
            delegation: Ok(delegation.clone()),
            claims: Ok(claims),
        })
    };
    let mut school_roots = StrMap::new();
    let mut roots = StrSet::new();
    roots.insert(root.peer_id().text());
    school_roots.insert("jlu".to_string(), roots);
    let mut mua_schools = StrSet::new();
    mua_schools.insert("jlu".to_string());
    let trust = TrustPolicy {
        local_school: "elsewhere".into(),
        province_schools: StrSet::new(),
        mua_schools,
        school_roots,
        revoked: StrSet::new(),
        max_verification_age_seconds: 1000,
    };
    let mut catalog = Catalog::new();
    for (number, minimum, current_enrollment) in
        [(1u128, Circle::Mua, false), (2, Circle::Province, false), (3, Circle::Mua, true)]
    {
        catalog.publish(service(
            ServiceId { number },
            AccessPolicy::Students {
                trust: Box::new(trust.clone()),
                minimum,
                current_enrollment,
            },
        ))?;
    }
    let decide = |number: u128, shown: Option<Presented>, who: &PeerId| {
        catalog.consider(&request(ServiceId { number }), shown, who, &host, Ok(20))
    };
    match decide(1, Some(shown(Evidence::InstitutionalEmail)?), &holder)? {
        Admission::Open { student: Some(claims) } => assert_eq!(claims.game_profile, "game-uuid"),
        _ => panic!("missing verified claims"),
    }
    let denied = |a: Result<Admission, Error>| matches!(a, Ok(Admission::Denied));
    assert!(denied(decide(1, None, &holder)));
    assert!(denied(decide(1, Some(shown(Evidence::InstitutionalEmail)?), &host)));
    assert!(denied(decide(2, Some(shown(Evidence::InstitutionalEmail)?), &holder)));
    assert!(denied(decide(3, Some(shown(Evidence::InstitutionalEmail)?), &holder)));
    assert!(matches!(
        decide(3, Some(shown(Evidence::CurrentEnrollment)?), &holder)?,
        Admission::Open { student: Some(_) }
    ));
    Ok(())
}

#[test]
fn set_ups_are_checked_before_a_node_starts() {
    let fault = |config: NodeConfig| match config.validate() {
        Err(Error::Protocol(text)) => text,
        Err(e) => e.message(),
        Ok(_) => String::new(),
    };
    let with = |change: &dyn Fn(&mut NodeConfig)| {
        let mut config = NodeConfig::default();
        change(&mut config);
        fault(config)
    };
    assert_eq!(with(&|_| {}), "");
    assert_eq!(NodeConfig::default().listen, vec!["/ip4/127.0.0.1/udp/0/quic-v1"]);
    let sessions = "listen address required; max_sessions must be 1..=4096";
    assert_eq!(with(&|c| c.listen.clear()), sessions);
    assert_eq!(with(&|c| c.max_sessions = 0), sessions);
    assert_eq!(with(&|c| c.max_sessions = 4097), sessions);
    assert_eq!(with(&|c| c.max_sessions = 4096), "");
    let limits = RelayConfig::default();
    assert_eq!((limits.max_circuits, limits.max_circuit_bytes), (128, 268_435_456));
    assert_eq!(with(&|c| c.relay = Some(RelayConfig::default())), "");
    assert_eq!(
        with(&|c| {
            let max_circuit_duration = Span::of_seconds(0);
            c.relay = Some(RelayConfig { max_circuit_duration, ..RelayConfig::default() })
        }),
        "relay limits must be positive"
    );
    assert_eq!(
        with(&|c| {
            let max_circuit_duration = Span { seconds: 0, nanos: 1 };
            c.relay = Some(RelayConfig { max_circuit_duration, ..RelayConfig::default() })
        }),
        ""
    );
    assert_eq!(limits.max_circuit_duration, Span { seconds: 3600, nanos: 0 });
    let seed = format!("/ip4/127.0.0.1/tcp/1/p2p/{}", peer().text());
    assert_eq!(with(&|c| c.bootstrap = vec![seed.clone(); 16]), "");
    assert_eq!(with(&|c| c.bootstrap = vec![seed.clone(); 17]), "resource limit reached");
    assert_eq!(
        with(&|c| c.bootstrap = vec![seed.clone(), "/ip4/127.0.0.1/tcp/1".into()]),
        "bootstrap address must end in PeerId"
    );
}

#[test]
fn listen_addresses_carry_the_identity_once() {
    let local = peer();
    let bare = "/ip4/127.0.0.1/tcp/1".to_string();
    let full = format!("{bare}/p2p/{}", local.text());
    assert_eq!(node::qualified_address(bare.clone(), &local), full);
    assert_eq!(node::qualified_address(full.clone(), &local), full);
    let other = format!("{bare}/p2p/{}", peer().text());
    assert_eq!(
        node::qualified_address(other.clone(), &local),
        format!("{other}/p2p/{}", local.text())
    );
    let mut list = Vec::new();
    node::add_address(&mut list, full.clone());
    node::add_address(&mut list, other.clone());
    node::add_address(&mut list, full.clone());
    assert_eq!(list, vec![full.clone(), other.clone()]);
    node::remove_addresses(&mut list, &vec![full]);
    assert_eq!(list, vec![other]);
}

#[test]
fn dialing_is_shared_bounded_and_answered() {
    let (a, b) = (peer(), peer());
    let mut dials = Dials::new();
    assert_eq!(dials.ask(None, false), DialStep::Refuse);
    assert_eq!(dials.ask(Some(&a), true), DialStep::Connected);
    assert_eq!(dials.ask(Some(&a), false), DialStep::Dial);
    dials.wait(a.clone(), 1);
    assert_eq!(dials.ask(Some(&a), false), DialStep::Wait);
    dials.wait(a.clone(), 2);
    dials.wait(b.clone(), 3);
    let mut closed = OrdSet::new();
    closed.insert(1u64);
    dials.prune(&closed);
    assert_eq!(dials.len(), 2);
    assert_eq!(dials.resolve(&a), vec![2]);
    assert!(dials.resolve(&a).is_empty());
    for ticket in 10..73 {
        dials.wait(b.clone(), ticket);
    }
    assert_eq!(dials.len(), 64);
    assert_eq!(dials.ask(Some(&b), false), DialStep::Full);
    assert_eq!(dials.resolve(&b).len(), 64);
    assert!(matches!(
        DialStep::Refuse.answer(),
        Some(Err(Error::Protocol(text))) if text == "dial address must end with /p2p/PEER"
    ));
    assert!(matches!(DialStep::Full.answer(), Some(Err(Error::Capacity))));
    assert!(matches!(DialStep::Connected.answer(), Some(Ok(()))));
    assert!(DialStep::Wait.answer().is_none());
    assert!(DialStep::Dial.answer().is_none());
}

#[test]
fn searches_tell_a_bounded_number_of_hosts() -> R {
    let many: Vec<PeerId> = (0..130).map(|_| peer()).collect();
    let mut known = OrdSet::new();
    peers::collect(&mut known, &many[..100].to_vec());
    peers::collect(&mut known, &many[..10].to_vec());
    assert_eq!(known.len(), 100);
    peers::collect(&mut known, &many);
    // As many are looked at as there is room for, and those were known already.
    assert_eq!(known.len(), 100);
    peers::collect(&mut known, &many[100..].to_vec());
    assert_eq!(known.len(), 128);
    assert_eq!(peers::conclude(true, &known)?.len(), 128);
    assert!(peers::conclude(false, &OrdSet::new())?.is_empty());
    assert!(matches!(peers::conclude(true, &OrdSet::new()), Err(Error::Timeout)));
    assert!(peers::check_search(63).is_ok());
    assert!(matches!(peers::check_search(64), Err(Error::Capacity)));
    assert_eq!(
        peers::provider_key(ServiceId { number: 1 }),
        "jlucraft/service/00000000-0000-0000-0000-000000000001"
    );
    assert!(peers::answers_searches(&vec!["/x".into(), "/jlucraft/union/kad/1".into()]));
    assert!(!peers::answers_searches(&vec!["/jlucraft/union/kad/2".into()]));
    Ok(())
}

#[test]
fn clocks_tell_whole_seconds() {
    assert_eq!(node::seconds(1_999), 1);
    assert_eq!(node::seconds(2_000), 2);
    assert_eq!(node::seconds_told(Ok(2_999)).unwrap(), 2);
    assert!(matches!(
        node::seconds_told(Err(("too early".into(), "Fault(1s)".into()))),
        Err(Error::Network(text)) if text == "too early (Fault(1s))"
    ));
    assert!(node::now_seconds().unwrap() > 1_600_000_000);
}

#[test]
fn inputs_name_the_peer_that_they_reach() {
    let target = peer();
    let input = |address: String, peer: String, revision: Option<u64>, action: Option<Action>| {
        Input { address, peer, revision, action }.check()
    };
    let address = format!("/ip4/127.0.0.1/tcp/1/p2p/{}", target.text());
    let (who, command) = input(address.clone(), target.text(), None, None).unwrap();
    assert!(who.same(&target));
    assert!(command.is_none());
    let action = Action::Tick { league: "cup".into() };
    let (_, command) =
        input(address.clone(), target.text(), Some(4), Some(action.clone())).unwrap();
    assert_eq!(command, Some((4, action.clone())));
    let text = |r: Result<(PeerId, Option<(u64, Action)>), Error>| r.err().unwrap().message();
    assert_eq!(
        text(input(address.clone(), "?".into(), None, None)),
        "invalid protocol message: invalid peer"
    );
    assert_eq!(
        text(input("?".into(), target.text(), None, None)),
        "invalid protocol message: invalid address"
    );
    assert_eq!(text(input(address.clone(), peer().text(), None, None)), "access denied");
    assert_eq!(
        text(input("/ip4/127.0.0.1/tcp/1".into(), target.text(), None, None)),
        "access denied"
    );
    assert_eq!(
        text(input(address, target.text(), None, Some(action))),
        "invalid protocol message: revision required"
    );
}

#[test]
fn terminals_let_in_whom_their_options_name() {
    let (a, b) = (peer(), peer());
    let args = |public: bool, allow_peer: Vec<PeerId>, issuer: Vec<PeerId>, revoked: Vec<String>| {
        AccessArgs { public, allow_peer, issuer, revoked }.policy()
    };
    assert_eq!(args(false, vec![], vec![], vec![]), AccessPolicy::Deny);
    assert_eq!(args(true, vec![a.clone()], vec![], vec![]), AccessPolicy::Public);
    match args(false, vec![a.clone(), b.clone(), a.clone()], vec![], vec![]) {
        AccessPolicy::Peers(peers) => assert_eq!((peers.len(), peers.contains(&b)), (2, true)),
        _ => panic!("no peers"),
    }
    match args(false, vec![], vec![b.clone()], vec!["x".into(), "x".into()]) {
        AccessPolicy::Grants { issuers, revoked } => {
            assert!(issuers.contains(&b) && !issuers.contains(&a));
            assert_eq!((revoked.len(), revoked.contains("x")), (1, true));
        }
        _ => panic!("no grants"),
    }
}

#[test]
fn terminals_check_where_they_connect_to() {
    let target = peer();
    let good = format!("/ip4/127.0.0.1/tcp/1/p2p/{}", target.text());
    let bad = format!("/ip4/127.0.0.1/tcp/1/p2p/{}", peer().text());
    assert!(terminal::all_lead_to(&vec![good.clone(), good.clone()], &target));
    assert!(!terminal::all_lead_to(&vec![good.clone(), bad.clone()], &target));
    assert!(!terminal::all_lead_to(&vec!["x".into()], &target));
    let (listen, expected) = terminal::reservation(&bad, &target).unwrap();
    assert_eq!(listen, format!("{bad}/p2p-circuit"));
    assert_eq!(expected, format!("{bad}/p2p-circuit/p2p/{}", target.text()));
    assert!(terminal::reservation("/ip4/127.0.0.1/tcp/1", &target).is_none());
    assert_eq!(
        terminal::check_proxy(false, true, true),
        Some("player proxy must bind to loopback")
    );
    assert_eq!(terminal::check_proxy(true, true, true), Some("choose one admission proof"));
    assert_eq!(terminal::check_proxy(true, true, false), None);
    assert!(terminal::grant_fits(65_536) && !terminal::grant_fits(65_537));
    let grant = |now: u64, seconds: u64| {
        terminal::grant_for(target.clone(), target.clone(), ServiceId::new(), now, seconds)
    };
    let issued = grant(100, 60).unwrap();
    assert_eq!((issued.not_before, issued.expires_at), (100, 160));
    assert!(grant(u64::MAX, 1).is_none());
}

#[test]
fn relays_that_stand_alone_answer_searches() {
    let args = NodeArgs {
        listen: vec!["/ip4/0.0.0.0/tcp/1".into()],
        external: vec![],
        relay: false,
        relay_circuits: 7,
        relay_bytes: 8,
        relay_seconds: 9,
        bootstrap: vec![],
        discovery_server: false,
        lan_discovery: true,
    };
    let plain = args.config(false);
    assert_eq!(plain.relay, None);
    assert!(!plain.discovery_server && plain.lan_discovery && plain.hole_punching);
    let alone = args.config(true);
    assert!(alone.discovery_server);
    assert_eq!(
        alone.relay,
        Some(RelayConfig {
            max_reservations: 128,
            max_circuits: 7,
            max_circuit_bytes: 8,
            max_circuit_duration: Span::of_seconds(9)
        })
    );
}
