use union_core::chunks::Assembly;
use union_core::collections::{OrdMap, OrdSet, StrSet};
use union_core::consensus::network;
use union_core::consensus::store::{LogEntry, LogId, Machine, Payload, Store, StoredMembership, Vote};
use union_core::consensus::{conclude, read_state, Applied, Cluster, Peer, Replicated};
use union_core::governance::{digest, Action, State};
use union_core::journal::{Command, SignedCommand};
use union_core::protocol::JsonFrame;
use union_core::{Error, Identity};

type R = Result<(), Error>;

fn written<T: std::fmt::Debug>(value: &T) -> Vec<u8> {
    format!("{value:?}").into_bytes()
}

fn genesis(admin: &Identity) -> Result<State, Error> {
    let mut admins = StrSet::new();
    admins.insert(admin.peer_id().text());
    State::new(admins)
}

fn fresh(admin: &Identity) -> Result<Store, Error> {
    let state = genesis(admin)?;
    let hash = digest(&written(&state));
    Store::open(None, state, hash)
}

fn at(index: u64) -> LogId {
    LogId { term: 1, node: 1, index }
}

fn blank(index: u64) -> LogEntry {
    LogEntry { log_id: at(index), payload: Payload::Blank }
}

fn voter(identity: &Identity) -> Peer {
    let peer = identity.peer_id().text();
    Peer { addresses: vec![format!("/ip4/127.0.0.1/tcp/1/p2p/{peer}")], peer }
}

fn voters(items: &[(u64, &Peer)]) -> OrdMap<u64, Peer> {
    let mut r = OrdMap::new();
    for (id, peer) in items {
        r.insert(*id, (*peer).clone());
    }
    r
}

fn enroll(admin: &Identity, revision: u64, expires_ms: u64) -> Result<(SignedCommand, Command), Error> {
    let command = Command {
        revision,
        expires_ms,
        action: Action::Enroll {
            member: format!("m{revision}"),
            club: "jlu".into(),
            device: Identity::generate().peer_id().text(),
        },
    };
    Ok((SignedCommand::sign(admin, written(&command))?, command))
}

#[test]
fn logs_keep_what_was_appended_until_it_is_dropped() -> R {
    let mut store = fresh(&Identity::generate())?;
    assert_eq!(store.last_log_id(), None);
    store.append(vec![blank(1), blank(2), blank(3), blank(4)]);
    let numbers = |store: &Store, start: u64, end: Option<u64>| -> Vec<u64> {
        store.entries(start, end).iter().map(|e| e.log_id.index).collect()
    };
    assert_eq!(numbers(&store, 0, None), vec![1, 2, 3, 4]);
    assert_eq!(numbers(&store, 2, Some(4)), vec![2, 3]);
    assert_eq!(store.last_log_id(), Some(at(4)));
    store.truncate(at(4));
    assert_eq!(numbers(&store, 0, None), vec![1, 2, 3]);
    let replaced = LogEntry { log_id: LogId { term: 2, node: 1, index: 3 }, payload: Payload::Blank };
    store.append(vec![replaced.clone()]);
    assert_eq!(store.entries(3, None), vec![replaced]);
    store.purge(at(2))?;
    assert_eq!(numbers(&store, 0, None), vec![3]);
    assert_eq!(store.purged, Some(at(2)));
    assert!(matches!(
        store.purge(at(1)),
        Err(Error::Io(text)) if text == "purge moved backwards"
    ));
    store.purge(LogId { term: 2, node: 1, index: 3 })?;
    assert_eq!(store.last_log_id(), Some(LogId { term: 2, node: 1, index: 3 }));
    let vote = Vote { term: 3, node: 2, committed: true };
    store.save_vote(vote);
    store.save_committed(Some(at(2)));
    assert_eq!((store.vote, store.committed), (Some(vote), Some(at(2))));
    Ok(())
}

#[test]
fn stores_belong_to_one_cluster() -> R {
    let admin = Identity::generate();
    let store = fresh(&admin)?;
    let state = genesis(&admin)?;
    let hash = store.cluster_id();
    assert_eq!(hash, digest(&written(&state)));
    assert_eq!(store.state(), state);
    let found = Store::open(Some(store.clone()), state.clone(), hash.clone())?;
    assert_eq!(found, store);
    assert!(matches!(
        Store::open(Some(store.clone()), state.clone(), "other".into()),
        Err(Error::Denied)
    ));
    let mut newer = store.clone();
    newer.version = 2;
    assert!(matches!(Store::open(Some(newer), state, hash), Err(Error::Denied)));
    assert!(matches!(Store::check_size(67_108_865), Err(Error::Capacity)));
    assert!(Store::check_size(67_108_864).is_ok());
    assert!(matches!(
        Store::check_update(67_108_865),
        Err(Error::Io(text)) if text == "raft store capacity exceeded"
    ));
    assert!(store.notice(b"a", b"a").is_none());
    let event = store.notice(b"a", b"b").unwrap();
    assert_eq!((event.revision, event.resync), (0, false));
    assert_eq!(event.state_hash, digest(b"b"));
    Ok(())
}

#[test]
fn replicas_carry_out_the_same_commands_alike() -> R {
    let admin = Identity::generate();
    let mut replicas = [fresh(&admin)?, fresh(&admin)?];
    let cluster = replicas[0].cluster_id();
    let (first, first_body) = enroll(&admin, 0, 100)?;
    let (late, late_body) = enroll(&admin, 1, 5)?;
    for store in replicas.iter_mut() {
        let ask = |command: &SignedCommand, time_ms: u64| Replicated {
            cluster: cluster.clone(),
            command: command.clone(),
            time_ms,
        };
        let next = store.decide(&ask(&first, 10), Ok(first_body.clone()));
        assert_eq!(store.settle(at(1), next), Applied { revision: 1, error: None });
        // The revision has moved on.
        let again = store.decide(&ask(&first, 11), Ok(first_body.clone()));
        let told = store.settle(at(2), again);
        assert_eq!(told.revision, 1);
        assert_eq!(
            told.error.as_deref(),
            Some("invalid protocol message: revision conflict")
        );
        let expired = store.decide(&ask(&late, 12), Ok(late_body.clone()));
        assert_eq!(store.settle(at(3), expired).error.as_deref(), Some("access denied"));
        let mut foreign = ask(&late, 5);
        foreign.cluster = "other".into();
        assert!(matches!(store.decide(&foreign, Ok(late_body.clone())), Err(Error::Denied)));
        assert_eq!(store.pass(at(4), Some(vec![1])), Applied { revision: 1, error: None });
        assert_eq!(
            store.machine.membership,
            StoredMembership { log_id: Some(at(4)), json: vec![1] }
        );
        assert_eq!(store.pass(at(5), None), Applied { revision: 1, error: None });
        assert_eq!(store.machine.applied, Some(at(5)));
    }
    assert_eq!(replicas[0].machine, replicas[1].machine);
    assert!(conclude(Applied { revision: 1, error: None }).is_ok());
    assert!(matches!(
        conclude(Applied { revision: 1, error: Some("no".into()) }),
        Err(Error::Protocol(text)) if text == "no"
    ));
    let state = replicas[0].state();
    assert!(Store::fit(state.clone(), 8 * 1024 * 1024 - 1024).is_ok());
    assert!(matches!(Store::fit(state, 8 * 1024 * 1024 - 1023), Err(Error::Capacity)));
    Ok(())
}

#[test]
fn snapshots_carry_the_machine_to_another_replica() -> R {
    let admin = Identity::generate();
    let mut from = fresh(&admin)?;
    from.pass(at(7), Some(vec![9]));
    let snapshot = from.build_snapshot(vec![1, 2]);
    assert_eq!(from.snapshot, Some(snapshot.clone()));
    assert_eq!(snapshot.meta.last_log_id, Some(at(7)));
    assert_eq!(snapshot.meta.snapshot_id.len(), 36);
    let mut to = fresh(&admin)?;
    let before = to.clone();
    let mut other: Machine = from.machine.clone();
    other.applied = Some(at(8));
    assert!(matches!(
        to.install_snapshot(snapshot.meta.clone(), other, snapshot.data.clone()),
        Err(Error::Io(text)) if text == "snapshot metadata mismatch"
    ));
    assert_eq!(to, before);
    to.install_snapshot(snapshot.meta.clone(), from.machine.clone(), snapshot.data.clone())?;
    assert_eq!(to.machine, from.machine);
    assert!(matches!(
        Store::check_snapshot_size(16 * 1024 * 1024 + 1),
        Err(Error::Io(text)) if text == "snapshot too large"
    ));
    assert!(Store::check_snapshot_size(16 * 1024 * 1024).is_ok());
    Ok(())
}

#[test]
fn voters_start_under_their_own_numbers() -> R {
    let (admin, one, two) = (Identity::generate(), Identity::generate(), Identity::generate());
    let peers = voters(&[(1, &voter(&one))]);
    Cluster::check_start(1, &peers, &one.peer_id())?;
    // A voter that is not chosen yet may start and wait.
    Cluster::check_start(2, &peers, &two.peer_id())?;
    assert!(matches!(Cluster::check_start(0, &peers, &one.peer_id()), Err(Error::Denied)));
    assert!(matches!(Cluster::check_start(1, &peers, &two.peer_id()), Err(Error::Denied)));
    assert!(Cluster::check_start(1, &OrdMap::new(), &one.peer_id()).is_err());
    let state = Cluster::genesis(genesis(&admin)?, &peers)?;
    assert_eq!(state.consensus_members, peers);
    assert_eq!(Cluster::genesis(state.clone(), &peers)?, state);
    let others = voters(&[(1, &voter(&two))]);
    assert!(matches!(Cluster::genesis(state.clone(), &others), Err(Error::Denied)));
    let mut later = genesis(&admin)?;
    later.revision = 1;
    assert!(matches!(Cluster::genesis(later, &peers), Err(Error::Denied)));
    Ok(())
}

#[test]
fn commands_are_checked_before_they_are_replicated() -> R {
    let admin = Identity::generate();
    let state = genesis(&admin)?;
    let (signed, body) = enroll(&admin, 0, 100)?;
    let actor = admin.peer_id().text();
    let taken = Cluster::accept_command(&signed, Ok(body.clone()), &actor)?;
    assert_eq!(taken, body);
    let stranger = Identity::generate().peer_id().text();
    assert!(matches!(
        Cluster::accept_command(&signed, Ok(body.clone()), &stranger),
        Err(Error::Denied)
    ));
    assert!(matches!(
        Cluster::accept_command(&signed, Err("bad".into()), &actor),
        Err(Error::Protocol(_))
    ));
    Cluster::preflight(&state, &actor, body.clone(), 100)?;
    assert!(matches!(Cluster::preflight(&state, &actor, body.clone(), 101), Err(Error::Denied)));
    assert!(Cluster::preflight(&state, &stranger, body, 100).is_err());
    let cluster = Cluster { id: 1, peers: OrdMap::new(), cluster: "c".into() };
    let request = cluster.replicate(signed.clone(), 9);
    assert_eq!((request.cluster.as_str(), request.time_ms), ("c", 9));
    assert_eq!(request.command, signed);
    assert_eq!(read_state(&state, &actor)?, state);
    assert!(matches!(read_state(&state, &stranger), Err(Error::Denied)));
    Ok(())
}

#[test]
fn the_leader_brings_the_voters_in_line() {
    let identities = [Identity::generate(), Identity::generate(), Identity::generate()];
    let [a, b, c] = [voter(&identities[0]), voter(&identities[1]), voter(&identities[2])];
    let cluster = Cluster { id: 1, peers: OrdMap::new(), cluster: "c".into() };
    let desired = voters(&[(1, &a), (2, &b), (3, &c)]);
    let known = voters(&[(1, &a)]);
    let mut voting = OrdSet::new();
    voting.insert(1u64);
    assert!(cluster.plan(None, &voting, &known, &desired).is_none());
    assert!(cluster.plan(Some(2), &voting, &known, &desired).is_none());
    let plan = cluster.plan(Some(1), &voting, &known, &desired).unwrap();
    assert_eq!(plan.learners, vec![2, 3]);
    assert_eq!(plan.voters.len(), 3);
    assert!(cluster.plan(Some(1), &plan.voters, &desired, &desired).is_none());
    let mut moved = b.clone();
    moved.addresses.push(moved.addresses[0].clone());
    let elsewhere = voters(&[(1, &a), (2, &moved), (3, &c)]);
    assert_eq!(cluster.plan(Some(1), &plan.voters, &elsewhere, &desired).unwrap().learners, vec![2]);
    let fewer = voters(&[(1, &a)]);
    let smaller = cluster.plan(Some(1), &plan.voters, &desired, &fewer).unwrap();
    assert!(smaller.learners.is_empty());
    assert_eq!(smaller.voters.len(), 1);
    assert!(Cluster::accepts(2, &b.peer, &known, &desired));
    assert!(!Cluster::accepts(2, &b.peer, &known, &fewer));
    assert!(Cluster::accepts(1, &a.peer, &known, &OrdMap::new()));
    assert!(!Cluster::accepts(1, &b.peer, &known, &desired));
    assert_eq!(cluster.remote_leader(Some(2), &desired), Some((2, b)));
    assert_eq!(cluster.remote_leader(Some(1), &desired), None);
    assert_eq!(cluster.remote_leader(Some(2), &known), None);
    assert_eq!(cluster.remote_leader(None, &desired), None);
}

#[test]
fn messages_between_voters_are_bounded_and_honest() -> R {
    let json: Vec<u8> = (0..130_000u32).map(|i| i as u8).collect();
    let frames = network::frames(&json, network::MAX_RPC)?;
    assert_eq!(frames.len(), 3);
    let mut assembly = Assembly::new();
    let complete: Result<Vec<bool>, Error> = frames
        .iter()
        .map(|frame| network::receive(&mut assembly, frame, network::MAX_RPC))
        .collect();
    assert_eq!(complete?, vec![false, false, true]);
    assert_eq!(assembly.bytes(), json);
    assert!(matches!(network::frames(&json, 129_999), Err(Error::Capacity)));
    assert!(matches!(
        network::receive(&mut Assembly::new(), &frames[0], 59_999),
        Err(Error::Denied)
    ));
    let empty = JsonFrame { json: vec![], sequence: 0, last: true };
    assert!(matches!(network::receive(&mut Assembly::new(), &empty, 10), Err(Error::Denied)));
    assert!(network::check_envelope("c", "c", true).is_ok());
    assert!(network::check_envelope("c", "d", true).is_err());
    assert!(network::check_envelope("c", "c", false).is_err());
    assert!(network::check_leader(1, 1).is_ok());
    assert!(matches!(network::check_leader(1, 2), Err(Error::Denied)));
    let limit = 16 * 1024 * 1024;
    assert!(network::check_snapshot_part(1, 1, limit - 65_536, 65_536).is_ok());
    assert!(network::check_snapshot_part(1, 1, limit - 65_535, 65_536).is_err());
    assert!(network::check_snapshot_part(1, 1, 0, 65_537).is_err());
    assert!(network::check_snapshot_part(1, 2, 0, 1).is_err());
    assert!(network::check_snapshot_part(1, 1, u64::MAX, 1).is_err());
    Ok(())
}
