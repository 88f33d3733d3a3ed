use union_core::chunks::{self, Assembly};
use union_core::collections::StrSet;
use union_core::events::{self, Event, Subscribe, Subscription};
use union_core::governance::{digest, Action, Member, State};
use union_core::journal::{self, Command, Entry, Journal, SignedCommand};
use union_core::protocol::{JsonFrame, MAX_FRAME};
use union_core::{Error, Identity};

fn admins(identity: &Identity) -> StrSet {
    let mut r = StrSet::new();
    r.insert(identity.peer_id().text());
    r
}

fn written<T: std::fmt::Debug>(value: &T) -> Vec<u8> {
    format!("{value:?}").into_bytes()
}

fn enroll(member: &str) -> Action {
    Action::Enroll {
        member: member.into(),
        club: "jlu".into(),
        device: Identity::generate().peer_id().text(),
    }
}

fn execute(journal: &mut Journal, signed: &SignedCommand, command: &Command, now: u64) -> Result<(), Error> {
    let next = journal.prepare(signed, Ok(command.clone()), now)?;
    let json = written(&next);
    let entry = journal.seal(signed.clone(), now, &json)?;
    let entry_json = written(&entry);
    journal.commit(entry, next, &entry_json);
    Ok(())
}

fn read(genesis: &State, entries: &[Entry], commands: &[Command]) -> Result<Journal, Error> {
    let mut journal = Journal::open(genesis.clone(), &written(genesis));
    for (entry, command) in entries.iter().zip(commands) {
        let next = journal.replay(entry, Ok(command.clone()))?;
        let json = written(&next);
        journal.record(entry.clone(), next, &json, &written(entry))?;
    }
    Ok(journal)
}

fn recorded() -> Result<(State, Vec<Entry>, Vec<Command>, State), Error> {
    let key = Identity::generate();
    let genesis = State::new(admins(&key))?;
    let mut journal = Journal::open(genesis.clone(), &written(&genesis));
    let mut commands = Vec::new();
    for (revision, member) in ["m", "n"].iter().enumerate() {
        let command = Command { revision: revision as u64, expires_ms: 100, action: enroll(member) };
        let signed = SignedCommand::sign(&key, written(&command))?;
        execute(&mut journal, &signed, &command, 1 + revision as u64)?;
        // The revision has moved on, so the same command is refused.
        assert!(execute(&mut journal, &signed, &command, 5).is_err());
        commands.push(command);
    }
    Ok((genesis, journal.entries().clone(), commands, journal.state().clone()))
}

#[test]
fn journals_are_read_back_as_they_were_written() -> Result<(), Error> {
    let (genesis, entries, commands, expected) = recorded()?;
    assert_eq!(entries.len(), 2);
    assert_eq!(entries[0].version, 1);
    assert_eq!(entries[0].previous, digest(&written(&genesis)));
    assert_eq!(entries[1].previous, digest(&written(&entries[0])));
    assert_eq!(entries[1].state_hash, digest(&written(&expected)));
    let journal = read(&genesis, &entries, &commands)?;
    assert_eq!(journal.state(), &expected);
    assert_eq!(journal.state().revision, 2);
    assert_eq!(journal.entries(), &entries);
    let event = journal.event(b"state", true);
    assert_eq!((event.revision, event.resync), (2, true));
    assert_eq!(event.state_hash, digest(b"state"));
    Ok(())
}

#[test]
fn journals_that_were_changed_are_refused() -> Result<(), Error> {
    let (genesis, entries, commands, _) = recorded()?;
    let refusal = |entries: &[Entry]| match read(&genesis, entries, &commands) {
        Err(e) => e.message(),
        Ok(_) => panic!("a changed journal was read"),
    };
    let mut changed = entries.clone();
    changed[0].state_hash = "invalid".into();
    assert_eq!(refusal(&changed), "invalid protocol message: journal state mismatch");
    changed = entries.clone();
    changed[1].previous = "invalid".into();
    assert_eq!(refusal(&changed), "invalid protocol message: journal chain mismatch");
    for version in [0, 2] {
        changed = entries.clone();
        changed[0].version = version;
        assert_eq!(refusal(&changed), "invalid protocol message: unsupported journal version");
    }
    changed = entries.clone();
    changed[0].time_ms = 101;
    assert_eq!(refusal(&changed), "access denied");
    changed = entries.clone();
    changed[0].command.payload.push(0);
    assert_eq!(refusal(&changed), "access denied");
    // At another time the command leads to another state than the line names.
    changed = entries.clone();
    changed[0].time_ms += 1;
    assert_eq!(refusal(&changed), "invalid protocol message: journal state mismatch");
    assert_eq!(refusal(&entries[1..]), "invalid protocol message: journal chain mismatch");
    let unread = Journal::open(genesis.clone(), &written(&genesis))
        .replay(&entries[0], Err("not a command".into()));
    assert!(matches!(unread, Err(Error::Protocol(text)) if text == "not a command"));
    Ok(())
}

#[test]
fn commands_name_their_signers() -> Result<(), Error> {
    let key = Identity::generate();
    let command = Command::new(3, 10, enroll("m"));
    assert_eq!((command.revision, command.expires_ms), (3, 30_010));
    assert_eq!(Command::new(0, u64::MAX - 1, enroll("m")).expires_ms, u64::MAX);
    let signed = SignedCommand::sign(&key, written(&command))?;
    let actor = key.peer_id().text();
    assert_eq!(signed.signer()?, actor);
    assert_eq!(signed.verify(Ok(command.clone()))?, (actor.clone(), command));
    journal::authorize(&signed, true, &actor)?;
    assert!(matches!(journal::authorize(&signed, false, &actor), Err(Error::Denied)));
    let other = Identity::generate().peer_id().text();
    assert!(matches!(journal::authorize(&signed, true, &other), Err(Error::Denied)));
    let mut forged = signed.clone();
    forged.public_key = Identity::generate().public_key();
    assert!(matches!(forged.signer(), Err(Error::Denied)));
    forged.public_key = vec![1];
    assert!(matches!(forged.signer(), Err(Error::Denied)));
    let long = SignedCommand::sign(&key, vec![0; MAX_FRAME + 1])?;
    assert!(matches!(long.signer(), Err(Error::Capacity)));
    Ok(())
}

#[test]
fn requests_are_answered_by_what_the_actor_may_see() -> Result<(), Error> {
    let key = Identity::generate();
    let genesis = State::new(admins(&key))?;
    let journal = Journal::open(genesis.clone(), b"genesis");
    let answer = journal.answer_snapshot(&key.peer_id().text());
    assert_eq!(answer.state, Some(genesis));
    assert_eq!(answer.error, None);
    let refused = journal.answer_snapshot(&Identity::generate().peer_id().text());
    assert_eq!(refused.state, None);
    assert_eq!(refused.error.as_deref(), Some("access denied"));
    let failed = journal::answer(Err(Error::Protocol("revision conflict".into())));
    assert_eq!(failed.error.as_deref(), Some("invalid protocol message: revision conflict"));
    assert!(journal::check_size(64 * 1024 * 1024).is_ok());
    assert!(matches!(journal::check_size(64 * 1024 * 1024 + 1), Err(Error::Capacity)));
    assert!(journal.seal(SignedCommand::sign(&key, vec![])?, 1, &vec![0; 8 * 1024 * 1024 - 1024]).is_ok());
    assert!(matches!(
        journal.seal(SignedCommand::sign(&key, vec![])?, 1, &vec![0; 8 * 1024 * 1024 - 1023]),
        Err(Error::Capacity)
    ));
    Ok(())
}

#[test]
fn snapshots_travel_in_parts_that_come_in_order() -> Result<(), Error> {
    let key = Identity::generate();
    let mut state = State::new(admins(&key))?;
    for i in 0..900 {
        state.members.insert(
            format!("member-{i}"),
            Member {
                club: "jlu".into(),
                additional_devices: StrSet::new(),
                device: Identity::generate().peer_id().text(),
            },
        );
    }
    let json = written(&state);
    assert!(json.len() > MAX_FRAME);
    let frames = journal::reply_frames(&json)?;
    assert_eq!(frames.len(), (json.len() + 65471) / 65472);
    let mut assembly = Assembly::new();
    for (i, frame) in frames.iter().enumerate() {
        assert_eq!(journal::receive(&mut assembly, frame)?, i + 1 == frames.len());
    }
    assert_eq!(assembly.bytes(), json);
    let stray = JsonFrame { json: b"{}".to_vec(), sequence: 1, last: true };
    assert!(matches!(
        journal::receive(&mut Assembly::new(), &stray),
        Err(Error::Protocol(text)) if text == "invalid snapshot chunks"
    ));
    let empty = JsonFrame { json: vec![], sequence: 0, last: true };
    assert!(journal::receive(&mut Assembly::new(), &empty).is_err());
    let mut endless = Assembly::new();
    for sequence in 0..128 {
        let frame = JsonFrame { json: vec![0], sequence, last: false };
        assert!(!journal::receive(&mut endless, &frame)?);
    }
    let frame = JsonFrame { json: vec![0], sequence: 128, last: false };
    assert!(matches!(journal::receive(&mut endless, &frame), Err(Error::Capacity)));
    assert!(matches!(journal::reply_frames(&vec![0; 8 * 1024 * 1024 + 1]), Err(Error::Capacity)));
    assert_eq!(chunks::split(&[], 10, 4)?.len(), 0);
    let parts = chunks::split(&[1, 2, 3, 4, 5], 10, 2)?;
    assert_eq!(parts.iter().map(|p| p.json.len()).collect::<Vec<_>>(), vec![2, 2, 1]);
    assert_eq!(parts.iter().map(|p| p.last).collect::<Vec<_>>(), vec![false, false, true]);
    Ok(())
}

#[test]
fn requests_and_notices_are_single_frames() {
    let frame = |sequence: u32, last: bool| JsonFrame { json: vec![7], sequence, last };
    assert_eq!(journal::request_body(frame(0, true)).unwrap(), vec![7]);
    assert_eq!(events::event_body(frame(0, true)).unwrap(), vec![7]);
    assert_eq!(events::subscription_body(frame(0, true)).unwrap(), vec![7]);
    for bad in [frame(1, true), frame(0, false)] {
        assert!(matches!(
            journal::request_body(bad.clone()),
            Err(Error::Protocol(text)) if text == "request must be one frame"
        ));
        assert!(matches!(
            events::event_body(bad.clone()),
            Err(Error::Protocol(text)) if text == "invalid event frame"
        ));
        assert!(matches!(events::subscription_body(bad), Err(Error::Denied)));
    }
}

#[test]
fn subscribers_resync_when_a_revision_is_missed() {
    let event = |revision: u64| Event { revision, state_hash: "h".into(), resync: false };
    let mut subscription = Subscription::new(Subscribe { after_revision: 4 });
    let told: Vec<bool> = [4, 4, 5, 7, 6, u64::MAX, u64::MAX]
        .iter()
        .map(|revision| subscription.notice(&event(*revision)).resync)
        .collect();
    assert_eq!(told, vec![true, false, false, true, true, true, false]);
}

#[test]
fn clocks_beyond_the_range_are_errors() {
    assert_eq!(journal::millis(5).unwrap(), 5);
    assert_eq!(journal::millis(u64::MAX as u128).unwrap(), u64::MAX);
    assert!(matches!(
        journal::millis(u64::MAX as u128 + 1),
        Err(Error::Protocol(text)) if text == "out of range integral type conversion attempted"
    ));
    assert_eq!(journal::millis_told(Ok(7)).unwrap(), 7);
    assert!(matches!(
        journal::millis_told(Err("too early".into())),
        Err(Error::Protocol(text)) if text == "too early"
    ));
    assert!(journal::now_ms().unwrap() > 1_600_000_000_000);
}
