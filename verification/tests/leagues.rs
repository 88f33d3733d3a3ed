use union_core::collections::{OrdMap, StrMap, StrSet};
use union_core::governance::{
    digest, validate_consensus_members, Action, ConnectionHealth, ConsensusPeer, Phase, Route,
    Rules, State,
};
use union_core::season::Schedule;
use union_core::{Error, Identity};

type R = Result<(), Error>;

fn set(items: &[&str]) -> StrSet {
    let mut r = StrSet::new();
    for item in items {
        r.insert(item.to_string());
    }
    r
}

fn scores(items: &[(&str, i64)]) -> StrMap<i64> {
    let mut r = StrMap::new();
    for (name, points) in items {
        r.insert(name.to_string(), *points);
    }
    r
}

/// A federation with an administrator and a league in which each player leads a team.
struct Cup {
    state: State,
    admin: String,
    players: Vec<String>,
}

impl Cup {
    fn new(players: usize, rules: Rules) -> Result<Cup, Error> {
        let admin = Identity::generate().peer_id().text();
        let players: Vec<String> =
            (0..players).map(|_| Identity::generate().peer_id().text()).collect();
        let mut cup = Cup { state: State::new(set(&[&admin]))?, admin: admin.clone(), players };
        for i in 0..cup.players.len() {
            cup.apply(
                &admin,
                Action::Enroll {
                    member: i.to_string(),
                    club: "jlu".into(),
                    device: cup.players[i].clone(),
                },
            )?;
        }
        cup.apply(
            &admin,
            Action::CreateLeague {
                league: "cup".into(),
                rules,
                host: admin.clone(),
                scorer: admin.clone(),
            },
        )?;
        for i in 0..cup.players.len() {
            let captain = cup.players[i].clone();
            cup.apply(&captain, Action::CreateTeam { league: "cup".into(), team: format!("t{i}") })?;
            cup.apply(&captain, Action::Register { league: "cup".into(), team: format!("t{i}") })?;
        }
        Ok(cup)
    }

    fn apply(&mut self, actor: &str, action: Action) -> R {
        let (revision, now) = (self.state.revision, self.state.clock_ms + 1);
        self.state.apply(actor, revision, now, action)
    }

    fn lead(&mut self, action: Action) -> R {
        let admin = self.admin.clone();
        self.apply(&admin, action)
    }

    fn at(&mut self, now: u64, action: Action) -> R {
        let admin = self.admin.clone();
        let revision = self.state.revision;
        self.state.apply(&admin, revision, now, action)
    }

    fn presence(&mut self, member: &str, online: bool, rtt_ms: u64) -> R {
        self.lead(Action::Presence {
            league: "cup".into(),
            member: member.into(),
            online,
            health: ConnectionHealth { rtt_ms, jitter_ms: 0, recovery_ms: 0 },
        })
    }

    fn start(&mut self) -> R {
        self.lead(Action::Start { league: "cup".into(), seed: [1; 32] })
    }

    fn tick(&mut self, now: u64) -> R {
        self.at(now, Action::Tick { league: "cup".into() })
    }

    fn deadline(&self, team: &str) -> Option<u64> {
        self.state.leagues.get("cup").unwrap().seats.get(team).unwrap()[0].disconnected_until
    }
}

#[test]
fn time_to_reconnect_follows_the_connection() {
    let rules = Rules::default();
    let grace = |rtt_ms: u64, jitter_ms: u64, recovery_ms: u64| {
        ConnectionHealth { rtt_ms, jitter_ms, recovery_ms }.grace(&rules)
    };
    assert_eq!(grace(0, 0, 0), 15_000);
    assert_eq!(grace(1000, 500, 10_000), 8_000 + 2_000 + 20_000);
    assert_eq!(grace(10_000, 10_000, 10_000), 90_000);
    assert_eq!(grace(u64::MAX, 0, 0), 90_000);
}

#[test]
fn timely_players_keep_their_seats_and_late_ones_lose_them() -> R {
    let mut cup = Cup::new(1, Rules::default())?;
    cup.presence("0", true, 0)?;
    cup.start()?;
    assert_eq!(
        cup.state.leagues.get("cup").unwrap().route("0"),
        Route::Match { team: "t0".into(), epoch: 1 }
    );
    cup.presence("0", false, 0)?;
    let until = cup.deadline("t0").unwrap();
    assert_eq!(until, cup.state.clock_ms + 15_000);
    cup.tick(until - 1)?;
    assert_eq!(cup.deadline("t0"), Some(until));
    cup.presence("0", true, 0)?;
    // The time was over when the player came back, so the seat is a new one.
    assert_eq!(
        cup.state.leagues.get("cup").unwrap().route("0"),
        Route::Match { team: "t0".into(), epoch: 2 }
    );
    cup.presence("0", false, 0)?;
    cup.presence("0", true, 0)?;
    assert_eq!(cup.deadline("t0"), None);
    assert_eq!(
        cup.state.leagues.get("cup").unwrap().route("0"),
        Route::Match { team: "t0".into(), epoch: 2 }
    );
    assert_eq!(cup.state.leagues.get("cup").unwrap().route("stranger"), Route::Unavailable);
    Ok(())
}

#[test]
fn a_pause_stops_the_time_to_reconnect() -> R {
    let mut cup = Cup::new(1, Rules::default())?;
    cup.presence("0", true, 0)?;
    cup.start()?;
    cup.presence("0", false, 0)?;
    let until = cup.deadline("t0").unwrap();
    cup.lead(Action::PauseLeague { league: "cup".into(), paused: true })?;
    let paused = cup.state.clock_ms;
    cup.tick(until + 1000)?;
    assert_eq!(cup.deadline("t0"), Some(until));
    cup.at(until + 5000, Action::PauseLeague { league: "cup".into(), paused: false })?;
    assert_eq!(cup.deadline("t0"), Some(until + (until + 5000 - paused)));
    Ok(())
}

#[test]
fn scores_add_up_once_and_only_from_the_scorer() -> R {
    let mut cup = Cup::new(2, Rules::default())?;
    cup.presence("0", true, 0)?;
    let score = |event: &str, points: i64| Action::Score {
        league: "cup".into(),
        event: event.into(),
        players: scores(&[("0", points)]),
        teams: scores(&[("t0", points), ("t1", -points)]),
    };
    assert!(matches!(cup.lead(score("a", 1)), Err(Error::Protocol(text)) if text == "not playing"));
    cup.start()?;
    cup.lead(score("a", 7))?;
    cup.lead(score("a", 7))?;
    cup.lead(score("b", -2))?;
    let league = cup.state.leagues.get("cup").unwrap();
    assert_eq!(league.player_scores.get("0"), Some(&5));
    assert_eq!(league.team_scores.get("t1"), Some(&-5));
    assert_eq!(
        league.score_events.get("b").unwrap(),
        &digest(br#"[{"0":-2},{"t0":-2,"t1":2}]"#)
    );
    let before = cup.state.clone();
    assert!(matches!(
        cup.lead(score("a", 8)),
        Err(Error::Protocol(text)) if text == "score event id reused with different payload"
    ));
    assert!(matches!(
        cup.lead(score("c", i64::MAX)),
        Err(Error::Protocol(text)) if text == "score overflow"
    ));
    let player = cup.players[0].clone();
    assert!(matches!(cup.apply(&player, score("d", 1)), Err(Error::Denied)));
    assert!(matches!(
        cup.lead(Action::Score {
            league: "cup".into(),
            event: "e".into(),
            players: scores(&[("1", 1)]),
            teams: scores(&[]),
        }),
        Err(Error::Protocol(text)) if text == "player has not participated"
    ));
    assert!(matches!(
        cup.lead(Action::Score {
            league: "cup".into(),
            event: "f".into(),
            players: scores(&[]),
            teams: scores(&[("nobody", 1)]),
        }),
        Err(Error::NotFound)
    ));
    assert_eq!(cup.state, before);
    cup.lead(Action::Finish { league: "cup".into() })?;
    assert_eq!(cup.state.leagues.get("cup").unwrap().phase, Phase::Finished);
    assert!(cup.lead(score("late", 1)).is_err());
    // What was scored stays on record when the match is over.
    let over = cup.state.leagues.clone();
    cup.lead(score("a", 7))?;
    assert_eq!(cup.state.leagues, over);
    assert!(matches!(cup.lead(score("a", 8)), Err(Error::Protocol(_))));
    Ok(())
}

#[test]
fn only_the_host_reports_on_a_match() -> R {
    let mut cup = Cup::new(1, Rules::default())?;
    let player = cup.players[0].clone();
    let presence = |rtt_ms: u64| Action::Presence {
        league: "cup".into(),
        member: "0".into(),
        online: true,
        health: ConnectionHealth { rtt_ms, jitter_ms: 0, recovery_ms: 0 },
    };
    assert!(matches!(cup.apply(&player, presence(1)), Err(Error::Denied)));
    for action in [
        Action::Tick { league: "cup".into() },
        Action::Infrastructure { league: "cup".into(), healthy: false },
    ] {
        assert!(matches!(cup.apply(&player, action), Err(Error::Denied)));
    }
    assert!(matches!(
        cup.lead(presence(60_001)),
        Err(Error::Protocol(text)) if text == "invalid measured health"
    ));
    let before = cup.state.clone();
    cup.lead(presence(60_000))?;
    // Nothing but the league has changed, apart from the count of commands and the time.
    let mut expected = before;
    expected.revision += 1;
    expected.clock_ms += 1;
    expected.leagues = cup.state.leagues.clone();
    assert_eq!(cup.state, expected);
    assert!(matches!(cup.lead(Action::Tick { league: "none".into() }), Err(Error::NotFound)));
    Ok(())
}

#[test]
fn rankings_are_in_order_of_points_and_then_of_names() -> R {
    let admin = Identity::generate().peer_id().text();
    let mut s = State::new(set(&[&admin]))?;
    let go = |s: &mut State, actor: &str, action: Action| {
        let (revision, now) = (s.revision, s.clock_ms + 1);
        s.apply(actor, revision, now, action)
    };
    let names = ["a", "b", "c"];
    let devices: Vec<String> = names.iter().map(|_| Identity::generate().peer_id().text()).collect();
    for (name, device) in names.iter().zip(&devices) {
        go(&mut s, &admin, Action::Enroll {
            member: name.to_string(),
            club: "jlu".into(),
            device: device.clone(),
        })?;
    }
    go(&mut s, &admin, Action::CreateSeason { id: "s".into(), title: "Season".into() })?;
    go(&mut s, &admin, Action::CreateLeague {
        league: "cup".into(),
        rules: Rules::default(),
        host: admin.clone(),
        scorer: admin.clone(),
    })?;
    let opens_ms = s.clock_ms + 2;
    go(&mut s, &admin, Action::ScheduleLeague {
        season: "s".into(),
        league: "cup".into(),
        schedule: Schedule { opens_ms, closes_ms: opens_ms + 6, starts_ms: opens_ms + 7 },
    })?;
    for (name, device) in names.iter().zip(&devices) {
        let team = format!("team-{name}");
        go(&mut s, device, Action::CreateTeam { league: "cup".into(), team: team.clone() })?;
        go(&mut s, device, Action::Register { league: "cup".into(), team })?;
    }
    for name in names {
        go(&mut s, &admin, Action::Presence {
            league: "cup".into(),
            member: name.into(),
            online: true,
            health: ConnectionHealth::default(),
        })?;
    }
    assert!(s.season_rankings("s")?.players.is_empty());
    go(&mut s, &admin, Action::Start { league: "cup".into(), seed: [0; 32] })?;
    go(&mut s, &admin, Action::Score {
        league: "cup".into(),
        event: "e".into(),
        players: scores(&[("a", 1), ("b", 4), ("c", 1)]),
        teams: scores(&[("team-c", 9), ("team-a", -1)]),
    })?;
    go(&mut s, &admin, Action::Finish { league: "cup".into() })?;
    let ranks = s.season_rankings("s")?;
    let told = |list: &[(String, i64)]| -> Vec<String> {
        list.iter().map(|(name, points)| format!("{name} {points}")).collect()
    };
    assert_eq!(told(&ranks.players), vec!["b 4", "a 1", "c 1"]);
    assert_eq!(told(&ranks.teams), vec!["team-c 9", "team-b 0", "team-a -1"]);
    assert!(matches!(s.season_rankings("none"), Err(Error::NotFound)));
    let league = s.leagues.get("cup").unwrap();
    assert_eq!(league.team_of("b"), Some("team-b"));
    assert_eq!(league.team_of("x"), None);
    Ok(())
}

#[test]
fn seasons_add_up_their_finished_leagues() -> R {
    let admin = Identity::generate().peer_id().text();
    let device = Identity::generate().peer_id().text();
    let mut s = State::new(set(&[&admin]))?;
    let mut time = 0;
    let mut go = |s: &mut State, actor: &str, action: Action| {
        time += 1;
        let revision = s.revision;
        s.apply(actor, revision, time, action)
    };
    let enroll = Action::Enroll { member: "p".into(), club: "jlu".into(), device: device.clone() };
    go(&mut s, &admin, enroll)?;
    go(&mut s, &admin, Action::CreateSeason { id: "autumn".into(), title: "Autumn".into() })?;
    for (cup, points) in [("a", 3), ("b", 4)] {
        let league = cup.to_string();
        go(&mut s, &admin, Action::CreateLeague {
            league: league.clone(),
            rules: Rules::default(),
            host: admin.clone(),
            scorer: admin.clone(),
        })?;
        let opens_ms = s.clock_ms + 2;
        go(&mut s, &admin, Action::ScheduleLeague {
            season: "autumn".into(),
            league: league.clone(),
            schedule: Schedule { opens_ms, closes_ms: opens_ms + 2, starts_ms: opens_ms + 3 },
        })?;
        go(&mut s, &device, Action::CreateTeam { league: league.clone(), team: "team".into() })?;
        go(&mut s, &device, Action::Register { league: league.clone(), team: "team".into() })?;
        go(&mut s, &admin, Action::Presence {
            league: league.clone(),
            member: "p".into(),
            online: true,
            health: ConnectionHealth::default(),
        })?;
        go(&mut s, &admin, Action::Start { league: league.clone(), seed: [0; 32] })?;
        go(&mut s, &admin, Action::Score {
            league: league.clone(),
            event: "e".into(),
            players: scores(&[("p", points)]),
            teams: scores(&[("team", points * 10)]),
        })?;
        go(&mut s, &admin, Action::Finish { league })?;
    }
    let ranks = s.season_rankings("autumn")?;
    assert_eq!(ranks.players, vec![("p".to_string(), 7)]);
    assert_eq!(ranks.teams, vec![("team".to_string(), 70)]);
    Ok(())
}

#[test]
fn refused_commands_change_nothing_and_accepted_ones_count_up() -> R {
    let admin = Identity::generate().peer_id().text();
    let mut s = State::new(set(&[&admin]))?;
    let enroll = |member: &str| Action::Enroll {
        member: member.into(),
        club: "jlu".into(),
        device: Identity::generate().peer_id().text(),
    };
    s.apply(&admin, 0, 10, enroll("a"))?;
    assert_eq!((s.revision, s.clock_ms), (1, 10));
    let before = s.clone();
    assert!(matches!(
        s.apply(&admin, 0, 11, enroll("b")),
        Err(Error::Protocol(text)) if text == "revision conflict"
    ));
    assert!(matches!(
        s.apply(&admin, 1, 9, enroll("b")),
        Err(Error::Protocol(text)) if text == "clock moved backwards"
    ));
    assert!(matches!(s.apply("nobody", 1, 11, enroll("b")), Err(Error::Denied)));
    assert_eq!(s, before);
    assert!(s.is_well_formed());
    assert!(matches!(
        State::new(StrSet::new()),
        Err(Error::Protocol(text)) if text == "at least one explicit administrator required"
    ));
    assert!(matches!(
        State::new(set(&["nobody"])),
        Err(Error::Protocol(text)) if text == "invalid admin PeerId"
    ));
    let mut last = s.clone();
    last.revision = u64::MAX;
    assert!(matches!(
        last.apply(&admin, u64::MAX, 11, enroll("b")),
        Err(Error::Protocol(text)) if text == "revision overflow"
    ));
    Ok(())
}

#[test]
fn voters_are_odd_in_number_and_keep_their_numbers() -> R {
    let admin = Identity::generate().peer_id().text();
    let mut s = State::new(set(&[&admin]))?;
    let voter = || {
        let peer = Identity::generate().peer_id().text();
        ConsensusPeer { addresses: vec![format!("/ip4/127.0.0.1/tcp/1/p2p/{peer}")], peer }
    };
    let of = |items: &[(u64, &ConsensusPeer)]| {
        let mut r = OrdMap::new();
        for (id, peer) in items {
            r.insert(*id, (*peer).clone());
        }
        r
    };
    let (a, b, c) = (voter(), voter(), voter());
    validate_consensus_members(&of(&[(1, &a)]))?;
    validate_consensus_members(&of(&[(1, &a), (2, &b), (3, &c)]))?;
    for bad in [of(&[]), of(&[(1, &a), (2, &b)]), of(&[(0, &a)]), of(&[(1, &a), (2, &a), (3, &b)])] {
        assert!(matches!(validate_consensus_members(&bad), Err(Error::Denied)));
    }
    let mut astray = a.clone();
    astray.addresses = b.addresses.clone();
    assert!(matches!(validate_consensus_members(&of(&[(1, &astray)])), Err(Error::Denied)));
    astray.addresses = vec!["x".repeat(2049)];
    assert!(matches!(validate_consensus_members(&of(&[(1, &astray)])), Err(Error::Capacity)));
    let choose = |s: &mut State, members: OrdMap<u64, ConsensusPeer>| {
        let (revision, now) = (s.revision, s.clock_ms + 1);
        s.apply(&admin, revision, now, Action::SetConsensusMembers { members })
    };
    choose(&mut s, of(&[(1, &a)]))?;
    assert!(choose(&mut s, of(&[(1, &b)])).is_err());
    choose(&mut s, of(&[(2, &b)]))?;
    assert!(s.retired_consensus_ids.contains(&1));
    // A number that was given up stays given up, even for the voter that had it.
    assert!(choose(&mut s, of(&[(1, &a)])).is_err());
    Ok(())
}

#[test]
fn digests_are_written_in_hex() {
    assert_eq!(
        digest(b"abc"),
        "ba7816bf8f01cfea414140de5dae2223b00361a396177a9cb410ff61f20015ad"
    );
    assert_eq!(
        digest(b""),
        "e3b0c44298fc1c149afbf4c8996fb92427ae41e4649b934ca495991b7852b855"
    );
}
