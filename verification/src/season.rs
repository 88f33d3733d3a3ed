//! Seasons: schedules, the review of results, and the two public rankings.
use vstd::prelude::*;
use vstd::string::*;

use crate::collections;
use crate::collections::{StrMap, StrSet};
use crate::error;
use crate::error::{Error, Outcome, Result};
use crate::governance::{find_owner, Action, League, Phase, State};
use crate::model::rules;
use crate::model::views::{DisputeView, LeagueView, SeasonView, TeamView, Text};
use crate::order;
use crate::order::{rank_text, same_text, Duplicate, Key, Rank};
use crate::text::text;

verus! {

/// When teams may register, and when the match may start.
#[derive(Debug, Clone, Copy, PartialEq, Eq, Structural)]
pub struct Schedule {
    pub opens_ms: u64,
    pub closes_ms: u64,
    pub starts_ms: u64,
}

/// A series of leagues with joint rankings.
#[derive(Debug, PartialEq, Eq)]
pub struct Season {
    pub title: String,
    pub leagues: StrSet,
}

/// An objection to the result of a league.
#[derive(Debug, PartialEq, Eq)]
pub struct Dispute {
    pub league: String,
    pub member: String,
    pub reason: String,
    pub created_ms: u64,
    pub resolution: Option<Resolution>,
}

/// How an objection was settled, and by how much scores were corrected.
#[derive(Debug, PartialEq, Eq)]
pub struct Resolution {
    pub reviewer: String,
    pub time_ms: u64,
    pub response: String,
    pub players: StrMap<i64>,
    pub teams: StrMap<i64>,
}

/// The standings of a season, the best first.
#[derive(Debug, PartialEq, Eq)]
pub struct Rankings {
    pub teams: Vec<(String, i64)>,
    pub players: Vec<(String, i64)>,
}

/// Adds scores to totals; whether every sum fits.
fn add_scores(totals: &mut StrMap<i64>, scores: &StrMap<i64>) -> (r: bool)
    ensures
        match rules::summed(old(totals)@, scores@) {
            Some(next) => r && final(totals)@ == next,
            None => !r,
        },
{
    let ghost start = totals@;
    let ghost keys = scores.keys();
    let n: usize = scores.len();
    let mut i: usize = 0;
    while i < n
        invariant
            i <= n,
            n == keys.len(),
            start == old(totals)@,
            keys == scores.keys(),
            collections::lists::<String, i64>(scores@, keys),
            forall|k: Text| #[trigger]
                totals@.contains_key(k) <==> start.contains_key(k) || collections::among(
                    keys,
                    i as int,
                    k,
                ),
            forall|k: Text| #[trigger]
                totals@.contains_key(k) ==> totals@[k] == (if collections::among(
                    keys,
                    i as int,
                    k,
                ) {
                    if start.contains_key(k) {
                        start[k] + scores@[k]
                    } else {
                        scores@[k] as int
                    }
                } else {
                    start[k] as int
                }),
            forall|k: Text|
                #![trigger collections::among(keys, i as int, k)]
                collections::among(keys, i as int, k) && start.contains_key(k)
                    ==> !rules::overflows(start[k], scores@[k]),
        decreases n - i,
    {
        let id = scores.key(i);
        let ghost k = keys[i as int];
        let ghost before = totals@;
        let score: i64 = *scores.value(i);
        assert(scores@.dom().contains(k));
        assert(!collections::among(keys, i as int, k)) by {
            if collections::among(keys, i as int, k) {
                let j = choose|j: int| 0 <= j < i && #[trigger] keys[j] == k;
                <String as Key>::irreflexive(k);
            }
        }
        let total: i64 = match totals.get(id.as_str()) {
            Some(total) => *total,
            None => 0,
        };
        let sum: i64 = match total.checked_add(score) {
            Some(sum) => sum,
            None => {
                proof {
                    assert(scores@.contains_key(k) && start.contains_key(k) && rules::overflows(
                        start[k],
                        scores@[k],
                    ));
                }
                return false;
            },
        };
        totals.insert(id.clone(), sum);
        assert(totals@ == before.insert(k, sum));
        proof {
            collections::lemma_among_next(keys, i as int);
        }
        i = i + 1;
    }
    proof {
        collections::lemma_among_all::<String>(scores@.dom(), keys);
        assert forall|id: Text| #[trigger]
            scores@.contains_key(id) && start.contains_key(id) implies !rules::overflows(
            start[id],
            scores@[id],
        ) by {
            assert(scores@.dom().contains(id));
            assert(collections::among(keys, i as int, id));
        }
        assert(totals@ =~= rules::summed(start, scores@)->0);
    }
    true
}

/// The entries of the list are those of the first `n` keys.
spec fn holds(totals: Map<Text, i64>, keys: Seq<Text>, n: int, list: Seq<(Text, i64)>) -> bool {
    &&& forall|i: int|
        #![trigger list[i]]
        0 <= i < list.len() ==> collections::among(keys, n, list[i].0) && totals[list[i].0]
            == list[i].1
    &&& forall|k: Text|
        #![trigger collections::among(keys, n, k)]
        collections::among(keys, n, k) ==> exists|i: int|
            0 <= i < list.len() && #[trigger] list[i].0 == k
    &&& forall|i: int, j: int|
        #![trigger list[i], list[j]]
        0 <= i < j < list.len() ==> rules::outranks(list[i], list[j])
}

/// Of two different names, one outranks the other.
proof fn lemma_outranks_total(a: (Text, i64), b: (Text, i64))
    requires
        a.0 != b.0,
    ensures
        rules::outranks(a, b) || rules::outranks(b, a),
{
    <String as Key>::total(a.0, b.0);
}

proof fn lemma_outranks_transitive(a: (Text, i64), b: (Text, i64), c: (Text, i64))
    requires
        rules::outranks(a, b),
        rules::outranks(b, c),
    ensures
        rules::outranks(a, c),
{
    if a.1 == b.1 && b.1 == c.1 {
        <String as Key>::transitive(a.0, b.0, c.0);
    }
}

/// Whether an entry outranks another one.
fn ranks_before(a: &(String, i64), b: &(String, i64)) -> (r: bool)
    ensures
        r == rules::outranks(a.deep_view(), b.deep_view()),
{
    a.1 > b.1 || (a.1 == b.1 && rank_text(a.0.as_str(), b.0.as_str()) == Rank::Before)
}

/// The entries in the order of the ranking.
fn ranked(totals: &StrMap<i64>) -> (r: Vec<(String, i64)>)
    ensures
        rules::is_ranking(totals@, r.deep_view()),
{
    let ghost keys = totals.keys();
    let n: usize = totals.len();
    let mut r: Vec<(String, i64)> = Vec::new();
    let mut i: usize = 0;
    while i < n
        invariant
            i <= n,
            n == keys.len(),
            keys == totals.keys(),
            collections::lists::<String, i64>(totals@, keys),
            holds(totals@, keys, i as int, r.deep_view()),
        decreases n - i,
    {
        let entry: (String, i64) = (totals.key(i).clone(), *totals.value(i));
        let ghost k = keys[i as int];
        let ghost e = entry.deep_view();
        let ghost list = r.deep_view();
        assert(e == (k, totals@[k]));
        assert forall|m: int| 0 <= m < list.len() implies (#[trigger] list[m]).0 != k by {
            let j = choose|j: int| 0 <= j < i && #[trigger] keys[j] == list[m].0;
            <String as Key>::irreflexive(k);
        }
        let mut at: usize = 0;
        while at < r.len() && ranks_before(&r[at], &entry)
            invariant
                at <= r.len(),
                list == r.deep_view(),
                e == entry.deep_view(),
                forall|m: int| 0 <= m < at ==> rules::outranks(#[trigger] list[m], e),
            ensures
                at <= r.len(),
                forall|m: int| 0 <= m < at ==> rules::outranks(#[trigger] list[m], e),
                at < r.len() ==> !rules::outranks(list[at as int], e),
            decreases r.len() - at,
        {
            assert(list[at as int] == r@[at as int].deep_view());
            at = at + 1;
        }
        r.insert(at, entry);
        proof {
            let next = r.deep_view();
            assert(next =~= list.insert(at as int, e));
            collections::lemma_among_next(keys, i as int);
            assert forall|m: int| at <= m < list.len() implies rules::outranks(
                e,
                #[trigger] list[m],
            ) by {
                lemma_outranks_total(list[at as int], e);
                if m > at {
                    lemma_outranks_transitive(e, list[at as int], list[m]);
                }
            }
            assert forall|x: int, y: int| 0 <= x < y < next.len() implies rules::outranks(
                #[trigger] next[x],
                #[trigger] next[y],
            ) by {
                let sx = if x < at {
                    x
                } else {
                    x - 1
                };
                let sy = if y < at {
                    y
                } else {
                    y - 1
                };
                if x == at {
                    assert(next[y] == list[sy]);
                } else if y == at {
                    assert(next[x] == list[sx]);
                } else {
                    assert(next[x] == list[sx] && next[y] == list[sy]);
                }
            }
            assert forall|m: int| 0 <= m < next.len() implies collections::among(
                keys,
                i + 1,
                (#[trigger] next[m]).0,
            ) && totals@[next[m].0] == next[m].1 by {
                if m < at {
                    assert(next[m] == list[m]);
                } else if m > at {
                    assert(next[m] == list[m - 1]);
                }
            }
            assert forall|o: Text|
                #![trigger collections::among(keys, i + 1, o)]
                collections::among(keys, i + 1, o) implies exists|m: int|
                0 <= m < next.len() && #[trigger] next[m].0 == o by {
                if o == k {
                    assert(next[at as int].0 == o);
                } else {
                    assert(collections::among(keys, i as int, o));
                    let m = choose|m: int| 0 <= m < list.len() && #[trigger] list[m].0 == o;
                    if m < at {
                        assert(next[m].0 == o);
                    } else {
                        assert(next[m + 1].0 == o);
                    }
                }
            }
        }
        i = i + 1;
    }
    proof {
        let list = r.deep_view();
        collections::lemma_among_all::<String>(totals@.dom(), keys);
        assert forall|m: int| 0 <= m < list.len() implies totals@.contains_key(
            (#[trigger] list[m]).0,
        ) && totals@[list[m].0] == list[m].1 by {
            assert(collections::among(keys, i as int, list[m].0));
            assert(totals@.dom().contains(list[m].0));
        }
        assert forall|k: Text| #[trigger] totals@.contains_key(k) implies exists|m: int|
            0 <= m < list.len() && #[trigger] list[m].0 == k by {
            assert(totals@.dom().contains(k));
            assert(collections::among(keys, i as int, k));
        }
    }
    r
}

impl State {
    fn create_season(&mut self, admin: bool, id: String, title: String) -> (r: Result<()>)
        ensures
            error::settles(r, old(self)@, final(self)@, rules::create_season(old(self)@, admin, id@, title@)),
    {
        if !admin || self.seasons.contains_key(id.as_str()) || self.seasons.len() >= 1024 {
            return Err(Error::Denied);
        }
        if text(id.as_str(), 128).is_err() || text(title.as_str(), 256).is_err() {
            return Err(Error::Denied);
        }
        self.seasons.insert(id, Season { title, leagues: StrSet::new() });
        Ok(())
    }

    /// Whether another season has the league.
    fn in_other_season(&self, season: &str, league: &str) -> (r: bool)
        ensures
            r == rules::in_other_season(self@, season@, league@),
    {
        let ghost keys = self.seasons.keys();
        let n: usize = self.seasons.len();
        let mut i: usize = 0;
        while i < n
            invariant
                i <= n,
                n == keys.len(),
                keys == self.seasons.keys(),
                collections::lists::<String, SeasonView>(self.seasons@, keys),
                forall|j: int|
                    0 <= j < i && #[trigger] keys[j] != season@
                        ==> !self.seasons@[keys[j]].leagues.contains(league@),
            decreases n - i,
        {
            let ghost k = keys[i as int];
            assert(self.seasons@.dom().contains(k));
            if !same_text(self.seasons.key(i).as_str(), season) && self.seasons.value(
                i,
            ).leagues.contains(league) {
                assert(self@.seasons.contains_key(k));
                return true;
            }
            i = i + 1;
        }
        assert forall|id: Text| #[trigger]
            self@.seasons.contains_key(id) && id != season@ implies !self@.seasons[id].leagues.contains(
        league@) by {
            assert(self.seasons@.dom().contains(id));
            let j = keys.index_of(id);
            assert(keys[j] == id);
        }
        false
    }

    fn schedule_league(
        &mut self,
        admin: bool,
        now: u64,
        season: String,
        league: String,
        schedule: Schedule,
    ) -> (r: Result<()>)
        ensures
            error::settles(
                r,
                old(self)@,
                final(self)@,
                rules::schedule_league(old(self)@, admin, now, season@, league@, schedule),
            ),
    {
        if !admin || schedule.opens_ms >= schedule.closes_ms || schedule.closes_ms
            > schedule.starts_ms || schedule.closes_ms <= now {
            return Err(Error::Denied);
        }
        if self.in_other_season(season.as_str(), league.as_str()) {
            return Err(Error::Denied);
        }
        let ghost start = self@;
        let ghost season_id = season@;
        let ghost league_id = league@;
        let mut l = match self.leagues.get(league.as_str()) {
            Some(l) => l.duplicate(),
            None => {
                return Err(Error::NotFound);
            },
        };
        if l.phase != Phase::Registration || l.any_registered() {
            return Err(Error::Denied);
        }
        let mut held = match self.seasons.get(season.as_str()) {
            Some(held) => held.duplicate(),
            None => {
                return Err(Error::NotFound);
            },
        };
        held.leagues.insert(league.clone());
        self.seasons.insert(season, held);
        l.schedule = Some(schedule);
        self.leagues.insert(league, l);
        proof {
            let expected = rules::schedule_league(
                start,
                admin,
                now,
                season_id,
                league_id,
                schedule,
            )->Ok_0;
            assert(self@.leagues =~= expected.leagues);
            assert(self@.seasons =~= expected.seasons);
        }
        Ok(())
    }

    fn pause_league(&mut self, actor: &str, now: u64, league: String, paused: bool) -> (r: Result<
        (),
    >)
        ensures
            error::settles(
                r,
                old(self)@,
                final(self)@,
                rules::pause_league(old(self)@, actor@, now, league@, paused),
            ),
    {
        let ghost start = self@;
        let ghost id = league@;
        let mut l = match self.leagues.get(league.as_str()) {
            Some(l) => l.duplicate(),
            None => {
                return Err(Error::NotFound);
            },
        };
        if !same_text(actor, l.organizer.as_str()) || l.phase != Phase::Playing {
            return Err(Error::Denied);
        }
        l.manual_pause = paused;
        assert(l@ =~= (LeagueView { manual_pause: paused, ..start.leagues[id] }));
        l.update_pause(now);
        self.leagues.insert(league, l);
        proof {
            let expected = rules::pause_league(start, actor@, now, id, paused)->Ok_0;
            assert(self@.leagues =~= expected.leagues);
        }
        Ok(())
    }

    /// Whether the member has an objection to the league that is not settled.
    fn disputes_already(&self, member: &str, league: &str) -> (r: bool)
        ensures
            r == rules::disputes_already(self@, member@, league@),
    {
        let ghost keys = self.disputes.keys();
        let n: usize = self.disputes.len();
        let mut i: usize = 0;
        while i < n
            invariant
                i <= n,
                n == keys.len(),
                keys == self.disputes.keys(),
                collections::lists::<String, DisputeView>(self.disputes@, keys),
                forall|j: int|
                    0 <= j < i ==> !(self.disputes@[#[trigger] keys[j]].member == member@
                        && self.disputes@[keys[j]].league == league@
                        && self.disputes@[keys[j]].resolution is None),
            decreases n - i,
        {
            let ghost k = keys[i as int];
            assert(self.disputes@.dom().contains(k));
            let d = self.disputes.value(i);
            if same_text(d.member.as_str(), member) && same_text(d.league.as_str(), league)
                && d.resolution.is_none() {
                assert(self@.disputes.contains_key(k));
                return true;
            }
            i = i + 1;
        }
        assert forall|id: Text| #[trigger] self@.disputes.contains_key(id) implies !(
        self@.disputes[id].member == member@ && self@.disputes[id].league == league@
            && self@.disputes[id].resolution is None) by {
            assert(self.disputes@.dom().contains(id));
            let j = keys.index_of(id);
            assert(keys[j] == id);
        }
        false
    }

    fn dispute(&mut self, actor: &str, now: u64, id: String, league: String, reason: String) -> (r:
        Result<()>)
        ensures
            error::settles(
                r,
                old(self)@,
                final(self)@,
                rules::dispute(old(self)@, actor@, now, id@, league@, reason@),
            ),
    {
        if text(id.as_str(), 128).is_err() || text(reason.as_str(), 4096).is_err() {
            return Err(Error::Denied);
        }
        if self.disputes.contains_key(id.as_str()) || self.disputes.len() >= 10000 {
            return Err(Error::Denied);
        }
        let member = match find_owner(&self.members, actor) {
            Some(member) => member,
            None => {
                return Err(Error::Denied);
            },
        };
        match self.leagues.get(league.as_str()) {
            Some(l) => {
                if l.phase != Phase::Finished || !l.plays_for_registered_team(member.as_str()) {
                    return Err(Error::Denied);
                }
            },
            None => {
                return Err(Error::NotFound);
            },
        }
        if self.disputes_already(member.as_str(), league.as_str()) {
            return Err(Error::Denied);
        }
        self.disputes.insert(
            id,
            Dispute { league, member, reason, created_ms: now, resolution: None },
        );
        Ok(())
    }

    fn resolve(
        &mut self,
        actor: &str,
        admin: bool,
        now: u64,
        id: String,
        response: String,
        players: StrMap<i64>,
        teams: StrMap<i64>,
    ) -> (r: Result<()>)
        ensures
            error::settles(
                r,
                old(self)@,
                final(self)@,
                rules::resolve(
                    old(self)@,
                    actor@,
                    admin,
                    now,
                    id@,
                    response@,
                    players@,
                    teams@,
                ),
            ),
    {
        if !admin {
            return Err(Error::Denied);
        }
        if text(response.as_str(), 4096).is_err() {
            return Err(Error::Denied);
        }
        let ghost start = self@;
        let ghost expected = rules::resolve(
            start,
            actor@,
            admin,
            now,
            id@,
            response@,
            players@,
            teams@,
        );
        let mut d = match self.disputes.get(id.as_str()) {
            Some(d) => d.duplicate(),
            None => {
                return Err(Error::NotFound);
            },
        };
        if d.resolution.is_some() {
            return Err(Error::Denied);
        }
        let mut l = match self.leagues.get(d.league.as_str()) {
            Some(l) => l.duplicate(),
            None => {
                return Err(Error::NotFound);
            },
        };
        if l.phase != Phase::Finished {
            return Err(Error::Denied);
        }
        // Corrections are added, so that the scorer's own events stand. A claim that is turned
        // down corrects nothing.
        match l.rescore(&players, &teams, Error::Denied, Error::Capacity) {
            Ok(_) => {},
            Err(e) => {
                return Err(e);
            },
        }
        self.leagues.insert(d.league.clone(), l);
        d.resolution =
        Some(
            Resolution { reviewer: actor.to_owned(), time_ms: now, response, players, teams },
        );
        self.disputes.insert(id, d);
        proof {
            assert(self@.leagues =~= expected->Ok_0.leagues);
            assert(self@.disputes =~= expected->Ok_0.disputes);
        }
        Ok(())
    }

    /// Creates seasons, schedules and pauses leagues, takes and settles objections.
    pub(crate) fn season_transition(&mut self, actor: &str, now: u64, action: Action, admin: bool)
        -> (r: Result<()>)
        requires
            action@ is CreateSeason || action@ is ScheduleLeague || action@ is PauseLeague
                || action@ is DisputeResult || action@ is ResolveDispute,
        ensures
            rules::protected(action@) ==> error::settles(
                r,
                old(self)@,
                final(self)@,
                rules::manage(old(self)@, actor@, admin, admin, now, action@),
            ),
            !rules::protected(action@) ==> error::settles(
                r,
                old(self)@,
                final(self)@,
                rules::step(old(self)@, actor@, now, action@, false),
            ),
    {
        match action {
            Action::CreateSeason { id, title } => self.create_season(admin, id, title),
            Action::ScheduleLeague { season, league, schedule } => self.schedule_league(
                admin,
                now,
                season,
                league,
                schedule,
            ),
            Action::PauseLeague { league, paused } => self.pause_league(
                actor,
                now,
                league,
                paused,
            ),
            Action::DisputeResult { id, league, reason } => self.dispute(
                actor,
                now,
                id,
                league,
                reason,
            ),
            Action::ResolveDispute { id, response, players, teams } => self.resolve(
                actor,
                admin,
                now,
                id,
                response,
                players,
                teams,
            ),
            _ => Err(Error::Denied),
        }
    }

    /// The rankings of the teams and of the players over the finished leagues of a season.
    pub fn season_rankings(&self, id: &str) -> (r: Result<Rankings>)
        ensures
            match rules::season_totals(self@, id@) {
                Ok((teams, players)) => r is Ok && rules::is_ranking(
                    teams,
                    r->Ok_0.teams.deep_view(),
                ) && rules::is_ranking(players, r->Ok_0.players.deep_view()),
                Err(e) => r is Err && r->Err_0@ == e,
            },
    {
        let season = match self.seasons.get(id) {
            Some(season) => season,
            None => {
                return Err(Error::NotFound);
            },
        };
        let list = season.leagues.item_list();
        let ghost ids = list.deep_view();
        let ghost leagues = self@.leagues;
        let mut teams: StrMap<i64> = StrMap::new();
        let mut players: StrMap<i64> = StrMap::new();
        let mut i: usize = 0;
        while i < list.len()
            invariant
                i <= list.len(),
                ids == list.deep_view(),
                leagues == self@.leagues,
                rules::season_totals(self@, id@) == rules::tally(leagues, ids, ids.len()),
                rules::tally(leagues, ids, i as nat) == Outcome::<
                    (Map<Text, i64>, Map<Text, i64>),
                >::Ok((teams@, players@)),
            decreases list.len() - i,
        {
            assert(ids[i as int] == list@[i as int].deep_view());
            let ghost next = rules::tally(leagues, ids, (i + 1) as nat);
            let l = match self.leagues.get(list[i].as_str()) {
                Some(l) => l,
                None => {
                    proof {
                        lemma_tally_stops(leagues, ids, (i + 1) as nat, ids.len());
                    }
                    return Err(Error::NotFound);
                },
            };
            if l.phase == Phase::Finished {
                if !add_scores(&mut teams, &l.team_scores) || !add_scores(
                    &mut players,
                    &l.player_scores,
                ) {
                    proof {
                        lemma_tally_stops(leagues, ids, (i + 1) as nat, ids.len());
                    }
                    return Err(Error::Capacity);
                }
            }
            i = i + 1;
        }
        Ok(Rankings { teams: ranked(&teams), players: ranked(&players) })
    }
}

impl League {
    /// Whether some team is registered.
    fn any_registered(&self) -> (r: bool)
        ensures
            r == rules::any_registered(self@),
    {
        let ghost keys = self.teams.keys();
        let n: usize = self.teams.len();
        let mut i: usize = 0;
        while i < n
            invariant
                i <= n,
                n == keys.len(),
                keys == self.teams.keys(),
                collections::lists::<String, TeamView>(self.teams@, keys),
                forall|j: int| 0 <= j < i ==> !self.teams@[#[trigger] keys[j]].registered,
            decreases n - i,
        {
            let ghost k = keys[i as int];
            assert(self.teams@.dom().contains(k));
            if self.teams.value(i).registered {
                assert(self@.teams.contains_key(k));
                return true;
            }
            i = i + 1;
        }
        assert forall|id: Text| #[trigger] self@.teams.contains_key(
            id,
        ) implies !self@.teams[id].registered by {
            assert(self.teams@.dom().contains(id));
            let j = keys.index_of(id);
            assert(keys[j] == id);
        }
        false
    }
}

/// A failure in the middle is the failure of the whole.
proof fn lemma_tally_stops(leagues: Map<Text, LeagueView>, ids: Seq<Text>, n: nat, m: nat)
    requires
        n <= m,
        rules::tally(leagues, ids, n) is Err,
    ensures
        rules::tally(leagues, ids, m) == rules::tally(leagues, ids, n),
    decreases m,
{
    if n < m {
        lemma_tally_stops(leagues, ids, n, (m - 1) as nat);
    }
}

} // verus!
