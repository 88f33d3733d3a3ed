//! How a league is run: teams, seats, connections, pauses and scores.
use vstd::prelude::*;
use vstd::string::*;
use vstd::utf8::*;

use crate::collections;
use crate::collections::{StrMap, StrSet};
use crate::error;
use crate::error::{invalid, Error, Outcome, Result};
use crate::laws;
use crate::governance::{digest, ConnectionHealth, League, Member, Phase, Route, Rules, Seat, Team};
use crate::model::rules;
use crate::model::views::{LeagueView, SeatView, TeamView, Text};
use crate::order;
use crate::order::{rank_bytes, same_text, Duplicate, Key, Rank};
use crate::outside;
use crate::text::identifier;

verus! {

/// `a` plus `b`, or the largest number where that does not fit.
fn plus(a: u64, b: u64) -> (r: u64)
    ensures
        r == rules::saturated(a + b),
{
    a.saturating_add(b)
}

/// `a` times a small factor, or the largest number where that does not fit.
fn times(a: u64, factor: u64) -> (r: u64)
    requires
        1 <= factor <= 8,
    ensures
        r == rules::saturated(a * factor),
{
    match a.checked_mul(factor) {
        Some(product) => product,
        None => u64::MAX,
    }
}

impl Rules {
    /// The rules that a league has unless others are chosen.
    pub open spec fn standard() -> Rules {
        Rules {
            cross_club: false,
            seats: 4,
            reconnect_min_ms: 15_000,
            reconnect_max_ms: 90_000,
        }
    }
}

impl Default for Rules {
    fn default() -> (r: Self)
        ensures
            r == Rules::standard(),
    {
        Rules { cross_club: false, seats: 4, reconnect_min_ms: 15_000, reconnect_max_ms: 90_000 }
    }
}

impl Default for ConnectionHealth {
    fn default() -> (r: Self)
        ensures
            r == (ConnectionHealth { rtt_ms: 0, jitter_ms: 0, recovery_ms: 0 }),
    {
        ConnectionHealth { rtt_ms: 0, jitter_ms: 0, recovery_ms: 0 }
    }
}

impl ConnectionHealth {
    /// How long a seat is kept for a player with such a connection.
    pub fn grace(&self, rules: &Rules) -> (r: u64)
        requires
            rules.reconnect_min_ms <= rules.reconnect_max_ms,
        ensures
            r == rules::grace(*self, *rules),
            rules.reconnect_min_ms <= r <= rules.reconnect_max_ms,
    {
        // Observed recovery of the game session counts too; the round trip alone says too little.
        let base: u64 = plus(times(self.rtt_ms, 8), times(self.jitter_ms, 4));
        let measured: u64 = plus(base, times(self.recovery_ms, 2));
        if measured < rules.reconnect_min_ms {
            rules.reconnect_min_ms
        } else if measured > rules.reconnect_max_ms {
            rules.reconnect_max_ms
        } else {
            measured
        }
    }
}

/// The most significant byte first.
fn be_bytes(n: u64) -> (r: Vec<u8>)
    ensures
        r@ == rules::be_bytes(n),
{
    let mut r: Vec<u8> = Vec::new();
    let mut i: u64 = 0;
    while i < 8
        invariant
            i <= 8,
            r@.len() == i,
            forall|j: int| 0 <= j < i ==> #[trigger] r@[j] == rules::be_bytes(n)[j],
        decreases 8 - i,
    {
        r.push(((n >> (56 - 8 * i)) & 0xff) as u8);
        i = i + 1;
    }
    assert(r@ =~= rules::be_bytes(n));
    r
}

/// What decides the place of a player in a draw.
fn lot(seed: &[u8; 32], draw: u64, player: &str) -> (r: Vec<u8>)
    ensures
        r@ == rules::lot(seed@, draw, player@),
{
    let mut input: Vec<u8> = Vec::new();
    input.extend_from_slice(seed.as_slice());
    let number: Vec<u8> = be_bytes(draw);
    input.extend_from_slice(number.as_slice());
    input.extend_from_slice(player.as_bytes());
    assert(input@ =~= seed@ + rules::be_bytes(draw) + encode_utf8(player@));
    outside::hash(input.as_slice())
}

/// No player comes both before and after another one.
proof fn lemma_drawn_before_asymmetric(seed: Seq<u8>, draw: u64, a: Text, b: Text)
    requires
        rules::drawn_before(seed, draw, a, b),
    ensures
        !rules::drawn_before(seed, draw, b, a),
{
    let x = rules::lot(seed, draw, a);
    let y = rules::lot(seed, draw, b);
    order::lemma_bytes_before_irreflexive(x);
    if order::bytes_before(x, y) {
        if order::bytes_before(y, x) {
            order::lemma_bytes_before_transitive(x, y, x);
        }
    } else if order::text_before(b, a) {
        <String as Key>::transitive(a, b, a);
        <String as Key>::irreflexive(a);
    }
}

/// A draw selects at most one player.
proof fn lemma_drawn_unique(l: LeagueView, team: Text, player: Text)
    requires
        rules::is_drawn(l, team, player),
    ensures
        rules::draw(l, team) == Some(player),
{
    let other = choose|other: Text| rules::is_drawn(l, team, other);
    if other != player {
        assert(rules::eligible(l, team, other) && rules::eligible(l, team, player));
        lemma_drawn_before_asymmetric(l.random_seed, l.draw, player, other);
    }
}

/// `a` before `b` before `c` is `a` before `c`.
pub proof fn lemma_drawn_before_transitive(seed: Seq<u8>, draw: u64, a: Text, b: Text, c: Text)
    requires
        rules::drawn_before(seed, draw, a, b),
        rules::drawn_before(seed, draw, b, c),
    ensures
        rules::drawn_before(seed, draw, a, c),
{
    let x = rules::lot(seed, draw, a);
    let y = rules::lot(seed, draw, b);
    let z = rules::lot(seed, draw, c);
    if order::bytes_before(x, y) && order::bytes_before(y, z) {
        order::lemma_bytes_before_transitive(x, y, z);
    } else if !order::bytes_before(x, y) && !order::bytes_before(y, z) {
        <String as Key>::transitive(a, b, c);
    }
}

/// The first seat that the member occupies.
pub proof fn lemma_first_seat(seats: Seq<SeatView>, member: Text, i: int)
    requires
        0 <= i < seats.len(),
        seats[i].player == member,
        forall|j: int| 0 <= j < i ==> (#[trigger] seats[j]).player != member,
    ensures
        rules::first_seat(seats, member) == seats[i],
    decreases seats.len(),
{
    if i > 0 {
        assert(seats[0].player != member);
        let rest = seats.drop_first();
        assert forall|j: int| 0 <= j < i - 1 implies (#[trigger] rest[j]).player != member by {
            assert(rest[j] == seats[j + 1]);
        }
        lemma_first_seat(rest, member, i - 1);
    }
}

/// The position of the first seat that the member occupies.
fn seat_position(seats: &Vec<Seat>, member: &str) -> (r: Option<usize>)
    ensures
        match r {
            Some(i) => i < seats@.len() && seats.deep_view()[i as int].player == member@
                && rules::seated(seats.deep_view(), member@) && rules::first_seat(
                seats.deep_view(),
                member@,
            ) == seats.deep_view()[i as int],
            None => !rules::seated(seats.deep_view(), member@),
        },
{
    let ghost view = seats.deep_view();
    let mut i: usize = 0;
    while i < seats.len()
        invariant
            i <= seats.len(),
            view == seats.deep_view(),
            forall|j: int| 0 <= j < i ==> (#[trigger] view[j]).player != member@,
        decreases seats.len() - i,
    {
        assert(view[i as int] == seats@[i as int].deep_view());
        if same_text(seats[i].player.as_str(), member) {
            proof {
                lemma_first_seat(view, member@, i as int);
                assert(rules::sits_at(view, member@, i as int));
            }
            return Some(i);
        }
        i = i + 1;
    }
    None
}

/// The seats that are still held.
fn kept_seats(seats: &Vec<Seat>, now: u64) -> (r: Vec<Seat>)
    ensures
        r.deep_view() == rules::kept(seats.deep_view(), now),
{
    let ghost view = seats.deep_view();
    let ghost p = |seat: SeatView| rules::held(seat, now);
    let mut r: Vec<Seat> = Vec::new();
    let mut i: usize = 0;
    proof {
        reveal(Seq::filter);
        assert(view.take(0).filter(p) =~= Seq::<SeatView>::empty());
        assert(r.deep_view() =~= Seq::<SeatView>::empty());
    }
    while i < seats.len()
        invariant
            i <= seats.len(),
            view == seats.deep_view(),
            p == (|seat: SeatView| rules::held(seat, now)),
            r.deep_view() == view.take(i as int).filter(p),
        decreases seats.len() - i,
    {
        let keep: bool = match seats[i].disconnected_until {
            Some(until) => until > now,
            None => true,
        };
        let ghost before = r.deep_view();
        proof {
            reveal(Seq::filter);
            assert(view[i as int] == seats@[i as int].deep_view());
            assert(view.take(i + 1).drop_last() =~= view.take(i as int));
            assert(view.take(i + 1).last() == view[i as int]);
        }
        if keep {
            r.push(seats[i].duplicate());
            assert(r.deep_view() =~= before.push(view[i as int]));
        }
        i = i + 1;
    }
    assert(view.take(i as int) =~= view);
    r
}

/// The seats once a member has connected or disconnected.
fn seats_after_presence(seats: &Vec<Seat>, member: &str, online: bool, until: u64) -> (r: Vec<Seat>)
    ensures
        r.deep_view() == rules::seats_after_presence(seats.deep_view(), member@, online, until),
{
    let ghost view = seats.deep_view();
    let mut r: Vec<Seat> = Vec::new();
    let mut i: usize = 0;
    while i < seats.len()
        invariant
            i <= seats.len(),
            i == r.len(),
            view == seats.deep_view(),
            forall|j: int|
                0 <= j < i ==> (#[trigger] r@[j]).deep_view() == rules::seat_after_presence(
                    view[j],
                    member@,
                    online,
                    until,
                ),
        decreases seats.len() - i,
    {
        assert(view[i as int] == seats@[i as int].deep_view());
        let mut seat = seats[i].duplicate();
        if same_text(seat.player.as_str(), member) {
            if online {
                seat.disconnected_until = None;
            } else if seat.disconnected_until.is_none() {
                seat.disconnected_until = Some(until);
            }
        }
        r.push(seat);
        i = i + 1;
    }
    assert(r.deep_view() =~= rules::seats_after_presence(view, member@, online, until));
    r
}

/// The seats with their deadlines moved by the length of a pause.
fn extended_seats(seats: &Vec<Seat>, pause: u64) -> (r: Vec<Seat>)
    ensures
        r.deep_view() == rules::all_extended(seats.deep_view(), pause as int),
{
    let ghost view = seats.deep_view();
    let mut r: Vec<Seat> = Vec::new();
    let mut i: usize = 0;
    while i < seats.len()
        invariant
            i <= seats.len(),
            i == r.len(),
            view == seats.deep_view(),
            forall|j: int|
                0 <= j < i ==> (#[trigger] r@[j]).deep_view() == rules::extended(
                    view[j],
                    pause as int,
                ),
        decreases seats.len() - i,
    {
        assert(view[i as int] == seats@[i as int].deep_view());
        let mut seat = seats[i].duplicate();
        match seat.disconnected_until {
            Some(until) => {
                seat.disconnected_until = Some(plus(until, pause));
            },
            None => {},
        }
        r.push(seat);
        i = i + 1;
    }
    assert(r.deep_view() =~= rules::all_extended(view, pause as int));
    r
}

/// The scores with the changes, or what is wrong with the first change that cannot be made.
pub(crate) fn add_deltas(
    scores: &mut StrMap<i64>,
    deltas: &StrMap<i64>,
    allowed: Option<&StrSet>,
    stranger: &Error,
    overflow: &Error,
) -> (r: Result<()>)
    ensures
        error::agrees(
            r,
            final(scores)@,
            rules::add_deltas(
                old(scores)@,
                deltas@,
                match allowed {
                    Some(set) => Some(set@),
                    None => None,
                },
                stranger@,
                overflow@,
            ),
        ),
{
    let ghost start = scores@;
    let ghost may: Option<Set<Text>> = match allowed {
        Some(set) => Some(set@),
        None => None,
    };
    let ghost test = rules::delta_test(start, may, stranger@, overflow@);
    let ghost keys = deltas.keys();
    let n: usize = deltas.len();
    let mut i: usize = 0;
    while i < n
        invariant
            i <= n,
            n == keys.len(),
            start == old(scores)@,
            keys == deltas.keys(),
            collections::lists::<String, i64>(deltas@, keys),
            may == (match allowed {
                Some(set) => Some(set@),
                None => None,
            }),
            test == rules::delta_test(start, may, stranger@, overflow@),
            forall|j: int| 0 <= j < i ==> !test(#[trigger] keys[j], deltas@[keys[j]]),
            scores@.dom() == start.dom(),
            forall|j: int|
                0 <= j < i ==> scores@[#[trigger] keys[j]] == start[keys[j]] + deltas@[keys[j]],
            forall|k: Text|
                start.contains_key(k) && !collections::among(keys, i as int, k)
                    ==> #[trigger] scores@[k] == start[k],
        decreases n - i,
    {
        let id = deltas.key(i);
        let delta: i64 = *deltas.value(i);
        let ghost k = keys[i as int];
        assert(id@ == k && delta == deltas@[k]);
        assert(!collections::among(keys, i as int, k)) by {
            if collections::among(keys, i as int, k) {
                let j = choose|j: int| 0 <= j < i && #[trigger] keys[j] == k;
                <String as Key>::irreflexive(k);
            }
        }
        let known: bool = match allowed {
            Some(set) => set.contains(id.as_str()),
            None => true,
        };
        let ghost fault = rules::delta_fault(start, may, stranger@, overflow@, k, delta);
        assert(test(k, deltas@[k]) == (fault is Some));
        if !known {
            proof {
                collections::lemma_first_at::<String, i64>(deltas@, keys, test, i as int);
            }
            return Err(stranger.duplicate());
        }
        let score: i64 = match scores.get(id.as_str()) {
            Some(score) => *score,
            None => {
                proof {
                    assert(!scores@.dom().contains(k));
                    collections::lemma_first_at::<String, i64>(deltas@, keys, test, i as int);
                }
                return Err(Error::NotFound);
            },
        };
        assert(scores@.dom().contains(k));
        assert(score == start[k]);
        match score.checked_add(delta) {
            Some(total) => {
                let ghost before = scores@;
                scores.insert(id.clone(), total);
                assert(scores@.dom() =~= start.dom());
                i = i + 1;
                assert forall|o: Text|
                    start.contains_key(o) && !collections::among(
                        keys,
                        i as int,
                        o,
                    ) implies #[trigger] scores@[o] == start[o] by {
                    if o == k {
                        assert(keys[i - 1] == k);
                        assert(collections::among(keys, i as int, o));
                    }
                    if collections::among(keys, i - 1, o) {
                        let j = choose|j: int| 0 <= j < i - 1 && #[trigger] keys[j] == o;
                        assert(collections::among(keys, i as int, o));
                    }
                }
                assert forall|j: int| 0 <= j < i implies scores@[#[trigger] keys[j]]
                    == start[keys[j]] + deltas@[keys[j]] by {
                    if j < i - 1 && keys[j] == k {
                        <String as Key>::irreflexive(k);
                    }
                }
            },
            None => {
                proof {
                    collections::lemma_first_at::<String, i64>(deltas@, keys, test, i as int);
                }
                return Err(overflow.duplicate());
            },
        }
    }
    proof {
        collections::lemma_first_none::<String, i64>(deltas@, keys, test);
        let expected = rules::changed(start, deltas@);
        assert forall|k: Text| #[trigger] scores@.contains_key(k) implies scores@[k]
            == expected[k] by {
            assert(scores@.dom().contains(k));
            assert(start.contains_key(k));
            if deltas@.contains_key(k) {
                assert(deltas@.dom().contains(k));
                let j = keys.index_of(k);
                assert(keys[j] == k);
                assert(!test(keys[j], deltas@[keys[j]]));
            } else if collections::among(keys, i as int, k) {
                let j = choose|j: int| 0 <= j < i && #[trigger] keys[j] == k;
                assert(deltas@.dom().contains(keys[j]));
            }
        }
        assert(scores@.dom() =~= expected.dom());
        assert(scores@ =~= expected);
    }
    Ok(())
}

impl League {
    /// The team that the member belongs to.
    pub fn team_of(&self, member: &str) -> (r: Option<&str>)
        ensures
            match r {
                Some(team) => rules::team_of(self@, member@) == Some(team@)
                    && self@.teams.contains_key(team@) && self@.teams[team@].members.contains(
                    member@,
                ),
                None => rules::team_of(self@, member@) is None && forall|team: Text| #[trigger]
                    self@.teams.contains_key(team) ==> !self@.teams[team].members.contains(
                        member@,
                    ),
            },
    {
        let ghost keys = self.teams.keys();
        let ghost test = rules::roster_test(member@);
        let n: usize = self.teams.len();
        let mut i: usize = 0;
        while i < n
            invariant
                i <= n,
                n == keys.len(),
                keys == self.teams.keys(),
                collections::lists::<String, TeamView>(self.teams@, keys),
                test == rules::roster_test(member@),
                forall|j: int| 0 <= j < i ==> !test(#[trigger] keys[j], self.teams@[keys[j]]),
            decreases n - i,
        {
            let ghost k = keys[i as int];
            assert(self.teams@.dom().contains(k));
            assert(test(k, self.teams@[k]) == self.teams@[k].members.contains(member@));
            if self.teams.value(i).members.contains(member) {
                proof {
                    collections::lemma_first_at::<String, TeamView>(
                        self.teams@,
                        keys,
                        test,
                        i as int,
                    );
                    assert(self@.teams.contains_key(k));
                }
                return Some(self.teams.key(i).as_str());
            }
            i = i + 1;
        }
        proof {
            collections::lemma_first_none::<String, TeamView>(self.teams@, keys, test);
            assert forall|team: Text| #[trigger]
                self@.teams.contains_key(team) implies !self@.teams[team].members.contains(
                member@,
            ) by {
                assert(!test(team, self.teams@[team]));
            }
        }
        None
    }

    /// Whether the first team of the member is registered.
    pub(crate) fn plays_for_registered_team(&self, member: &str) -> (r: bool)
        ensures
            r == rules::plays_for_registered_team(self@, member@),
    {
        match self.team_of(member) {
            Some(team) => match self.teams.get(team) {
                Some(team) => team.registered,
                None => false,
            },
            None => false,
        }
    }

    /// Where the member is to be sent: to the match, to wait for a seat, or nowhere.
    pub fn route(&self, member: &str) -> (r: Route)
        ensures
            r@ == rules::route(self@, member@),
    {
        if self.phase != Phase::Playing {
            return Route::Unavailable;
        }
        let ghost keys = self.seats.keys();
        let ghost test = rules::seat_test(member@);
        let n: usize = self.seats.len();
        let mut i: usize = 0;
        while i < n
            invariant
                i <= n,
                n == keys.len(),
                keys == self.seats.keys(),
                self.phase == Phase::Playing,
                collections::lists::<String, Seq<SeatView>>(self.seats@, keys),
                test == rules::seat_test(member@),
                forall|j: int| 0 <= j < i ==> !test(#[trigger] keys[j], self.seats@[keys[j]]),
            decreases n - i,
        {
            let ghost k = keys[i as int];
            assert(test(k, self.seats@[k]) == rules::seated(self.seats@[k], member@));
            let seats = self.seats.value(i);
            match seat_position(seats, member) {
                Some(j) => {
                    proof {
                        collections::lemma_first_at::<String, Seq<SeatView>>(
                            self.seats@,
                            keys,
                            test,
                            i as int,
                        );
                        assert(seats.deep_view()[j as int] == seats@[j as int].deep_view());
                    }
                    return Route::Match {
                        team: self.seats.key(i).clone(),
                        epoch: seats[j].epoch,
                    };
                },
                None => {},
            }
            i = i + 1;
        }
        proof {
            collections::lemma_first_none::<String, Seq<SeatView>>(self.seats@, keys, test);
        }
        if self.plays_for_registered_team(member) {
            Route::Waiting
        } else {
            Route::Unavailable
        }
    }

    /// Whether teams may register.
    pub(crate) fn registration(&self, now: u64) -> (r: Result<()>)
        ensures
            match rules::registration_fault(self@, now) {
                Some(e) => r is Err && r->Err_0@ == e,
                None => r is Ok,
            },
    {
        if self.phase != Phase::Registration {
            return Err(invalid("registration closed"));
        }
        match self.schedule {
            Some(window) => if now < window.opens_ms || now >= window.closes_ms {
                Err(Error::Denied)
            } else {
                Ok(())
            },
            None => Ok(()),
        }
    }

    pub(crate) fn create_team(&mut self, now: u64, player: Option<String>, team: String) -> (r:
        Result<()>)
        ensures
            error::agrees(
                r,
                final(self)@,
                rules::create_team(old(self)@, now, player.deep_view(), team@),
            ),
    {
        match self.registration(now) {
            Ok(_) => {},
            Err(e) => {
                return Err(e);
            },
        }
        match identifier(team.as_str()) {
            Ok(_) => {},
            Err(e) => {
                return Err(e);
            },
        }
        let player = match player {
            Some(player) => player,
            None => {
                return Err(Error::Denied);
            },
        };
        if self.team_of(player.as_str()).is_some() || self.teams.contains_key(team.as_str()) {
            return Err(invalid("already in a team or team exists"));
        }
        let ghost before = self@;
        let ghost p = player@;
        let ghost name = team@;
        let mut members = StrSet::new();
        members.insert(player.clone());
        let entry = Team { captain: player, members, invited: StrSet::new(), registered: false };
        self.teams.insert(team, entry);
        proof {
            let expected = rules::create_team(before, now, Some(p), name)->Ok_0;
            assert(entry@.members =~= Set::empty().insert(p));
            assert(self@ =~= expected);
        }
        Ok(())
    }

    pub(crate) fn invite(
        &mut self,
        members: &StrMap<Member>,
        now: u64,
        player: Option<String>,
        team: String,
        member: String,
    ) -> (r: Result<()>)
        ensures
            error::agrees(
                r,
                final(self)@,
                rules::invite(members@, old(self)@, now, player.deep_view(), team@, member@),
            ),
    {
        match self.registration(now) {
            Ok(_) => {},
            Err(e) => {
                return Err(e);
            },
        }
        if !members.contains_key(member.as_str()) {
            return Err(Error::NotFound);
        }
        let ghost before = self@;
        let mut entry = match self.teams.remove(team.as_str()) {
            Some(entry) => entry,
            None => {
                return Err(Error::NotFound);
            },
        };
        let captain: bool = match &player {
            Some(player) => same_text(player.as_str(), entry.captain.as_str()),
            None => false,
        };
        if !captain {
            return Err(Error::Denied);
        }
        let ghost name = team@;
        entry.invited.insert(member);
        self.teams.insert(team, entry);
        assert(self@.teams =~= before.teams.insert(name, entry@));
        Ok(())
    }

    pub(crate) fn accept(
        &mut self,
        members: &StrMap<Member>,
        now: u64,
        player: Option<String>,
        team: String,
    ) -> (r: Result<()>)
        requires
            rules::league_ok(members@, old(self)@),
            player is Some ==> members@.contains_key(player->0@),
        ensures
            error::agrees(
                r,
                final(self)@,
                rules::accept(members@, old(self)@, now, player.deep_view(), team@),
            ),
    {
        match self.registration(now) {
            Ok(_) => {},
            Err(e) => {
                return Err(e);
            },
        }
        let player = match player {
            Some(player) => player,
            None => {
                return Err(Error::Denied);
            },
        };
        if self.team_of(player.as_str()).is_some() {
            return Err(invalid("member already belongs to a team"));
        }
        let ghost before = self@;
        let mut entry = match self.teams.remove(team.as_str()) {
            Some(entry) => entry,
            None => {
                return Err(Error::NotFound);
            },
        };
        if !entry.invited.contains(player.as_str()) {
            return Err(Error::Denied);
        }
        if !self.rules.cross_club {
            let same: bool = match (
                members.get(player.as_str()),
                members.get(entry.captain.as_str()),
            ) {
                (Some(one), Some(other)) => same_text(one.club.as_str(), other.club.as_str()),
                _ => false,
            };
            if !same {
                return Err(invalid("cross-club teams disabled"));
            }
        }
        let ghost name = team@;
        entry.invited.remove(player.as_str());
        entry.members.insert(player);
        // A changed roster has to be registered by the captain again.
        entry.registered = false;
        self.teams.insert(team, entry);
        assert(self@.teams =~= before.teams.insert(name, entry@));
        Ok(())
    }

    pub(crate) fn register(&mut self, now: u64, player: Option<String>, team: String) -> (r:
        Result<()>)
        ensures
            error::agrees(
                r,
                final(self)@,
                rules::register(old(self)@, now, player.deep_view(), team@),
            ),
    {
        match self.registration(now) {
            Ok(_) => {},
            Err(e) => {
                return Err(e);
            },
        }
        let ghost before = self@;
        let mut entry = match self.teams.remove(team.as_str()) {
            Some(entry) => entry,
            None => {
                return Err(Error::NotFound);
            },
        };
        let captain: bool = match &player {
            Some(player) => same_text(player.as_str(), entry.captain.as_str()),
            None => false,
        };
        if !captain {
            return Err(Error::Denied);
        }
        let ghost name = team@;
        entry.registered = true;
        self.teams.insert(team, entry);
        assert(self@.teams =~= before.teams.insert(name, entry@));
        Ok(())
    }

    /// The player who is to take a free seat of the team, if there are both.
    fn pick(&self, team: &str) -> (r: Option<String>)
        requires
            self@.seats.contains_key(team@),
            self@.teams.contains_key(team@),
        ensures
            r.deep_view() == (if self@.seats[team@].len() >= self@.rules.seats {
                None
            } else {
                rules::draw(self@, team@)
            }),
    {
        let (roster, seats) = match (self.teams.get(team), self.seats.get(team)) {
            (Some(roster), Some(seats)) => (roster, seats),
            _ => {
                return None;
            },
        };
        if seats.len() >= self.rules.seats {
            return None;
        }
        let ghost l = self@;
        let ghost t = team@;
        let ghost items = roster.members.items();
        let n: usize = roster.members.len();
        let mut best: Option<String> = None;
        let mut best_lot: Vec<u8> = Vec::new();
        let mut i: usize = 0;
        while i < n
            invariant
                i <= n,
                n == items.len(),
                items == roster.members.items(),
                collections::lists_set::<String>(roster.members@, items),
                l == self@,
                t == team@,
                l.teams[t].members == roster.members@,
                l.seats[t] == seats.deep_view(),
                best is None ==> forall|j: int|
                    0 <= j < i ==> !rules::eligible(l, t, #[trigger] items[j]),
                best is Some ==> {
                    &&& rules::eligible(l, t, best->0@)
                    &&& collections::among(items, i as int, best->0@)
                    &&& best_lot@ == rules::lot(l.random_seed, l.draw, best->0@)
                    &&& forall|j: int|
                        0 <= j < i && rules::eligible(l, t, #[trigger] items[j]) && items[j]
                            != best->0@ ==> rules::drawn_before(
                            l.random_seed,
                            l.draw,
                            best->0@,
                            items[j],
                        )
                },
            decreases n - i,
        {
            let player = roster.members.item(i);
            let ghost k = items[i as int];
            if self.online.contains(player.as_str()) && seat_position(
                seats,
                player.as_str(),
            ).is_none() {
                let mine: Vec<u8> = lot(&self.random_seed, self.draw, player.as_str());
                let better: bool = match &best {
                    Some(_) => rank_bytes(mine.as_slice(), best_lot.as_slice()) == Rank::Before,
                    None => true,
                };
                proof {
                    assert(rules::eligible(l, t, k));
                    if best is Some {
                        let b = best->0@;
                        let j = choose|j: int| 0 <= j < i && #[trigger] items[j] == b;
                        assert(order::text_before(b, k));
                        if better {
                            assert(rules::drawn_before(l.random_seed, l.draw, k, b));
                            assert forall|m: int|
                                0 <= m < i && rules::eligible(l, t, #[trigger] items[m]) && items[m]
                                    != k implies rules::drawn_before(
                                l.random_seed,
                                l.draw,
                                k,
                                items[m],
                            ) by {
                                if items[m] != b {
                                    lemma_drawn_before_transitive(
                                        l.random_seed,
                                        l.draw,
                                        k,
                                        b,
                                        items[m],
                                    );
                                }
                            }
                        } else {
                            order::lemma_bytes_before_total(mine@, best_lot@);
                            assert(rules::drawn_before(l.random_seed, l.draw, b, k));
                        }
                        assert(collections::among(items, i + 1, b));
                    }
                    assert(collections::among(items, i + 1, k));
                }
                if better {
                    best = Some(player.clone());
                    best_lot = mine;
                }
            } else {
                proof {
                    assert(!rules::eligible(l, t, k));
                    if best is Some {
                        let b = best->0@;
                        let j = choose|j: int| 0 <= j < i && #[trigger] items[j] == b;
                        assert(collections::among(items, i + 1, b));
                    }
                }
            }
            i = i + 1;
        }
        match best {
            Some(player) => {
                proof {
                    assert forall|o: Text| #[trigger]
                        rules::eligible(l, t, o) && o != player@ implies rules::drawn_before(
                        l.random_seed,
                        l.draw,
                        player@,
                        o,
                    ) by {
                        assert(roster.members@.contains(o));
                        let j = items.index_of(o);
                        assert(items[j] == o);
                    }
                    assert(rules::is_drawn(l, t, player@));
                    lemma_drawn_unique(l, t, player@);
                }
                Some(player)
            },
            None => {
                proof {
                    if rules::draw(l, t) is Some {
                        let o = choose|o: Text| rules::is_drawn(l, t, o);
                        assert(roster.members@.contains(o));
                        let j = items.index_of(o);
                        assert(items[j] == o);
                    }
                }
                None
            },
        }
    }

    /// Gives the free seats of the team to drawn players.
    fn fill_team(&mut self, team: &str) -> (r: Result<()>)
        requires
            old(self)@.seats.contains_key(team@),
            old(self)@.teams.contains_key(team@),
        ensures
            error::agrees(r, final(self)@, rules::fill_team(old(self)@, team@)),
            r is Ok ==> final(self)@.seats.dom() == old(self)@.seats.dom(),
            r is Ok ==> final(self)@.teams == old(self)@.teams,
    {
        loop
            invariant
                self@.seats.contains_key(team@),
                self@.teams.contains_key(team@),
                self@.seats.dom() == old(self)@.seats.dom(),
                self@.teams == old(self)@.teams,
                rules::fill_team(self@, team@) == rules::fill_team(old(self)@, team@),
            decreases self@.rules.seats - self@.seats[team@].len(),
        {
            let ghost before = self@;
            let player = match self.pick(team) {
                Some(player) => player,
                None => {
                    return Ok(());
                },
            };
            let draw: u64 = match self.draw.checked_add(1) {
                Some(draw) => draw,
                None => {
                    return Err(invalid("draw overflow"));
                },
            };
            let epoch: u64 = match self.epoch.checked_add(1) {
                Some(epoch) => epoch,
                None => {
                    return Err(invalid("seat epoch overflow"));
                },
            };
            let mut seats = match self.seats.remove(team) {
                Some(seats) => seats,
                None => Vec::new(),
            };
            self.draw = draw;
            self.epoch = epoch;
            self.played.insert(player.clone());
            let ghost chosen = player@;
            let ghost taken = seats.deep_view();
            let seat = Seat { player, epoch, disconnected_until: None };
            seats.push(seat);
            assert(seats.deep_view() =~= taken.push(seat@));
            self.seats.insert(team.to_owned(), seats);
            proof {
                let next = rules::take_seat(before, team@, chosen);
                assert(self@.seats =~= next.seats);
                assert(self@ =~= next);
                assert(self@.seats.dom() =~= before.seats.dom());
            }
        }
    }

    /// Gives free seats to drawn players, team by team.
    pub(crate) fn fill_vacancies(&mut self) -> (r: Result<()>)
        requires
            forall|team: Text| #[trigger]
                old(self)@.seats.contains_key(team) ==> old(self)@.teams.contains_key(team),
        ensures
            error::agrees(r, final(self)@, rules::fill_vacancies(old(self)@)),
    {
        let teams = self.seats.key_list();
        let ghost names = teams.deep_view();
        let ghost start = self@;
        let mut i: usize = 0;
        while i < teams.len()
            invariant
                i <= teams.len(),
                names == teams.deep_view(),
                start == old(self)@,
                names == collections::keys_of::<String, Seq<SeatView>>(start.seats),
                collections::lists::<String, Seq<SeatView>>(start.seats, names),
                forall|team: Text| #[trigger]
                    start.seats.contains_key(team) ==> start.teams.contains_key(team),
                self@.seats.dom() == start.seats.dom(),
                self@.teams == start.teams,
                rules::fill_teams(start, names, i as nat) == Outcome::<LeagueView>::Ok(self@),
            decreases teams.len() - i,
        {
            let ghost before = self@;
            proof {
                assert(names[i as int] == teams@[i as int].deep_view());
                assert(start.seats.dom().contains(names[i as int]));
                assert(start.seats.contains_key(names[i as int]));
                assert(self@.seats.dom().contains(names[i as int]));
            }
            match self.fill_team(teams[i].as_str()) {
                Ok(_) => {
                    assert(rules::fill_teams(start, names, (i + 1) as nat) == rules::fill_team(
                        before,
                        names[i as int],
                    ));
                },
                Err(e) => {
                    proof {
                        assert(rules::fill_teams(start, names, (i + 1) as nat) == rules::fill_team(
                            before,
                            names[i as int],
                        ));
                        lemma_fill_stops(start, names, (i + 1) as nat, names.len());
                    }
                    return Err(e);
                },
            }
            i = i + 1;
        }
        Ok(())
    }

    /// Takes seats from players who stayed away for too long, and gives them to others.
    pub(crate) fn replace_expired(&mut self, now: u64) -> (r: Result<()>)
        requires
            forall|team: Text| #[trigger]
                old(self)@.seats.contains_key(team) ==> old(self)@.teams.contains_key(team),
        ensures
            error::agrees(r, final(self)@, rules::replace_expired(old(self)@, now)),
    {
        let ghost start = self@;
        let ghost keys = self.seats.keys();
        let ghost f = |seats: Seq<SeatView>| rules::kept(seats, now);
        let n: usize = self.seats.len();
        let mut rest: StrMap<Vec<Seat>> = StrMap::new();
        let mut i: usize = 0;
        while i < n
            invariant
                i <= n,
                n == keys.len(),
                keys == self.seats.keys(),
                start == self@,
                collections::lists::<String, Seq<SeatView>>(start.seats, keys),
                f == (|seats: Seq<SeatView>| rules::kept(seats, now)),
                forall|k: Text| #[trigger]
                    rest@.contains_key(k) <==> collections::among(keys, i as int, k),
                forall|j: int| 0 <= j < i ==> rest@[#[trigger] keys[j]] == f(start.seats[keys[j]]),
            decreases n - i,
        {
            let ghost before = rest@;
            rest.insert(self.seats.key(i).clone(), kept_seats(self.seats.value(i), now));
            i = i + 1;
            proof {
                collections::lemma_next_among::<String, Seq<SeatView>>(keys, i - 1, before, rest@, f(start.seats[keys[i - 1]]));
            }
        }
        proof {
            collections::lemma_mapped::<String, Seq<SeatView>, Seq<SeatView>>(
                start.seats,
                keys,
                f,
                rest@,
            );
        }
        self.seats = rest;
        assert(self@ =~= rules::vacated(start, now));
        self.fill_vacancies()
    }

    /// Sets whether the member is online, for the member's seats too.
    fn set_presence(&mut self, member: &str, online: bool, until: u64)
        ensures
            final(self)@ == rules::with_presence(old(self)@, member@, online, until),
    {
        let ghost start = self@;
        if online {
            self.online.insert(member.to_owned());
        } else {
            self.online.remove(member);
        }
        let ghost keys = self.seats.keys();
        let ghost f = |seats: Seq<SeatView>|
            rules::seats_after_presence(seats, member@, online, until);
        let n: usize = self.seats.len();
        let mut rest: StrMap<Vec<Seat>> = StrMap::new();
        let mut i: usize = 0;
        while i < n
            invariant
                i <= n,
                n == keys.len(),
                keys == self.seats.keys(),
                start.seats == self@.seats,
                collections::lists::<String, Seq<SeatView>>(start.seats, keys),
                f == (|seats: Seq<SeatView>|
                    rules::seats_after_presence(seats, member@, online, until)),
                forall|k: Text| #[trigger]
                    rest@.contains_key(k) <==> collections::among(keys, i as int, k),
                forall|j: int| 0 <= j < i ==> rest@[#[trigger] keys[j]] == f(start.seats[keys[j]]),
            decreases n - i,
        {
            let ghost before = rest@;
            rest.insert(
                self.seats.key(i).clone(),
                seats_after_presence(self.seats.value(i), member, online, until),
            );
            i = i + 1;
            proof {
                collections::lemma_next_among::<String, Seq<SeatView>>(keys, i - 1, before, rest@, f(start.seats[keys[i - 1]]));
            }
        }
        proof {
            collections::lemma_mapped::<String, Seq<SeatView>, Seq<SeatView>>(
                start.seats,
                keys,
                f,
                rest@,
            );
        }
        self.seats = rest;
        assert(self@ =~= rules::with_presence(start, member@, online, until));
    }

    pub(crate) fn presence(
        &mut self,
        members: &StrMap<Member>,
        actor: &str,
        now: u64,
        member: String,
        online: bool,
        health: ConnectionHealth,
    ) -> (r: Result<()>)
        requires
            rules::league_ok(members@, old(self)@),
        ensures
            error::agrees(
                r,
                final(self)@,
                rules::presence(
                    members@,
                    old(self)@,
                    actor@,
                    now,
                    member@,
                    online,
                    health,
                ),
            ),
    {
        if !same_text(actor, self.host.as_str()) || !members.contains_key(member.as_str()) {
            return Err(Error::Denied);
        }
        if self.phase == Phase::Finished {
            return Err(invalid("league finished"));
        }
        if health.rtt_ms > 60_000 || health.jitter_ms > 60_000 || health.recovery_ms > 600_000 {
            return Err(invalid("invalid measured health"));
        }
        let ghost start = self@;
        let _count: usize = self.seats.len();
        let grace: u64 = health.grace(&self.rules);
        self.health.insert(member.clone(), health);
        let ghost measured = LeagueView { health: start.health.insert(member@, health), ..start };
        assert(self@ =~= measured);
        // Seats that have run out are given away before a late reconnect counts.
        if self.phase == Phase::Playing && self.paused_since.is_none() {
            match self.replace_expired(now) {
                Ok(_) => {},
                Err(e) => {
                    return Err(e);
                },
            }
        }
        let ghost settled = self@;
        proof {
            if rules::running(start) {
                assert(rules::vacated(measured, now).seats.dom() =~= start.seats.dom());
                laws::leagues::lemma_fill_keeps(rules::vacated(measured, now));
            }
        }
        self.set_presence(member.as_str(), online, plus(now, grace));
        if online && self.phase == Phase::Playing && self.paused_since.is_none() {
            return self.fill_vacancies();
        }
        Ok(())
    }

    pub(crate) fn start(&mut self, actor: &str, now: u64, seed: [u8; 32]) -> (r: Result<()>)
        requires
            forall|team: Text| #[trigger]
                old(self)@.seats.contains_key(team) ==> old(self)@.teams.contains_key(team),
        ensures
            error::agrees(r, final(self)@, rules::start(old(self)@, actor@, now, seed@)),
    {
        if !same_text(actor, self.organizer.as_str()) {
            return Err(Error::Denied);
        }
        if self.phase != Phase::Registration {
            return Err(invalid("registration closed"));
        }
        match self.schedule {
            Some(window) => {
                if now < window.starts_ms {
                    return Err(Error::Denied);
                }
            },
            None => {},
        }
        self.kick_off(seed);
        self.fill_vacancies()
    }

    /// Sets up the seats and the scores of the registered teams.
    fn kick_off(&mut self, seed: [u8; 32])
        ensures
            final(self)@ == rules::kicked_off(old(self)@, seed@),
    {
        let ghost l = self@;
        let ghost keys = self.teams.keys();
        let n: usize = self.teams.len();
        self.random_seed = seed;
        self.phase = Phase::Playing;
        let mut i: usize = 0;
        while i < n
            invariant
                i <= n,
                n == keys.len(),
                l == old(self)@,
                keys == self.teams.keys(),
                collections::lists::<String, TeamView>(l.teams, keys),
                self@.teams == l.teams,
                self@ == (LeagueView {
                    random_seed: seed@,
                    phase: Phase::Playing,
                    seats: self@.seats,
                    team_scores: self@.team_scores,
                    player_scores: self@.player_scores,
                    ..l
                }),
                forall|k: Text| #[trigger]
                    self@.seats.contains_key(k) <==> l.seats.contains_key(k) || (
                    collections::among(keys, i as int, k) && l.teams[k].registered),
                forall|k: Text| #[trigger]
                    self@.seats.contains_key(k) ==> self@.seats[k] == (if collections::among(
                        keys,
                        i as int,
                        k,
                    ) && l.teams[k].registered {
                        Seq::<SeatView>::empty()
                    } else {
                        l.seats[k]
                    }),
                forall|k: Text| #[trigger]
                    self@.team_scores.contains_key(k) <==> l.team_scores.contains_key(k) || (
                    collections::among(keys, i as int, k) && l.teams[k].registered),
                forall|k: Text| #[trigger]
                    self@.team_scores.contains_key(k) ==> self@.team_scores[k] == (if collections::among(
                        keys,
                        i as int,
                        k,
                    ) && l.teams[k].registered {
                        0i64
                    } else {
                        l.team_scores[k]
                    }),
                forall|p: Text| #[trigger]
                    self@.player_scores.contains_key(p) <==> l.player_scores.contains_key(p)
                        || on_roster(l, keys, i as int, p),
                forall|p: Text| #[trigger]
                    self@.player_scores.contains_key(p) ==> self@.player_scores[p] == (if on_roster(
                        l,
                        keys,
                        i as int,
                        p,
                    ) {
                        0i64
                    } else {
                        l.player_scores[p]
                    }),
            decreases n - i,
        {
            let ghost k = keys[i as int];
            let ghost before = self@;
            assert(l.teams.dom().contains(k));
            let registered: bool = self.teams.value(i).registered;
            if registered {
                let id = self.teams.key(i).clone();
                let players = self.teams.value(i).members.item_list();
                self.seats.insert(id.clone(), Vec::new());
                self.team_scores.insert(id, 0);
                assert(self@.seats[k] =~= Seq::<SeatView>::empty());
                self.zero_players(players);
            }
            proof {
                assert forall|o: Text| collections::among(keys, i + 1, o) <==> collections::among(
                    keys,
                    i as int,
                    o,
                ) || o == k by {
                    if collections::among(keys, i + 1, o) {
                        let j = choose|j: int| 0 <= j < i + 1 && #[trigger] keys[j] == o;
                    }
                    if collections::among(keys, i as int, o) {
                        let j = choose|j: int| 0 <= j < i && #[trigger] keys[j] == o;
                    }
                    assert(keys[i as int] == k);
                }
                assert forall|p: Text| #[trigger] on_roster(l, keys, i + 1, p) <==> on_roster(
                    l,
                    keys,
                    i as int,
                    p,
                ) || (l.teams[k].registered && l.teams[k].members.contains(p)) by {
                    if on_roster(l, keys, i + 1, p) {
                        let j = choose|j: int|
                            0 <= j < i + 1 && l.teams[#[trigger] keys[j]].registered
                                && l.teams[keys[j]].members.contains(p);
                    }
                    if on_roster(l, keys, i as int, p) {
                        let j = choose|j: int|
                            0 <= j < i && l.teams[#[trigger] keys[j]].registered
                                && l.teams[keys[j]].members.contains(p);
                    }
                    assert(keys[i as int] == k);
                }
            }
            i = i + 1;
        }
        proof {
            assert forall|k: Text| collections::among(keys, i as int, k)
                <==> l.teams.contains_key(k) by {
                if l.teams.dom().contains(k) {
                    let j = keys.index_of(k);
                    assert(keys[j] == k);
                }
                if collections::among(keys, i as int, k) {
                    let j = choose|j: int| 0 <= j < i && #[trigger] keys[j] == k;
                    assert(l.teams.dom().contains(keys[j]));
                }
            }
            assert forall|p: Text| #[trigger] on_roster(l, keys, i as int, p) <==> rules::rostered(
                l,
                p,
            ) by {
                if on_roster(l, keys, i as int, p) {
                    let j = choose|j: int|
                        0 <= j < i && l.teams[#[trigger] keys[j]].registered
                            && l.teams[keys[j]].members.contains(p);
                    assert(l.teams.dom().contains(keys[j]));
                    assert(l.teams.contains_key(keys[j]));
                }
                if rules::rostered(l, p) {
                    let k = choose|k: Text| #[trigger]
                        l.teams.contains_key(k) && l.teams[k].registered
                            && l.teams[k].members.contains(p);
                    assert(l.teams.dom().contains(k));
                    let j = keys.index_of(k);
                    assert(keys[j] == k);
                }
            }
            let expected = rules::kicked_off(l, seed@);
            assert(self@.seats =~= expected.seats);
            assert(self@.team_scores =~= expected.team_scores);
            assert(self@.player_scores =~= expected.player_scores);
            assert(self@ =~= expected);
        }
    }

    /// Lets the scores of the players start at zero.
    fn zero_players(&mut self, players: Vec<String>)
        ensures
            final(self)@ == (LeagueView {
                player_scores: final(self)@.player_scores,
                ..old(self)@
            }),
            final(self).teams == old(self).teams,
            forall|p: Text| #[trigger]
                final(self)@.player_scores.contains_key(p) <==> old(
                    self,
                )@.player_scores.contains_key(p) || players.deep_view().contains(p),
            forall|p: Text| #[trigger]
                final(self)@.player_scores.contains_key(p) ==> final(self)@.player_scores[p] == (
                if players.deep_view().contains(p) {
                    0i64
                } else {
                    old(self)@.player_scores[p]
                }),
    {
        let ghost names = players.deep_view();
        let mut i: usize = 0;
        while i < players.len()
            invariant
                i <= players.len(),
                names == players.deep_view(),
                self@ == (LeagueView { player_scores: self@.player_scores, ..old(self)@ }),
                self.teams == old(self).teams,
                forall|p: Text| #[trigger]
                    self@.player_scores.contains_key(p) <==> old(
                        self,
                    )@.player_scores.contains_key(p) || collections::among(names, i as int, p),
                forall|p: Text| #[trigger]
                    self@.player_scores.contains_key(p) ==> self@.player_scores[p] == (
                    if collections::among(names, i as int, p) {
                        0i64
                    } else {
                        old(self)@.player_scores[p]
                    }),
            decreases players.len() - i,
        {
            let ghost k = names[i as int];
            assert(names[i as int] == players@[i as int].deep_view());
            self.player_scores.insert(players[i].clone(), 0);
            proof {
                assert forall|o: Text| collections::among(names, i + 1, o) <==> collections::among(
                    names,
                    i as int,
                    o,
                ) || o == k by {
                    if collections::among(names, i + 1, o) {
                        let j = choose|j: int| 0 <= j < i + 1 && #[trigger] names[j] == o;
                    }
                    if collections::among(names, i as int, o) {
                        let j = choose|j: int| 0 <= j < i && #[trigger] names[j] == o;
                    }
                    assert(names[i as int] == k);
                }
            }
            i = i + 1;
        }
        assert forall|p: Text| collections::among(names, i as int, p) <==> names.contains(p) by {
            if names.contains(p) {
                let j = names.index_of(p);
                assert(names[j] == p);
            }
        }
    }

    pub(crate) fn tick(&mut self, actor: &str, now: u64) -> (r: Result<()>)
        requires
            forall|team: Text| #[trigger]
                old(self)@.seats.contains_key(team) ==> old(self)@.teams.contains_key(team),
        ensures
            error::agrees(r, final(self)@, rules::tick(old(self)@, actor@, now)),
    {
        if !same_text(actor, self.host.as_str()) {
            return Err(Error::Denied);
        }
        if self.phase != Phase::Playing {
            return Err(invalid("not playing"));
        }
        if self.paused_since.is_none() {
            return self.replace_expired(now);
        }
        Ok(())
    }

    /// Begins, continues or ends a pause.
    pub(crate) fn update_pause(&mut self, now: u64)
        ensures
            final(self)@ == rules::update_pause(old(self)@, now),
    {
        let ghost start = self@;
        if self.manual_pause || self.infrastructure_down {
            if self.paused_since.is_none() {
                self.paused_since = Some(now);
            }
            return ;
        }
        let since: u64 = match self.paused_since {
            Some(since) => since,
            None => {
                return ;
            },
        };
        self.paused_since = None;
        let pause: u64 = now.saturating_sub(since);
        let ghost keys = self.seats.keys();
        let ghost f = |seats: Seq<SeatView>|
            rules::all_extended(seats, rules::elapsed(since, now));
        let n: usize = self.seats.len();
        let mut rest: StrMap<Vec<Seat>> = StrMap::new();
        let mut i: usize = 0;
        while i < n
            invariant
                i <= n,
                n == keys.len(),
                keys == self.seats.keys(),
                start.seats == self@.seats,
                pause == rules::elapsed(since, now),
                collections::lists::<String, Seq<SeatView>>(start.seats, keys),
                f == (|seats: Seq<SeatView>|
                    rules::all_extended(seats, rules::elapsed(since, now))),
                forall|k: Text| #[trigger]
                    rest@.contains_key(k) <==> collections::among(keys, i as int, k),
                forall|j: int| 0 <= j < i ==> rest@[#[trigger] keys[j]] == f(start.seats[keys[j]]),
            decreases n - i,
        {
            let ghost before = rest@;
            rest.insert(self.seats.key(i).clone(), extended_seats(self.seats.value(i), pause));
            i = i + 1;
            proof {
                collections::lemma_next_among::<String, Seq<SeatView>>(keys, i - 1, before, rest@, f(start.seats[keys[i - 1]]));
            }
        }
        proof {
            collections::lemma_mapped::<String, Seq<SeatView>, Seq<SeatView>>(
                start.seats,
                keys,
                f,
                rest@,
            );
        }
        self.seats = rest;
        assert(self@ =~= rules::update_pause(start, now));
    }

    pub(crate) fn infrastructure(&mut self, actor: &str, now: u64, healthy: bool) -> (r: Result<()>)
        ensures
            error::agrees(r, final(self)@, rules::infrastructure(old(self)@, actor@, now, healthy)),
    {
        if !same_text(actor, self.host.as_str()) {
            return Err(Error::Denied);
        }
        let ghost start = self@;
        self.infrastructure_down = !healthy;
        assert(self@ =~= (LeagueView { infrastructure_down: !healthy, ..start }));
        self.update_pause(now);
        Ok(())
    }

    /// Changes the scores of players, then those of teams.
    pub(crate) fn rescore(
        &mut self,
        players: &StrMap<i64>,
        teams: &StrMap<i64>,
        stranger: Error,
        overflow: Error,
    ) -> (r: Result<()>)
        ensures
            error::agrees(
                r,
                final(self)@,
                rules::rescored(old(self)@, players@, teams@, stranger@, overflow@),
            ),
    {
        let ghost start = self@;
        let mut player_scores = self.player_scores.clone();
        match add_deltas(&mut player_scores, players, Some(&self.played), &stranger, &overflow) {
            Ok(_) => {},
            Err(e) => {
                return Err(e);
            },
        }
        let mut team_scores = self.team_scores.clone();
        match add_deltas(&mut team_scores, teams, None, &stranger, &overflow) {
            Ok(_) => {},
            Err(e) => {
                return Err(e);
            },
        }
        self.player_scores = player_scores;
        self.team_scores = team_scores;
        Ok(())
    }

    pub(crate) fn score(
        &mut self,
        actor: &str,
        event: String,
        players: &StrMap<i64>,
        teams: &StrMap<i64>,
    ) -> (r: Result<()>)
        ensures
            error::agrees(
                r,
                final(self)@,
                rules::score(old(self)@, actor@, event@, players@, teams@),
            ),
    {
        if !same_text(actor, self.scorer.as_str()) {
            return Err(Error::Denied);
        }
        match identifier(event.as_str()) {
            Ok(_) => {},
            Err(e) => {
                return Err(e);
            },
        }
        let payload = match outside::encode_scores(players, teams) {
            Ok(payload) => payload,
            Err(e) => {
                return Err(invalid(e.as_str()));
            },
        };
        let mark = digest(payload.as_slice());
        match self.score_events.get(event.as_str()) {
            Some(previous) => {
                if !same_text(previous.as_str(), mark.as_str()) {
                    return Err(invalid("score event id reused with different payload"));
                }
                return Ok(());
            },
            None => {},
        }
        if self.phase != Phase::Playing {
            return Err(invalid("not playing"));
        }
        match self.rescore(
            players,
            teams,
            invalid("player has not participated"),
            invalid("score overflow"),
        ) {
            Ok(_) => {},
            Err(e) => {
                return Err(e);
            },
        }
        self.score_events.insert(event, mark);
        Ok(())
    }

    pub(crate) fn finish(&mut self, actor: &str) -> (r: Result<()>)
        ensures
            error::agrees(r, final(self)@, rules::finish(old(self)@, actor@)),
    {
        if !same_text(actor, self.scorer.as_str()) {
            return Err(Error::Denied);
        }
        if self.phase == Phase::Registration {
            return Err(invalid("not started"));
        }
        self.phase = Phase::Finished;
        Ok(())
    }
}

/// One of the first `n` teams is registered and has the player.
spec fn on_roster(l: LeagueView, teams: Seq<Text>, n: int, p: Text) -> bool {
    exists|j: int|
        0 <= j < n && l.teams[#[trigger] teams[j]].registered && l.teams[teams[j]].members.contains(
            p,
        )
}

/// A failure in the middle is the failure of the whole.
proof fn lemma_fill_stops(l: LeagueView, teams: Seq<Text>, n: nat, m: nat)
    requires
        n <= m,
        rules::fill_teams(l, teams, n) is Err,
    ensures
        rules::fill_teams(l, teams, m) == rules::fill_teams(l, teams, n),
    decreases m,
{
    if n < m {
        lemma_fill_stops(l, teams, n, (m - 1) as nat);
    }
}

} // verus!
