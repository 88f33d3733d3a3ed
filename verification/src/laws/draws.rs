//! Who gets the free seats of a match.
use vstd::prelude::*;
use vstd::utf8::*;

use crate::collections;
use crate::error::ErrorView;
use crate::league;
use crate::model::rules;
use crate::model::views::{LeagueView, SeatView, Text};
use crate::order;
use crate::outside;

verus! {

/// The number is written in eight bytes, the highest first: byte by byte it is
/// `n / 256^7 % 256`, ..., `n / 256 % 256`, `n % 256`.
pub proof fn law_numbers_are_written_highest_first(n: u64)
    ensures
        rules::be_bytes(n).len() == 8,
        rules::be_bytes(n)[0] == n / 0x100_0000_0000_0000 % 256,
        rules::be_bytes(n)[1] == n / 0x1_0000_0000_0000 % 256,
        rules::be_bytes(n)[2] == n / 0x100_0000_0000 % 256,
        rules::be_bytes(n)[3] == n / 0x1_0000_0000 % 256,
        rules::be_bytes(n)[4] == n / 0x100_0000 % 256,
        rules::be_bytes(n)[5] == n / 0x1_0000 % 256,
        rules::be_bytes(n)[6] == n / 0x100 % 256,
        rules::be_bytes(n)[7] == n % 256,
{
    assert((n >> 56) & 0xff == n / 0x100_0000_0000_0000 % 256 && (n >> 48) & 0xff == n
        / 0x1_0000_0000_0000 % 256 && (n >> 40) & 0xff == n / 0x100_0000_0000 % 256 && (n >> 32)
        & 0xff == n / 0x1_0000_0000 % 256 && (n >> 24) & 0xff == n / 0x100_0000 % 256 && (n >> 16)
        & 0xff == n / 0x1_0000 % 256 && (n >> 8) & 0xff == n / 0x100 % 256 && (n >> 0) & 0xff == n
        % 256) by (bit_vector);
}

/// What decides the lot of a player: the digest of the league's seed, the number of the draw and
/// the player's name.
pub open spec fn ticket(seed: Seq<u8>, draw: int, player: Text) -> Seq<u8> {
    outside::sha256(seed + rules::be_bytes(draw as u64) + encode_utf8(player))
}

/// In the draw of that number the one player wins against the other.
pub open spec fn beats(seed: Seq<u8>, draw: int, a: Text, b: Text) -> bool {
    let x = ticket(seed, draw, a);
    let y = ticket(seed, draw, b);
    order::bytes_before(x, y) || (x == y && order::bytes_before(encode_utf8(a), encode_utf8(b)))
}

/// The player could take a seat of the team beside those who sit there: is of the team, online
/// and not seated.
pub open spec fn could_sit(l: LeagueView, team: Text, beside: Seq<SeatView>, player: Text) -> bool {
    &&& l.teams[team].members.contains(player)
    &&& l.online.contains(player)
    &&& forall|j: int| 0 <= j < beside.len() ==> (#[trigger] beside[j]).player != player
}

/// The seat was given in the draw of that number to the one who wins against all others who could
/// have taken it.
pub open spec fn was_drawn(
    l: LeagueView,
    team: Text,
    beside: Seq<SeatView>,
    seat: SeatView,
    draw: int,
) -> bool {
    &&& could_sit(l, team, beside, seat.player)
    &&& seat.disconnected_until is None
    &&& forall|o: Text| #[trigger]
        could_sit(l, team, beside, o) && o != seat.player ==> beats(
            l.random_seed,
            draw,
            seat.player,
            o,
        )
}

/// The seats of one team have been filled: those who sat there stay, each further seat was drawn
/// after the ones before it, and there are as many as the rules allow unless nobody else could
/// sit down.
pub open spec fn team_filled(l: LeagueView, next: LeagueView, team: Text) -> bool {
    let before = l.seats[team];
    let after = next.seats[team];
    &&& after.len() >= before.len()
    &&& after.take(before.len() as int) == before
    &&& forall|i: int|
        before.len() <= i < after.len() ==> {
            &&& (#[trigger] after[i]).epoch > l.epoch
            &&& after[i].epoch <= next.epoch
            &&& was_drawn(
                l,
                team,
                after.take(i),
                after[i],
                l.draw + (after[i].epoch - l.epoch) - 1,
            )
        }
    &&& forall|i: int, j: int|
        before.len() <= i < j < after.len() ==> (#[trigger] after[i]).epoch < (
        #[trigger] after[j]).epoch
    &&& after.len() <= before.len() || after.len() <= l.rules.seats
    &&& after.len() < l.rules.seats ==> forall|o: Text| !#[trigger] could_sit(l, team, after, o)
}

/// The player has got a further seat of the team.
pub open spec fn newly_seated(l: LeagueView, next: LeagueView, team: Text, player: Text) -> bool {
    exists|i: int|
        l.seats[team].len() <= i < next.seats[team].len() && (
        #[trigger] next.seats[team][i]).player == player
}

/// All seats have been filled, team by team in the order of the names: each draw has its own
/// number, who got a seat has played, and nothing else has changed.
pub open spec fn all_filled(l: LeagueView, next: LeagueView) -> bool {
    &&& next.seats.dom() == l.seats.dom()
    &&& forall|team: Text| #[trigger] l.seats.contains_key(team) ==> team_filled(l, next, team)
    &&& forall|a: Text, b: Text, i: int, j: int|
        #![trigger next.seats[a][i], next.seats[b][j]]
        l.seats.contains_key(a) && l.seats.contains_key(b) && order::bytes_before(
            encode_utf8(a),
            encode_utf8(b),
        ) && l.seats[a].len() <= i < next.seats[a].len() && l.seats[b].len() <= j
            < next.seats[b].len() ==> next.seats[a][i].epoch < next.seats[b][j].epoch
    &&& next.draw - l.draw == next.epoch - l.epoch
    &&& next.epoch >= l.epoch
    &&& forall|p: Text| #[trigger]
        next.played.contains(p) <==> l.played.contains(p) || exists|team: Text| #[trigger]
            l.seats.contains_key(team) && newly_seated(l, next, team, p)
    &&& next == (LeagueView {
        draw: next.draw,
        epoch: next.epoch,
        played: next.played,
        seats: next.seats,
        ..l
    })
}

// How one team fills its seats: with draws and epochs that follow one another.
spec fn run_filled(l: LeagueView, next: LeagueView, team: Text) -> bool {
    let before = l.seats[team];
    let after = next.seats[team];
    &&& after.len() >= before.len()
    &&& after.take(before.len() as int) == before
    &&& next.epoch == l.epoch + (after.len() - before.len())
    &&& next.draw == l.draw + (after.len() - before.len())
    &&& forall|i: int|
        before.len() <= i < after.len() ==> {
            &&& (#[trigger] after[i]).epoch == l.epoch + 1 + (i - before.len())
            &&& was_drawn(l, team, after.take(i), after[i], l.draw + (i - before.len()))
        }
    &&& after.len() <= before.len() || after.len() <= l.rules.seats
    &&& after.len() < l.rules.seats ==> rules::draw(next, team) is None
    &&& forall|p: Text| #[trigger]
        next.played.contains(p) <==> l.played.contains(p) || newly_seated(l, next, team, p)
    &&& next.seats == l.seats.insert(team, after)
    &&& next == (LeagueView {
        draw: next.draw,
        epoch: next.epoch,
        played: next.played,
        seats: next.seats,
        ..l
    })
}

proof fn lemma_could_sit(l: LeagueView, team: Text, player: Text)
    ensures
        could_sit(l, team, l.seats[team], player) <==> rules::eligible(l, team, player),
{
    let seats = l.seats[team];
    if rules::eligible(l, team, player) {
        assert forall|j: int| 0 <= j < seats.len() implies (#[trigger] seats[j]).player
            != player by {
            if seats[j].player == player {
                assert(rules::sits_at(seats, player, j));
            }
        }
    }
}

proof fn lemma_winner(l: LeagueView, team: Text, player: Text)
    requires
        rules::is_drawn(l, team, player),
    ensures
        was_drawn(
            l,
            team,
            l.seats[team],
            SeatView { player, epoch: (l.epoch + 1) as u64, disconnected_until: None },
            l.draw as int,
        ),
{
    lemma_could_sit(l, team, player);
    assert forall|o: Text| #[trigger] could_sit(l, team, l.seats[team], o) && o
        != player implies beats(l.random_seed, l.draw as int, player, o) by {
        lemma_could_sit(l, team, o);
        assert(rules::eligible(l, team, o));
        assert(rules::drawn_before(l.random_seed, l.draw, player, o));
    }
}

proof fn lemma_fill_run(l: LeagueView, team: Text)
    requires
        l.seats.contains_key(team),
    ensures
        match rules::fill_team(l, team) {
            Ok(next) => run_filled(l, next, team),
            Err(e) => {
                ||| e == ErrorView::Protocol("draw overflow"@)
                ||| e == ErrorView::Protocol("seat epoch overflow"@)
            },
        },
        rules::fill_team(l, team) is Err ==> l.draw + l.rules.seats > u64::MAX || l.epoch
            + l.rules.seats > u64::MAX,
        rules::fill_team(l, team) is Err ==> l.draw + (l.rules.seats - l.seats[team].len())
            > u64::MAX || l.epoch + (l.rules.seats - l.seats[team].len()) > u64::MAX,
    decreases l.rules.seats - l.seats[team].len(),
{
    let before = l.seats[team];
    if before.len() >= l.rules.seats || rules::draw(l, team) is None {
        assert(before.take(before.len() as int) =~= before);
        assert(l.seats =~= l.seats.insert(team, before));
    } else if l.draw < u64::MAX && l.epoch < u64::MAX {
        let player = rules::draw(l, team)->0;
        assert(rules::is_drawn(l, team, player));
        lemma_winner(l, team, player);
        let mid = rules::take_seat(l, team, player);
        let seat = SeatView { player, epoch: (l.epoch + 1) as u64, disconnected_until: None };
        lemma_fill_run(mid, team);
        if rules::fill_team(mid, team) is Ok {
            let next = rules::fill_team(mid, team)->Ok_0;
            let after = next.seats[team];
            let n = before.len() as int;
            assert(mid.seats[team] == before.push(seat));
            assert(after.take(n + 1)[n] == after[n]);
            assert(after[n] == seat);
            assert(after.take(n) =~= after.take(n + 1).take(n));
            assert(before.push(seat).take(n) =~= before);
            assert(next.seats =~= l.seats.insert(team, after));
            assert forall|i: int| n <= i < after.len() implies {
                &&& (#[trigger] after[i]).epoch == l.epoch + 1 + (i - n)
                &&& was_drawn(l, team, after.take(i), after[i], l.draw + (i - n))
            } by {
                if i > n {
                    let beside = after.take(i);
                    assert(was_drawn(mid, team, beside, after[i], mid.draw + (i - (n + 1))));
                    assert forall|o: Text| #[trigger] could_sit(l, team, beside, o) implies could_sit(
                        mid,
                        team,
                        beside,
                        o,
                    ) by {}
                }
            }
            assert forall|p: Text| #[trigger] next.played.contains(p) <==> l.played.contains(p)
                || newly_seated(l, next, team, p) by {
                if newly_seated(mid, next, team, p) {
                    let i = choose|i: int|
                        mid.seats[team].len() <= i < after.len() && (#[trigger] after[i]).player
                            == p;
                    assert(next.seats[team][i].player == p);
                }
                if newly_seated(l, next, team, p) {
                    let i = choose|i: int| n <= i < after.len() && (#[trigger] after[i]).player == p;
                    if i > n {
                        assert(next.seats[team][i].player == p);
                        assert(newly_seated(mid, next, team, p));
                    }
                }
                if p == player {
                    assert(next.seats[team][n].player == p);
                }
            }
        }
    }
}

proof fn lemma_somebody_wins(l: LeagueView, team: Text, set: Set<Text>) -> (player: Text)
    requires
        set.finite(),
        set.len() > 0,
    ensures
        set.contains(player),
        forall|o: Text| #[trigger]
            set.contains(o) && o != player ==> rules::drawn_before(
                l.random_seed,
                l.draw,
                player,
                o,
            ),
    decreases set.len(),
{
    let a = set.choose();
    assert(set.contains(a));
    let rest = set.remove(a);
    if rest.len() == 0 {
        assert forall|o: Text| #[trigger] set.contains(o) && o != a implies rules::drawn_before(
            l.random_seed,
            l.draw,
            a,
            o,
        ) by {
            assert(rest.contains(o));
        }
        a
    } else {
        let b = lemma_somebody_wins(l, team, rest);
        let x = rules::lot(l.random_seed, l.draw, a);
        let y = rules::lot(l.random_seed, l.draw, b);
        order::lemma_bytes_before_total(x, y);
        <String as order::Key>::total(a, b);
        if rules::drawn_before(l.random_seed, l.draw, a, b) {
            assert forall|o: Text| #[trigger] set.contains(o) && o != a implies rules::drawn_before(
                l.random_seed,
                l.draw,
                a,
                o,
            ) by {
                assert(rest.contains(o));
                if o != b {
                    league::lemma_drawn_before_transitive(l.random_seed, l.draw, a, b, o);
                }
            }
            a
        } else {
            assert(rules::drawn_before(l.random_seed, l.draw, b, a));
            assert forall|o: Text| #[trigger] set.contains(o) && o != b implies rules::drawn_before(
                l.random_seed,
                l.draw,
                b,
                o,
            ) by {
                if o != a {
                    assert(rest.contains(o));
                }
            }
            b
        }
    }
}

/// A draw has a winner exactly where somebody could take the seat, and the winner beats all
/// others who could.
pub proof fn law_draws_have_winners(l: LeagueView, team: Text)
    requires
        l.teams[team].members.finite(),
    ensures
        match rules::draw(l, team) {
            Some(player) => was_drawn(
                l,
                team,
                l.seats[team],
                SeatView { player, epoch: (l.epoch + 1) as u64, disconnected_until: None },
                l.draw as int,
            ),
            None => forall|o: Text| !#[trigger] could_sit(l, team, l.seats[team], o),
        },
{
    if rules::draw(l, team) is Some {
        let player = choose|player: Text| rules::is_drawn(l, team, player);
        lemma_winner(l, team, player);
    } else {
        let set = l.teams[team].members.filter(|o: Text| rules::eligible(l, team, o));
        vstd::set_lib::lemma_set_subset_finite(l.teams[team].members, set);
        assert forall|o: Text| !#[trigger] could_sit(l, team, l.seats[team], o) by {
            lemma_could_sit(l, team, o);
            if could_sit(l, team, l.seats[team], o) {
                assert(set.contains(o));
                if set.len() == 0 {
                    assert(set =~= Set::empty());
                }
                let winner = lemma_somebody_wins(l, team, set);
                assert forall|p: Text| #[trigger] rules::eligible(l, team, p) && p
                    != winner implies rules::drawn_before(l.random_seed, l.draw, winner, p) by {
                    assert(set.contains(p));
                }
                assert(rules::is_drawn(l, team, winner));
            }
        }
    }
}

// What the first teams have got; the others are as they were.
spec fn some_filled(l: LeagueView, next: LeagueView, teams: Seq<Text>, n: int) -> bool {
    &&& next.seats.dom() == l.seats.dom()
    &&& forall|k: int| 0 <= k < n ==> team_filled(l, next, #[trigger] teams[k])
    &&& forall|t: Text| #[trigger]
        l.seats.contains_key(t) && !collections::among(teams, n, t) ==> next.seats[t] == l.seats[t]
    &&& forall|j: int, k: int, a: int, b: int|
        #![trigger next.seats[teams[j]][a], next.seats[teams[k]][b]]
        0 <= j < k < n && l.seats[teams[j]].len() <= a < next.seats[teams[j]].len()
            && l.seats[teams[k]].len() <= b < next.seats[teams[k]].len()
            ==> next.seats[teams[j]][a].epoch < next.seats[teams[k]][b].epoch
    &&& next.draw - l.draw == next.epoch - l.epoch
    &&& next.epoch >= l.epoch
    &&& forall|p: Text| #[trigger]
        next.played.contains(p) <==> l.played.contains(p) || exists|k: int|
            0 <= k < n && newly_seated(l, next, #[trigger] teams[k], p)
    &&& next == (LeagueView {
        draw: next.draw,
        epoch: next.epoch,
        played: next.played,
        seats: next.seats,
        ..l
    })
}

proof fn lemma_team_of_run(l: LeagueView, mid: LeagueView, next: LeagueView, team: Text)
    requires
        l.seats.contains_key(team),
        l.teams[team].members.finite(),
        mid.seats[team] == l.seats[team],
        mid.draw - l.draw == mid.epoch - l.epoch,
        mid.epoch >= l.epoch,
        mid == (LeagueView {
            draw: mid.draw,
            epoch: mid.epoch,
            played: mid.played,
            seats: mid.seats,
            ..l
        }),
        run_filled(mid, next, team),
    ensures
        team_filled(l, next, team),
{
    let before = l.seats[team];
    let after = next.seats[team];
    assert forall|i: int| before.len() <= i < after.len() implies {
        &&& (#[trigger] after[i]).epoch > l.epoch
        &&& after[i].epoch <= next.epoch
        &&& was_drawn(l, team, after.take(i), after[i], l.draw + (after[i].epoch - l.epoch) - 1)
    } by {
        let beside = after.take(i);
        assert(was_drawn(mid, team, beside, after[i], mid.draw + (i - before.len())));
        assert forall|o: Text| #[trigger] could_sit(l, team, beside, o) implies could_sit(
            mid,
            team,
            beside,
            o,
        ) by {}
    }
    if after.len() < l.rules.seats {
        law_draws_have_winners(next, team);
        assert forall|o: Text| !#[trigger] could_sit(l, team, after, o) by {
            assert(!could_sit(next, team, after, o));
        }
    }
}

proof fn lemma_team_filled_grows(l: LeagueView, mid: LeagueView, next: LeagueView, team: Text)
    requires
        team_filled(l, mid, team),
        next.seats[team] == mid.seats[team],
        next.epoch >= mid.epoch,
    ensures
        team_filled(l, next, team),
{
    assert forall|i: int| l.seats[team].len() <= i < next.seats[team].len() implies {
        &&& (#[trigger] next.seats[team][i]).epoch > l.epoch
        &&& next.seats[team][i].epoch <= next.epoch
        &&& was_drawn(
            l,
            team,
            next.seats[team].take(i),
            next.seats[team][i],
            l.draw + (next.seats[team][i].epoch - l.epoch) - 1,
        )
    } by {
        assert(mid.seats[team][i].epoch > l.epoch);
    }
}

#[verifier::spinoff_prover]
#[verifier::rlimit(60)]
proof fn lemma_one_more_team(
    l: LeagueView,
    mid: LeagueView,
    next: LeagueView,
    teams: Seq<Text>,
    m: int,
)
    requires
        0 <= m < teams.len(),
        teams.no_duplicates(),
        l.seats.contains_key(teams[m]),
        l.teams[teams[m]].members.finite(),
        forall|k: int| 0 <= k < teams.len() ==> l.seats.contains_key(#[trigger] teams[k]),
        some_filled(l, mid, teams, m),
        run_filled(mid, next, teams[m]),
    ensures
        some_filled(l, next, teams, m + 1),
{
    let t = teams[m];
    let n = m + 1;
    assert(!collections::among(teams, m, t)) by {
        if collections::among(teams, m, t) {
            let k = choose|k: int| 0 <= k < m && #[trigger] teams[k] == t;
            assert(teams[k] == teams[m]);
        }
    }
    collections::lemma_among_next(teams, m);
    assert(mid.seats[t] == l.seats[t]);
    lemma_team_of_run(l, mid, next, t);
    assert(next.seats.dom() =~= l.seats.dom());
    assert forall|k: int| 0 <= k < n implies team_filled(l, next, #[trigger] teams[k]) by {
        if k < m {
            assert(teams[k] != teams[m]);
            assert(next.seats[teams[k]] == mid.seats[teams[k]]);
            lemma_team_filled_grows(l, mid, next, teams[k]);
        }
    }
    assert forall|o: Text| #[trigger] l.seats.contains_key(o) && !collections::among(
        teams,
        n,
        o,
    ) implies next.seats[o] == l.seats[o] by {
        assert(!collections::among(teams, m, o));
        assert(o != t);
        assert(mid.seats[o] == l.seats[o]);
    }
    assert forall|j: int, k: int, a: int, b: int|
        #![trigger next.seats[teams[j]][a], next.seats[teams[k]][b]]
        0 <= j < k < n && l.seats[teams[j]].len() <= a < next.seats[teams[j]].len()
            && l.seats[teams[k]].len() <= b
            < next.seats[teams[k]].len() implies next.seats[teams[j]][a].epoch
        < next.seats[teams[k]][b].epoch by {
        assert(teams[j] != teams[m]);
        assert(next.seats[teams[j]] == mid.seats[teams[j]]);
        assert(team_filled(l, mid, teams[j]));
        assert(mid.seats[teams[j]][a].epoch <= mid.epoch);
        if k < m {
            assert(teams[k] != teams[m]);
            assert(next.seats[teams[k]] == mid.seats[teams[k]]);
            assert(mid.seats[teams[j]][a].epoch < mid.seats[teams[k]][b].epoch);
        }
    }
    assert forall|p: Text| #[trigger] next.played.contains(p) <==> l.played.contains(p) || exists|
        k: int,
    | 0 <= k < n && newly_seated(l, next, #[trigger] teams[k], p) by {
        assert(next.played.contains(p) <==> mid.played.contains(p) || newly_seated(
            mid,
            next,
            t,
            p,
        ));
        assert(newly_seated(mid, next, t, p) == newly_seated(l, next, t, p));
        if exists|k: int| 0 <= k < m && newly_seated(l, mid, #[trigger] teams[k], p) {
            let k = choose|k: int| 0 <= k < m && newly_seated(l, mid, #[trigger] teams[k], p);
            assert(teams[k] != teams[m]);
            assert(next.seats[teams[k]] == mid.seats[teams[k]]);
            assert(newly_seated(l, next, teams[k], p));
        }
        if exists|k: int| 0 <= k < n && newly_seated(l, next, #[trigger] teams[k], p) {
            let k = choose|k: int| 0 <= k < n && newly_seated(l, next, #[trigger] teams[k], p);
            if k < m {
                assert(teams[k] != teams[m]);
                assert(next.seats[teams[k]] == mid.seats[teams[k]]);
                assert(newly_seated(l, mid, teams[k], p));
            }
        }
    }
}

proof fn lemma_fill_some(l: LeagueView, teams: Seq<Text>, n: nat)
    requires
        n <= teams.len(),
        teams.no_duplicates(),
        forall|i: int| 0 <= i < teams.len() ==> l.seats.contains_key(#[trigger] teams[i]),
        forall|i: int| 0 <= i < teams.len() ==> l.teams[#[trigger] teams[i]].members.finite(),
    ensures
        match rules::fill_teams(l, teams, n) {
            Ok(next) => some_filled(l, next, teams, n as int) && next.epoch - l.epoch <= n
                * l.rules.seats,
            Err(e) => {
                &&& e == ErrorView::Protocol("draw overflow"@) || e == ErrorView::Protocol(
                    "seat epoch overflow"@,
                )
                &&& l.draw + n * l.rules.seats > u64::MAX || l.epoch + n * l.rules.seats > u64::MAX
            },
        },
    decreases n,
{
    if n == 0 {
        assert(0 * l.rules.seats == 0) by (nonlinear_arith);
    } else {
        let m = (n - 1) as nat;
        lemma_fill_some(l, teams, m);
        assert(n * l.rules.seats == m * l.rules.seats + l.rules.seats) by (nonlinear_arith)
            requires
                n == m + 1,
        ;
        if rules::fill_teams(l, teams, m) is Ok {
            let mid = rules::fill_teams(l, teams, m)->Ok_0;
            let t = teams[m as int];
            assert(l.seats.contains_key(t));
            assert(mid.seats.dom().contains(t));
            lemma_fill_run(mid, t);
            if rules::fill_team(mid, t) is Ok {
                let next = rules::fill_team(mid, t)->Ok_0;
                lemma_one_more_team(l, mid, next, teams, m as int);
            }
        }
    }
}

/// Free seats are filled team by team, each by a draw of its own among those of the team who are
/// online and not seated. Only numbers that run out can prevent it.
pub proof fn law_free_seats_are_drawn(l: LeagueView)
    requires
        l.seats.dom().finite(),
        forall|team: Text| #[trigger]
            l.seats.contains_key(team) ==> l.teams[team].members.finite(),
    ensures
        match rules::fill_vacancies(l) {
            Ok(next) => all_filled(l, next),
            Err(e) => {
                &&& e == ErrorView::Protocol("draw overflow"@) || e == ErrorView::Protocol(
                    "seat epoch overflow"@,
                )
                &&& l.draw + l.seats.len() * l.rules.seats > u64::MAX || l.epoch + l.seats.len()
                    * l.rules.seats > u64::MAX
            },
        },
{
    let teams = collections::keys_of::<String, Seq<SeatView>>(l.seats);
    collections::lemma_listable::<String>(l.seats.dom());
    assert forall|i: int| 0 <= i < teams.len() implies l.seats.contains_key(#[trigger] teams[i]) by {
        assert(l.seats.dom().contains(teams[i]));
    }
    assert forall|i: int, j: int| 0 <= i < teams.len() && 0 <= j < teams.len() && i
        != j implies teams[i] != teams[j] by {
        <String as order::Key>::irreflexive(teams[i]);
        if i < j {
            assert(<String as order::Key>::before(teams[i], teams[j]));
        } else {
            assert(<String as order::Key>::before(teams[j], teams[i]));
        }
    }
    lemma_fill_some(l, teams, teams.len());
    if rules::fill_vacancies(l) is Ok {
        let next = rules::fill_vacancies(l)->Ok_0;
        assert forall|team: Text| #[trigger] l.seats.contains_key(team) implies exists|k: int|
            0 <= k < teams.len() && #[trigger] teams[k] == team by {
            assert(l.seats.dom().contains(team));
            let k = teams.index_of(team);
            assert(teams[k] == team);
        }
        assert forall|team: Text| #[trigger] l.seats.contains_key(team) implies team_filled(
            l,
            next,
            team,
        ) by {
            let k = choose|k: int| 0 <= k < teams.len() && #[trigger] teams[k] == team;
            assert(team_filled(l, next, teams[k]));
        }
        assert forall|a: Text, b: Text, i: int, j: int|
            #![trigger next.seats[a][i], next.seats[b][j]]
            l.seats.contains_key(a) && l.seats.contains_key(b) && order::bytes_before(
                encode_utf8(a),
                encode_utf8(b),
            ) && l.seats[a].len() <= i < next.seats[a].len() && l.seats[b].len() <= j
                < next.seats[b].len() implies next.seats[a][i].epoch < next.seats[b][j].epoch by {
            let x = choose|k: int| 0 <= k < teams.len() && #[trigger] teams[k] == a;
            let y = choose|k: int| 0 <= k < teams.len() && #[trigger] teams[k] == b;
            if x >= y {
                <String as order::Key>::irreflexive(a);
                if x > y {
                    assert(<String as order::Key>::before(teams[y], teams[x]));
                    <String as order::Key>::transitive(a, b, a);
                }
            }
            assert(next.seats[teams[x]][i].epoch < next.seats[teams[y]][j].epoch);
        }
        assert forall|p: Text| #[trigger] next.played.contains(p) <==> l.played.contains(p)
            || exists|team: Text| #[trigger]
            l.seats.contains_key(team) && newly_seated(l, next, team, p) by {
            if exists|k: int| 0 <= k < teams.len() && newly_seated(l, next, #[trigger] teams[k], p) {
                let k = choose|k: int|
                    0 <= k < teams.len() && newly_seated(l, next, #[trigger] teams[k], p);
                assert(l.seats.contains_key(teams[k]));
            }
            if exists|team: Text| #[trigger]
                l.seats.contains_key(team) && newly_seated(l, next, team, p) {
                let team = choose|team: Text| #[trigger]
                    l.seats.contains_key(team) && newly_seated(l, next, team, p);
                let k = choose|k: int| 0 <= k < teams.len() && #[trigger] teams[k] == team;
                assert(newly_seated(l, next, teams[k], p));
            }
        }
    }
}

} // verus!
