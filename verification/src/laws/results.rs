//! What commands do to scores, results and seasons.
use vstd::prelude::*;
use vstd::utf8::*;

use crate::collections;
use crate::error::{ErrorView, Outcome};
use crate::laws::deliberation;
use crate::laws::membership;
use crate::model::rules;
use crate::model::views::{ActionView, DisputeView, LeagueView, StateView, Text};
use crate::order;
use crate::outside;
use crate::season::Schedule;

verus! {

/// The sum of `f` over a finite set.
pub open spec fn sum_over(set: Set<Text>, f: spec_fn(Text) -> int) -> int
    decreases set.len(),
{
    if set.finite() && set.len() > 0 {
        let a = set.choose();
        f(a) + sum_over(set.remove(a), f)
    } else {
        0
    }
}

proof fn lemma_sum_pick(set: Set<Text>, f: spec_fn(Text) -> int, a: Text)
    requires
        set.finite(),
        set.contains(a),
    ensures
        sum_over(set, f) == f(a) + sum_over(set.remove(a), f),
    decreases set.len(),
{
    let c = set.choose();
    if set.len() == 0 {
        assert(set =~= Set::empty());
    }
    assert(set.contains(c));
    if c != a {
        lemma_sum_pick(set.remove(c), f, a);
        lemma_sum_pick(set.remove(a), f, c);
        assert(set.remove(c).remove(a) =~= set.remove(a).remove(c));
    }
}

/// What a league adds to the points of a team or a player: the score, where the league is
/// finished, and nothing otherwise.
pub open spec fn adds(leagues: Map<Text, LeagueView>, teams: bool, name: Text) -> spec_fn(
    Text,
) -> int {
    |id: Text|
        {
            let scores = if teams {
                leagues[id].team_scores
            } else {
                leagues[id].player_scores
            };
            if leagues[id].phase is Finished && scores.contains_key(name) {
                scores[name] as int
            } else {
                0
            }
        }
}

/// The same without regard to the sign.
pub open spec fn moves(leagues: Map<Text, LeagueView>, teams: bool, name: Text) -> spec_fn(
    Text,
) -> int {
    |id: Text|
        {
            let points = adds(leagues, teams, name)(id);
            if points < 0 {
                -points
            } else {
                points
            }
        }
}

/// Some finished league of the set has a score for the team or the player.
pub open spec fn is_scored(
    leagues: Map<Text, LeagueView>,
    set: Set<Text>,
    teams: bool,
    name: Text,
) -> bool {
    exists|id: Text| #[trigger]
        set.contains(id) && leagues[id].phase is Finished && if teams {
            leagues[id].team_scores.contains_key(name)
        } else {
            leagues[id].player_scores.contains_key(name)
        }
}

spec fn adds_up(
    leagues: Map<Text, LeagueView>,
    set: Set<Text>,
    teams: bool,
    totals: Map<Text, i64>,
) -> bool {
    forall|name: Text|
        {
            &&& #[trigger] totals.contains_key(name) <==> is_scored(leagues, set, teams, name)
            &&& totals.contains_key(name) ==> totals[name] == sum_over(
                set,
                adds(leagues, teams, name),
            )
            &&& !totals.contains_key(name) ==> sum_over(set, adds(leagues, teams, name)) == 0
        }
}

proof fn lemma_taken(ids: Seq<Text>, n: int)
    requires
        0 <= n < ids.len(),
        ids.no_duplicates(),
    ensures
        ids.take(n + 1).to_set() == ids.take(n).to_set().insert(ids[n]),
        !ids.take(n).to_set().contains(ids[n]),
        ids.take(n + 1).to_set().finite(),
{
    let a = ids.take(n + 1).to_set();
    let b = ids.take(n).to_set();
    assert forall|x: Text| a.contains(x) <==> b.insert(ids[n]).contains(x) by {
        if a.contains(x) {
            let j = ids.take(n + 1).index_of(x);
            assert(ids.take(n + 1)[j] == x);
            if j < n {
                assert(ids.take(n)[j] == x);
            }
        }
        if b.contains(x) {
            let j = ids.take(n).index_of(x);
            assert(ids.take(n)[j] == x);
            assert(ids.take(n + 1)[j] == x);
        }
        if x == ids[n] {
            assert(ids.take(n + 1)[n] == x);
        }
    }
    assert(a =~= b.insert(ids[n]));
    if b.contains(ids[n]) {
        let j = ids.take(n).index_of(ids[n]);
        assert(ids.take(n)[j] == ids[n]);
        assert(ids[j] == ids[n]);
    }
    vstd::seq_lib::seq_to_set_is_finite(ids.take(n + 1));
}

/// One more league: its scores join the totals if it is finished.
proof fn lemma_one_more(
    leagues: Map<Text, LeagueView>,
    set: Set<Text>,
    id: Text,
    teams: bool,
    totals: Map<Text, i64>,
)
    requires
        set.finite(),
        !set.contains(id),
        adds_up(leagues, set, teams, totals),
    ensures
        !(leagues[id].phase is Finished) ==> adds_up(leagues, set.insert(id), teams, totals),
        leagues[id].phase is Finished ==> (rules::summed(
            totals,
            if teams {
                leagues[id].team_scores
            } else {
                leagues[id].player_scores
            },
        ) matches Some(more) ==> adds_up(leagues, set.insert(id), teams, more)),
{
    let scores = if teams {
        leagues[id].team_scores
    } else {
        leagues[id].player_scores
    };
    let more = if leagues[id].phase is Finished {
        rules::summed(totals, scores)
    } else {
        Some(totals)
    };
    let all = set.insert(id);
    if more is Some {
        let next = more->0;
        assert forall|name: Text|
            {
                &&& #[trigger] next.contains_key(name) <==> is_scored(leagues, all, teams, name)
                &&& next.contains_key(name) ==> next[name] == sum_over(
                    all,
                    adds(leagues, teams, name),
                )
                &&& !next.contains_key(name) ==> sum_over(all, adds(leagues, teams, name)) == 0
            } by {
            let f = adds(leagues, teams, name);
            lemma_sum_pick(all, f, id);
            assert(all.remove(id) =~= set);
            assert(totals.contains_key(name) <==> is_scored(leagues, set, teams, name));
            if is_scored(leagues, set, teams, name) {
                let w = choose|w: Text| #[trigger]
                    set.contains(w) && leagues[w].phase is Finished && if teams {
                        leagues[w].team_scores.contains_key(name)
                    } else {
                        leagues[w].player_scores.contains_key(name)
                    };
                assert(all.contains(w));
            }
            if is_scored(leagues, all, teams, name) {
                let w = choose|w: Text| #[trigger]
                    all.contains(w) && leagues[w].phase is Finished && if teams {
                        leagues[w].team_scores.contains_key(name)
                    } else {
                        leagues[w].player_scores.contains_key(name)
                    };
                if w != id {
                    assert(set.contains(w));
                }
            }
            assert(all.contains(id));
        }
    }
}

proof fn lemma_tally(leagues: Map<Text, LeagueView>, ids: Seq<Text>, n: nat)
    requires
        n <= ids.len(),
        ids.no_duplicates(),
    ensures
        match rules::tally(leagues, ids, n) {
            Ok((teams, players)) => {
                &&& forall|i: int| 0 <= i < n ==> leagues.contains_key(#[trigger] ids[i])
                &&& adds_up(leagues, ids.take(n as int).to_set(), true, teams)
                &&& adds_up(leagues, ids.take(n as int).to_set(), false, players)
            },
            Err(e) => {
                ||| e == ErrorView::NotFound && exists|i: int|
                    0 <= i < n && !leagues.contains_key(#[trigger] ids[i])
                ||| e == ErrorView::Capacity
            },
        },
    decreases n,
{
    if n == 0 {
        let none = ids.take(0).to_set();
        assert(none =~= Set::<Text>::empty()) by {
            assert(ids.take(0) =~= Seq::<Text>::empty());
        }
        assert forall|name: Text| !is_scored(leagues, none, true, name) && !is_scored(
            leagues,
            none,
            false,
            name,
        ) by {}
    } else {
        let m = (n - 1) as nat;
        lemma_tally(leagues, ids, m);
        lemma_taken(ids, m as int);
        let set = ids.take(m as int).to_set();
        vstd::seq_lib::seq_to_set_is_finite(ids.take(m as int));
        match rules::tally(leagues, ids, m) {
            Ok((teams, players)) => {
                lemma_one_more(leagues, set, ids[m as int], true, teams);
                lemma_one_more(leagues, set, ids[m as int], false, players);
            },
            Err(_) => {},
        }
    }
}

proof fn lemma_distinct(ids: Seq<Text>)
    requires
        collections::ascending::<String>(ids),
    ensures
        ids.no_duplicates(),
{
    assert forall|i: int, j: int| 0 <= i < ids.len() && 0 <= j < ids.len() && i != j implies ids[i]
        != ids[j] by {
        if i < j {
            assert(<String as order::Key>::before(ids[i], ids[j]));
            <String as order::Key>::irreflexive(ids[i]);
        } else {
            assert(<String as order::Key>::before(ids[j], ids[i]));
            <String as order::Key>::irreflexive(ids[i]);
        }
    }
}

/// The total of a team or a player in a season is the sum of its scores over the finished leagues
/// of the season. Who has no score there is not named, whatever happened in other leagues.
pub proof fn law_totals_count_finished_leagues(s: StateView, id: Text)
    requires
        s.seasons.contains_key(id) ==> s.seasons[id].leagues.finite(),
    ensures
        match rules::season_totals(s, id) {
            Ok((teams, players)) => {
                let set = s.seasons[id].leagues;
                &&& s.seasons.contains_key(id)
                &&& forall|league: Text| #[trigger]
                    set.contains(league) ==> s.leagues.contains_key(league)
                &&& forall|name: Text| #[trigger]
                    teams.contains_key(name) <==> is_scored(s.leagues, set, true, name)
                &&& forall|name: Text| #[trigger]
                    players.contains_key(name) <==> is_scored(s.leagues, set, false, name)
                &&& forall|name: Text| #[trigger]
                    teams.contains_key(name) ==> teams[name] == sum_over(
                        set,
                        adds(s.leagues, true, name),
                    )
                &&& forall|name: Text| #[trigger]
                    players.contains_key(name) ==> players[name] == sum_over(
                        set,
                        adds(s.leagues, false, name),
                    )
            },
            Err(e) => {
                ||| e == ErrorView::NotFound && !s.seasons.contains_key(id)
                ||| e == ErrorView::NotFound && exists|league: Text| #[trigger]
                    s.seasons[id].leagues.contains(league) && !s.leagues.contains_key(league)
                ||| e == ErrorView::Capacity && s.seasons.contains_key(id)
            },
        },
{
    if s.seasons.contains_key(id) {
        let set = s.seasons[id].leagues;
        let ids = collections::items_of::<String>(set);
        collections::lemma_listable::<String>(set);
        lemma_distinct(ids);
        lemma_tally(s.leagues, ids, ids.len());
        assert(ids.take(ids.len() as int) =~= ids);
        assert(ids.to_set() =~= set);
        assert forall|league: Text| #[trigger] set.contains(league) implies exists|i: int|
            0 <= i < ids.len() && #[trigger] ids[i] == league by {
            let i = ids.index_of(league);
            assert(ids[i] == league);
        }
    }
}

/// A league that is not finished changes no total: whatever its scores are, the totals of the
/// season are those without it.
pub proof fn law_other_leagues_do_not_count(s: StateView, id: Text, league: Text, l: LeagueView)
    requires
        s.seasons.contains_key(id),
        s.seasons[id].leagues.finite(),
        s.leagues.contains_key(league),
        !(s.leagues[league].phase is Finished),
        !(l.phase is Finished),
    ensures
        rules::season_totals(StateView { leagues: s.leagues.insert(league, l), ..s }, id)
            == rules::season_totals(s, id),
{
    let ids = collections::items_of::<String>(s.seasons[id].leagues);
    lemma_tally_ignores(s.leagues, league, l, ids, ids.len());
}

proof fn lemma_tally_ignores(
    leagues: Map<Text, LeagueView>,
    league: Text,
    l: LeagueView,
    ids: Seq<Text>,
    n: nat,
)
    requires
        leagues.contains_key(league),
        !(leagues[league].phase is Finished),
        !(l.phase is Finished),
    ensures
        rules::tally(leagues.insert(league, l), ids, n) == rules::tally(leagues, ids, n),
    decreases n,
{
    if n > 0 {
        lemma_tally_ignores(leagues, league, l, ids, (n - 1) as nat);
    }
}

proof fn lemma_sum_bounds(
    leagues: Map<Text, LeagueView>,
    set: Set<Text>,
    teams: bool,
    name: Text,
)
    requires
        set.finite(),
    ensures
        sum_over(set, adds(leagues, teams, name)) <= sum_over(set, moves(leagues, teams, name)),
        -sum_over(set, adds(leagues, teams, name)) <= sum_over(set, moves(leagues, teams, name)),
        sum_over(set, moves(leagues, teams, name)) >= 0,
    decreases set.len(),
{
    if set.len() > 0 {
        let a = set.choose();
        lemma_sum_bounds(leagues, set.remove(a), teams, name);
    }
}

proof fn lemma_sum_grows(set: Set<Text>, all: Set<Text>, f: spec_fn(Text) -> int)
    requires
        all.finite(),
        set.subset_of(all),
        forall|id: Text| #[trigger] f(id) >= 0,
    ensures
        sum_over(set, f) <= sum_over(all, f),
    decreases all.len(),
{
    vstd::set_lib::lemma_set_subset_finite(all, set);
    if set != all {
        let a = choose|a: Text| #[trigger] all.contains(a) && !set.contains(a);
        if forall|a: Text| #[trigger] all.contains(a) ==> set.contains(a) {
            assert(set =~= all);
        }
        assert(all.contains(a) && !set.contains(a));
        lemma_sum_pick(all, f, a);
        assert(set.subset_of(all.remove(a)));
        lemma_sum_grows(set, all.remove(a), f);
        assert(f(a) >= 0);
    }
}

/// The points of all names in the leagues of the set stay within bounds, whatever their signs.
pub open spec fn moderate(leagues: Map<Text, LeagueView>, set: Set<Text>) -> bool {
    forall|name: Text, teams: bool|
        sum_over(set, #[trigger] moves(leagues, teams, name)) <= i64::MAX
}

proof fn lemma_no_overflow(
    leagues: Map<Text, LeagueView>,
    set: Set<Text>,
    all: Set<Text>,
    id: Text,
    teams: bool,
    totals: Map<Text, i64>,
)
    requires
        all.finite(),
        moderate(leagues, all),
        set.insert(id).subset_of(all),
        !set.contains(id),
        adds_up(leagues, set, teams, totals),
        leagues[id].phase is Finished,
    ensures
        rules::summed(
            totals,
            if teams {
                leagues[id].team_scores
            } else {
                leagues[id].player_scores
            },
        ) is Some,
{
    let scores = if teams {
        leagues[id].team_scores
    } else {
        leagues[id].player_scores
    };
    assert forall|name: Text| #[trigger] scores.contains_key(name) && totals.contains_key(
        name,
    ) implies !rules::overflows(totals[name], scores[name]) by {
        let f = adds(leagues, teams, name);
        let g = moves(leagues, teams, name);
        let more = set.insert(id);
        vstd::set_lib::lemma_set_subset_finite(all, more);
        vstd::set_lib::lemma_set_subset_finite(all, set);
        lemma_sum_pick(more, f, id);
        assert(more.remove(id) =~= set);
        lemma_sum_bounds(leagues, more, teams, name);
        assert forall|x: Text| #[trigger] g(x) >= 0 by {}
        lemma_sum_grows(more, all, g);
        assert(sum_over(all, g) <= i64::MAX);
    }
}

proof fn lemma_tally_succeeds(leagues: Map<Text, LeagueView>, ids: Seq<Text>, n: nat, all: Set<Text>)
    requires
        n <= ids.len(),
        ids.no_duplicates(),
        all.finite(),
        forall|i: int| 0 <= i < ids.len() ==> all.contains(#[trigger] ids[i]),
        forall|i: int| 0 <= i < ids.len() ==> leagues.contains_key(#[trigger] ids[i]),
        moderate(leagues, all),
    ensures
        rules::tally(leagues, ids, n) is Ok,
    decreases n,
{
    if n > 0 {
        let m = (n - 1) as nat;
        lemma_tally_succeeds(leagues, ids, m, all);
        lemma_tally(leagues, ids, m);
        lemma_taken(ids, m as int);
        let set = ids.take(m as int).to_set();
        let id = ids[m as int];
        assert forall|x: Text| #[trigger] set.insert(id).contains(x) implies all.contains(x) by {
            if x != id {
                let j = ids.take(m as int).index_of(x);
                assert(ids.take(m as int)[j] == ids[j]);
            }
        }
        match rules::tally(leagues, ids, m) {
            Ok((teams, players)) => {
                if leagues[id].phase is Finished {
                    lemma_no_overflow(leagues, set, all, id, true, teams);
                    lemma_no_overflow(leagues, set, all, id, false, players);
                }
            },
            Err(_) => {},
        }
    }
}

/// A season whose leagues all exist has totals, unless the points are out of all proportion.
pub proof fn law_seasons_have_totals(s: StateView, id: Text)
    requires
        s.seasons.contains_key(id),
        s.seasons[id].leagues.finite(),
        forall|league: Text| #[trigger]
            s.seasons[id].leagues.contains(league) ==> s.leagues.contains_key(league),
        moderate(s.leagues, s.seasons[id].leagues),
    ensures
        rules::season_totals(s, id) is Ok,
{
    let set = s.seasons[id].leagues;
    let ids = collections::items_of::<String>(set);
    collections::lemma_listable::<String>(set);
    lemma_distinct(ids);
    lemma_tally_succeeds(s.leagues, ids, ids.len(), set);
}

/// In a ranking each name stands once, with its total, and before all that have fewer points, or
/// as many and a name that comes later.
pub proof fn law_rankings_are_ordered(totals: Map<Text, i64>, list: Seq<(Text, i64)>)
    requires
        rules::is_ranking(totals, list),
    ensures
        forall|i: int, j: int|
            0 <= i < j < list.len() ==> {
                &&& (#[trigger] list[i]).1 >= (#[trigger] list[j]).1
                &&& list[i].1 == list[j].1 ==> order::bytes_before(
                    encode_utf8(list[i].0),
                    encode_utf8(list[j].0),
                )
                &&& list[i].0 != list[j].0
            },
        forall|name: Text| #[trigger]
            totals.contains_key(name) ==> list.contains((name, totals[name])),
        forall|i: int|
            0 <= i < list.len() ==> totals.contains_key((#[trigger] list[i]).0)
                && totals[list[i].0] == list[i].1,
{
    assert forall|i: int, j: int| 0 <= i < j < list.len() implies {
        &&& (#[trigger] list[i]).1 >= (#[trigger] list[j]).1
        &&& list[i].1 == list[j].1 ==> order::bytes_before(
            encode_utf8(list[i].0),
            encode_utf8(list[j].0),
        )
        &&& list[i].0 != list[j].0
    } by {
        assert(rules::outranks(list[i], list[j]));
        if list[i].0 == list[j].0 {
            order::lemma_bytes_before_irreflexive(encode_utf8(list[i].0));
        }
    }
    assert forall|name: Text| #[trigger] totals.contains_key(name) implies list.contains(
        (name, totals[name]),
    ) by {
        let i = choose|i: int| 0 <= i < list.len() && #[trigger] list[i].0 == name;
        assert(list[i] == (name, totals[name]));
    }
}

/// The change of a score cannot be made, and why.
pub open spec fn is_refused_change(
    scores: Map<Text, i64>,
    deltas: Map<Text, i64>,
    allowed: Option<Set<Text>>,
    id: Text,
) -> bool {
    ||| allowed is Some && !(allowed->0).contains(id)
    ||| !scores.contains_key(id)
    ||| !(i64::MIN <= scores[id] + deltas[id] <= i64::MAX)
}

/// Scores change by exactly what is given, all or none of them; the first change by name that
/// cannot be made says why.
pub proof fn law_scores_change_as_given(
    scores: Map<Text, i64>,
    deltas: Map<Text, i64>,
    allowed: Option<Set<Text>>,
    stranger: ErrorView,
    overflow: ErrorView,
)
    requires
        deltas.dom().finite(),
    ensures
        match rules::add_deltas(scores, deltas, allowed, stranger, overflow) {
            Ok(next) => {
                &&& forall|id: Text| #[trigger]
                    deltas.contains_key(id) ==> !is_refused_change(scores, deltas, allowed, id)
                &&& next.dom() == scores.dom()
                &&& forall|id: Text| #[trigger]
                    next.contains_key(id) ==> next[id] - scores[id] == if deltas.contains_key(id) {
                        deltas[id] as int
                    } else {
                        0
                    }
            },
            Err(e) => exists|id: Text| #[trigger]
                deltas.contains_key(id) && is_refused_change(scores, deltas, allowed, id) && e
                    == (if allowed is Some && !(allowed->0).contains(id) {
                    stranger
                } else if !scores.contains_key(id) {
                    ErrorView::NotFound
                } else {
                    overflow
                }) && forall|o: Text| #[trigger]
                    deltas.contains_key(o) && order::bytes_before(encode_utf8(o), encode_utf8(id))
                        ==> !is_refused_change(scores, deltas, allowed, o),
        },
{
    let test = rules::delta_test(scores, allowed, stranger, overflow);
    assert forall|id: Text| #[trigger] deltas.contains_key(id) implies test(id, deltas[id])
        == is_refused_change(scores, deltas, allowed, id) by {}
    let first = collections::first_key::<String, i64>(deltas, test);
    if first is None {
        collections::lemma_first_key_absent::<String, i64>(deltas, test);
        assert(rules::changed(scores, deltas).dom() =~= scores.dom());
    } else {
        let id = choose|id: Text| collections::is_first::<String, i64>(deltas, test, id);
        assert(deltas.contains_key(id));
        assert forall|o: Text| #[trigger]
            deltas.contains_key(o) && order::bytes_before(
                encode_utf8(o),
                encode_utf8(id),
            ) implies !is_refused_change(scores, deltas, allowed, o) by {
            if test(o, deltas[o]) {
                if o == id {
                    order::lemma_bytes_before_irreflexive(encode_utf8(id));
                } else {
                    order::lemma_bytes_before_transitive(
                        encode_utf8(o),
                        encode_utf8(id),
                        encode_utf8(o),
                    );
                    order::lemma_bytes_before_irreflexive(encode_utf8(o));
                }
            }
        }
    }
}

/// Of the state at most the one league has changed.
pub open spec fn touches_league(s: StateView, next: StateView, league: Text) -> bool {
    &&& s.leagues.contains_key(league)
    &&& next.leagues.contains_key(league)
    &&& next.leagues.remove(league) == s.leagues.remove(league)
    &&& next == (StateView { leagues: next.leagues, ..s })
}

/// Scores after a change by what is given.
pub open spec fn shifted(before: Map<Text, i64>, after: Map<Text, i64>, by: Map<Text, i64>) -> bool {
    &&& after.dom() == before.dom()
    &&& forall|id: Text| #[trigger] by.contains_key(id) ==> before.contains_key(id)
    &&& forall|id: Text| #[trigger]
        after.contains_key(id) ==> after[id] == before[id] + if by.contains_key(id) {
            by[id] as int
        } else {
            0
        }
}

/// The scorer reports an event of a match: the points of players who took part and of teams change
/// by what the report says, and the event is remembered by its digest. The same report again
/// changes nothing, and another one under the same name is refused.
pub proof fn law_scores_are_reported(
    s: StateView,
    actor: Text,
    now: u64,
    league: Text,
    event: Text,
    players: Map<Text, i64>,
    teams: Map<Text, i64>,
)
    requires
        players.dom().finite(),
        teams.dom().finite(),
    ensures
        ({
            let l = s.leagues[league];
            let there = s.leagues.contains_key(league);
            let may = there && actor == l.scorer && membership::names(event);
            let known = l.score_events.contains_key(event);
            let mark = rules::digest(outside::score_json(players, teams));
            let first = rules::add_deltas(
                l.player_scores,
                players,
                Some(l.played),
                ErrorView::Protocol("player has not participated"@),
                ErrorView::Protocol("score overflow"@),
            );
            let second = rules::add_deltas(
                l.team_scores,
                teams,
                None,
                ErrorView::Protocol("player has not participated"@),
                ErrorView::Protocol("score overflow"@),
            );
            match rules::step(
                s,
                actor,
                now,
                ActionView::Score { league, event, players, teams },
                false,
            ) {
                Ok(next) => {
                    let after = next.leagues[league];
                    &&& may && touches_league(s, next, league)
                    &&& known ==> l.score_events[event] == mark && after == l
                    &&& !known ==> {
                        &&& l.phase is Playing
                        &&& shifted(l.player_scores, after.player_scores, players)
                        &&& shifted(l.team_scores, after.team_scores, teams)
                        &&& forall|p: Text| #[trigger]
                            players.contains_key(p) ==> l.played.contains(p)
                        &&& after.score_events.contains_key(event) && after.score_events[event]
                            == mark
                        &&& after.score_events.remove(event) == l.score_events
                        &&& after == (LeagueView {
                            player_scores: after.player_scores,
                            team_scores: after.team_scores,
                            score_events: after.score_events,
                            ..l
                        })
                    }
                },
                Err(e) => {
                    ||| e == ErrorView::NotFound && !there
                    ||| e == ErrorView::Denied && there && actor != l.scorer
                    ||| e == ErrorView::Protocol("invalid identifier"@) && there && actor
                        == l.scorer && !membership::names(event)
                    ||| e == ErrorView::Protocol("score event id reused with different payload"@)
                        && may && known && l.score_events[event] != mark
                    ||| e == ErrorView::Protocol("not playing"@) && may && !known && !(
                    l.phase is Playing)
                    ||| may && !known && l.phase is Playing && first
                        == Outcome::<Map<Text, i64>>::Err(e)
                    ||| may && !known && l.phase is Playing && first is Ok && second
                        == Outcome::<Map<Text, i64>>::Err(e)
                },
            }
        }),
{
    let l = s.leagues[league];
    let stranger = ErrorView::Protocol("player has not participated"@);
    let overflow = ErrorView::Protocol("score overflow"@);
    law_scores_change_as_given(l.player_scores, players, Some(l.played), stranger, overflow);
    law_scores_change_as_given(l.team_scores, teams, None, stranger, overflow);
    let result = rules::step(
        s,
        actor,
        now,
        ActionView::Score { league, event, players, teams },
        false,
    );
    if result is Ok {
        let next = result->Ok_0;
        let after = next.leagues[league];
        assert(next.leagues.remove(league) =~= s.leagues.remove(league));
        if !l.score_events.contains_key(event) {
            assert(after.score_events.remove(event) =~= l.score_events);
            assert forall|p: Text| #[trigger] players.contains_key(p) implies l.played.contains(
                p,
            ) && l.player_scores.contains_key(p) by {
                assert(!is_refused_change(l.player_scores, players, Some(l.played), p));
            }
            assert forall|t: Text| #[trigger] teams.contains_key(
                t,
            ) implies l.team_scores.contains_key(t) by {
                assert(!is_refused_change(l.team_scores, teams, None, t));
            }
        }
    }
}

/// The scorer ends a match that has begun, and may say so again. Nothing but the phase changes.
pub proof fn law_matches_end(s: StateView, actor: Text, now: u64, league: Text)
    ensures
        ({
            let l = s.leagues[league];
            let there = s.leagues.contains_key(league);
            match rules::step(s, actor, now, ActionView::Finish { league }, false) {
                Ok(next) => {
                    let after = next.leagues[league];
                    &&& touches_league(s, next, league)
                    &&& actor == l.scorer
                    &&& !(l.phase is Registration)
                    &&& after.phase is Finished
                    &&& after == (LeagueView { phase: after.phase, ..l })
                },
                Err(e) => {
                    ||| e == ErrorView::NotFound && !there
                    ||| e == ErrorView::Denied && there && actor != l.scorer
                    ||| e == ErrorView::Protocol("not started"@) && there && actor == l.scorer
                        && l.phase is Registration
                },
            }
        }),
{
    let result = rules::step(s, actor, now, ActionView::Finish { league }, false);
    if result is Ok {
        assert(result->Ok_0.leagues.remove(league) =~= s.leagues.remove(league));
    }
}

/// A season begins with its title and without leagues.
pub proof fn law_seasons_begin(
    s: StateView,
    actor: Text,
    now: u64,
    id: Text,
    title: Text,
    approved: bool,
)
    requires
        membership::may_manage(s, actor, approved),
    ensures
        ({
            let proper = deliberation::says(id, 128) && deliberation::says(title, 256)
                && !s.seasons.contains_key(id) && s.seasons.len() < 1024;
            match rules::step(s, actor, now, ActionView::CreateSeason { id, title }, approved) {
                Ok(next) => {
                    &&& proper
                    &&& next.seasons.contains_key(id)
                    &&& next.seasons[id].title == title
                    &&& next.seasons[id].leagues == Set::<Text>::empty()
                    &&& next.seasons.remove(id) == s.seasons
                    &&& next == (StateView { seasons: next.seasons, ..s })
                },
                Err(e) => e == ErrorView::Denied && !proper,
            }
        }),
{
    deliberation::law_texts_say_something(id, 128);
    deliberation::law_texts_say_something(title, 256);
    let result = rules::step(s, actor, now, ActionView::CreateSeason { id, title }, approved);
    if result is Ok {
        assert(result->Ok_0.seasons.remove(id) =~= s.seasons);
    }
}

/// A league for which no team is registered yet joins one season, with the times given for it:
/// registration opens before it closes, closes in the future, and not after the start.
pub proof fn law_leagues_are_scheduled(
    s: StateView,
    actor: Text,
    now: u64,
    season: Text,
    league: Text,
    schedule: Schedule,
    approved: bool,
)
    requires
        membership::may_manage(s, actor, approved),
    ensures
        ({
            let timely = schedule.opens_ms < schedule.closes_ms && now < schedule.closes_ms
                && schedule.closes_ms <= schedule.starts_ms;
            let free = forall|o: Text| #[trigger]
                s.seasons.contains_key(o) && o != season ==> !s.seasons[o].leagues.contains(league);
            let fresh = s.leagues[league].phase is Registration && forall|t: Text| #[trigger]
                s.leagues[league].teams.contains_key(t) ==> !s.leagues[league].teams[t].registered;
            let there = s.leagues.contains_key(league);
            match rules::step(
                s,
                actor,
                now,
                ActionView::ScheduleLeague { season, league, schedule },
                approved,
            ) {
                Ok(next) => {
                    let after = next.leagues[league];
                    &&& timely && free && there && fresh && s.seasons.contains_key(season)
                    &&& after.schedule == Some(schedule)
                    &&& after == (LeagueView { schedule: after.schedule, ..s.leagues[league] })
                    &&& next.leagues.contains_key(league)
                    &&& next.leagues.remove(league) == s.leagues.remove(league)
                    &&& next.seasons.contains_key(season)
                    &&& next.seasons[season].title == s.seasons[season].title
                    &&& forall|id: Text| #[trigger]
                        next.seasons[season].leagues.contains(id)
                            <==> s.seasons[season].leagues.contains(id) || id == league
                    &&& next.seasons.remove(season) == s.seasons.remove(season)
                    &&& next == (StateView { leagues: next.leagues, seasons: next.seasons, ..s })
                },
                Err(e) => {
                    ||| e == ErrorView::Denied && !(timely && free)
                    ||| e == ErrorView::NotFound && timely && free && !there
                    ||| e == ErrorView::Denied && timely && free && there && !fresh
                    ||| e == ErrorView::NotFound && timely && free && there && fresh
                        && !s.seasons.contains_key(season)
                },
            }
        }),
{
    let result = rules::step(
        s,
        actor,
        now,
        ActionView::ScheduleLeague { season, league, schedule },
        approved,
    );
    if result is Ok {
        let next = result->Ok_0;
        assert(next.leagues.remove(league) =~= s.leagues.remove(league));
        assert(next.seasons.remove(season) =~= s.seasons.remove(season));
    }
}

/// A member objects to the result of a finished league, for which a registered team has the member
/// on its roster, while no other objection of the member to it is open.
pub proof fn law_results_are_disputed(
    s: StateView,
    actor: Text,
    now: u64,
    id: Text,
    league: Text,
    reason: Text,
    member: Text,
)
    requires
        membership::acts_for(s.members, actor, member),
    ensures
        ({
            let proper = deliberation::says(id, 128) && deliberation::says(reason, 4096)
                && !s.disputes.contains_key(id) && s.disputes.len() < 10_000;
            let there = s.leagues.contains_key(league);
            let l = s.leagues[league];
            let took_part = rules::team_of(l, member) is Some && l.teams[rules::team_of(
                l,
                member,
            )->0].registered;
            let settled = forall|o: Text| #[trigger]
                s.disputes.contains_key(o) && s.disputes[o].league == league
                    && s.disputes[o].member == member ==> s.disputes[o].resolution is Some;
            match rules::step(
                s,
                actor,
                now,
                ActionView::DisputeResult { id, league, reason },
                false,
            ) {
                Ok(next) => {
                    let d = next.disputes[id];
                    &&& proper && there && l.phase is Finished && took_part && settled
                    &&& next.disputes.contains_key(id)
                    &&& next.disputes.remove(id) == s.disputes
                    &&& d.league == league
                    &&& d.member == member
                    &&& d.reason == reason
                    &&& d.created_ms == now
                    &&& d.resolution is None
                    &&& next == (StateView { disputes: next.disputes, ..s })
                },
                Err(e) => {
                    ||| e == ErrorView::Denied && !proper
                    ||| e == ErrorView::NotFound && proper && !there
                    ||| e == ErrorView::Denied && proper && there && !(l.phase is Finished
                        && took_part && settled)
                },
            }
        }),
{
    membership::law_devices_act_for_their_members(s.members, actor, member);
    deliberation::law_texts_say_something(id, 128);
    deliberation::law_texts_say_something(reason, 4096);
    let result = rules::step(
        s,
        actor,
        now,
        ActionView::DisputeResult { id, league, reason },
        false,
    );
    if result is Ok {
        assert(result->Ok_0.disputes.remove(id) =~= s.disputes);
    }
}

/// An objection is settled once: the league's points change by what the decision says, and who
/// decided, when, what was said and what changed are kept with it.
pub proof fn law_disputes_are_settled(
    s: StateView,
    actor: Text,
    now: u64,
    id: Text,
    response: Text,
    players: Map<Text, i64>,
    teams: Map<Text, i64>,
    approved: bool,
)
    requires
        membership::may_manage(s, actor, approved),
        players.dom().finite(),
        teams.dom().finite(),
    ensures
        ({
            let d = s.disputes[id];
            let l = s.leagues[d.league];
            let found = deliberation::says(response, 4096) && s.disputes.contains_key(id);
            let open = found && d.resolution is None;
            let over = open && s.leagues.contains_key(d.league) && l.phase is Finished;
            let first = rules::add_deltas(
                l.player_scores,
                players,
                Some(l.played),
                ErrorView::Denied,
                ErrorView::Capacity,
            );
            let second = rules::add_deltas(
                l.team_scores,
                teams,
                None,
                ErrorView::Denied,
                ErrorView::Capacity,
            );
            match rules::step(
                s,
                actor,
                now,
                ActionView::ResolveDispute { id, response, players, teams },
                approved,
            ) {
                Ok(next) => {
                    let after = next.leagues[d.league];
                    let r = (next.disputes[id].resolution)->0;
                    &&& over
                    &&& shifted(l.player_scores, after.player_scores, players)
                    &&& shifted(l.team_scores, after.team_scores, teams)
                    &&& forall|p: Text| #[trigger] players.contains_key(p) ==> l.played.contains(p)
                    &&& after == (LeagueView {
                        player_scores: after.player_scores,
                        team_scores: after.team_scores,
                        ..l
                    })
                    &&& next.leagues.contains_key(d.league)
                    &&& next.leagues.remove(d.league) == s.leagues.remove(d.league)
                    &&& next.disputes.contains_key(id)
                    &&& next.disputes.remove(id) == s.disputes.remove(id)
                    &&& next.disputes[id].resolution is Some
                    &&& next.disputes[id] == (DisputeView {
                        resolution: next.disputes[id].resolution,
                        ..d
                    })
                    &&& r.reviewer == actor
                    &&& r.time_ms == now
                    &&& r.response == response
                    &&& r.players == players
                    &&& r.teams == teams
                    &&& next == (StateView { leagues: next.leagues, disputes: next.disputes, ..s })
                },
                Err(e) => {
                    ||| e == ErrorView::Denied && !deliberation::says(response, 4096)
                    ||| e == ErrorView::NotFound && deliberation::says(response, 4096)
                        && !s.disputes.contains_key(id)
                    ||| e == ErrorView::Denied && found && d.resolution is Some
                    ||| e == ErrorView::NotFound && open && !s.leagues.contains_key(d.league)
                    ||| e == ErrorView::Denied && open && s.leagues.contains_key(d.league) && !(
                    l.phase is Finished)
                    ||| over && first == Outcome::<Map<Text, i64>>::Err(e)
                    ||| over && first is Ok && second == Outcome::<Map<Text, i64>>::Err(e)
                },
            }
        }),
{
    deliberation::law_texts_say_something(response, 4096);
    let d = s.disputes[id];
    let l = s.leagues[d.league];
    law_scores_change_as_given(
        l.player_scores,
        players,
        Some(l.played),
        ErrorView::Denied,
        ErrorView::Capacity,
    );
    law_scores_change_as_given(
        l.team_scores,
        teams,
        None,
        ErrorView::Denied,
        ErrorView::Capacity,
    );
    let result = rules::step(
        s,
        actor,
        now,
        ActionView::ResolveDispute { id, response, players, teams },
        approved,
    );
    if result is Ok {
        let next = result->Ok_0;
        assert(next.leagues.remove(d.league) =~= s.leagues.remove(d.league));
        assert(next.disputes.remove(id) =~= s.disputes.remove(id));
        assert forall|p: Text| #[trigger] players.contains_key(p) implies l.played.contains(p)
            && l.player_scores.contains_key(p) by {
            assert(!is_refused_change(l.player_scores, players, Some(l.played), p));
        }
        assert forall|t: Text| #[trigger] teams.contains_key(t) implies l.team_scores.contains_key(
            t,
        ) by {
            assert(!is_refused_change(l.team_scores, teams, None, t));
        }
    }
}

/// The digits of a byte: a row of bytes is written with two of the sixteen digits for each, the
/// higher half first.
pub proof fn law_bytes_are_written_in_hex(bytes: Seq<u8>, i: int)
    requires
        0 <= i < bytes.len(),
    ensures
        ({
            let digits = seq![
                '0', '1', '2', '3', '4', '5', '6', '7', '8', '9', 'a', 'b', 'c', 'd', 'e', 'f',
            ];
            &&& rules::hex(bytes).len() == 2 * bytes.len()
            &&& rules::hex(bytes)[2 * i] == digits[bytes[i] as int / 16]
            &&& rules::hex(bytes)[2 * i + 1] == digits[bytes[i] as int % 16]
        }),
{
    let b = bytes[i];
    assert((2 * i) / 2 == i && (2 * i) % 2 == 0 && (2 * i + 1) / 2 == i && (2 * i + 1) % 2 == 1);
    assert(forall|n: u8| n < 16 ==> rules::hex_digit(n) == seq![
        '0', '1', '2', '3', '4', '5', '6', '7', '8', '9', 'a', 'b', 'c', 'd', 'e', 'f',
    ][n as int]);
    assert(b / 16 < 16 && b % 16 < 16);
}

} // verus!
