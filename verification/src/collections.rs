//! Ordered maps and sets over sorted vectors.
//!
//! A map is understood as a mathematical `Map` from keys to values, and is walked in
//! ascending order of its keys by position.
use vstd::prelude::*;

use crate::order::{Duplicate, Key, Rank};

verus! {

/// A sequence of keys in strictly ascending order.
pub open spec fn ascending<K: Key>(keys: Seq<K::V>) -> bool {
    forall|i: int, j: int|
        #![trigger keys[i], keys[j]]
        0 <= i < j < keys.len() ==> K::before(keys[i], keys[j])
}

/// Whether `k` is the least key whose entry satisfies `p`.
pub open spec fn is_first<K: Key, W>(
    m: Map<K::V, W>,
    p: spec_fn(K::V, W) -> bool,
    k: K::V,
) -> bool {
    &&& m.contains_key(k)
    &&& p(k, m[k])
    &&& forall|o: K::V| #[trigger]
        m.contains_key(o) && p(o, m[o]) && o != k ==> K::before(k, o)
}

/// The least key whose entry satisfies `p`, if there is one.
pub open spec fn first_key<K: Key, W>(m: Map<K::V, W>, p: spec_fn(K::V, W) -> bool) -> Option<
    K::V,
> {
    if exists|k: K::V| is_first::<K, W>(m, p, k) {
        Some(choose|k: K::V| is_first::<K, W>(m, p, k))
    } else {
        None
    }
}

/// There is at most one least key.
pub proof fn lemma_first_key<K: Key, W>(m: Map<K::V, W>, p: spec_fn(K::V, W) -> bool, k: K::V)
    requires
        is_first::<K, W>(m, p, k),
    ensures
        first_key::<K, W>(m, p) == Some(k),
{
    let c = choose|c: K::V| is_first::<K, W>(m, p, c);
    if c != k {
        K::transitive(c, k, c);
        K::irreflexive(c);
    }
}

/// The keys are those of the map, in ascending order.
pub open spec fn lists<K: Key, W>(m: Map<K::V, W>, keys: Seq<K::V>) -> bool {
    lists_set::<K>(m.dom(), keys)
}

/// The items are those of the set, in ascending order.
pub open spec fn lists_set<K: Key>(set: Set<K::V>, items: Seq<K::V>) -> bool {
    &&& ascending::<K>(items)
    &&& forall|i: int| #![trigger items[i]] 0 <= i < items.len() ==> set.contains(items[i])
    &&& forall|k: K::V| #[trigger] set.contains(k) ==> items.contains(k)
}

/// The keys of a map in ascending order.
pub open spec fn keys_of<K: Key, W>(m: Map<K::V, W>) -> Seq<K::V> {
    items_of::<K>(m.dom())
}

/// The items of a set in ascending order.
pub open spec fn items_of<K: Key>(set: Set<K::V>) -> Seq<K::V> {
    choose|items: Seq<K::V>| lists_set::<K>(set, items)
}

/// There is at most one way to list items in ascending order.
pub proof fn lemma_ascending_unique<K: Key>(a: Seq<K::V>, b: Seq<K::V>)
    requires
        ascending::<K>(a),
        ascending::<K>(b),
        forall|k: K::V| a.contains(k) <==> b.contains(k),
    ensures
        a == b,
    decreases a.len(),
{
    if a.len() == 0 {
        if b.len() > 0 {
            assert(b.contains(b[0]));
        }
        assert(a =~= b);
    } else {
        assert(a.contains(a[0]));
        assert(b.contains(a[0]));
        let j = b.index_of(a[0]);
        assert(b[j] == a[0]);
        assert(b.contains(b[0]));
        assert(a.contains(b[0]));
        let i = a.index_of(b[0]);
        assert(a[i] == b[0]);
        if j > 0 && i > 0 {
            K::transitive(a[0], b[0], a[0]);
            K::irreflexive(a[0]);
        }
        assert(a[0] == b[0]);
        let ta = a.drop_first();
        let tb = b.drop_first();
        assert forall|x: int, y: int| 0 <= x < y < ta.len() implies K::before(
            #[trigger] ta[x],
            #[trigger] ta[y],
        ) by {
            assert(ta[x] == a[x + 1] && ta[y] == a[y + 1]);
        }
        assert forall|x: int, y: int| 0 <= x < y < tb.len() implies K::before(
            #[trigger] tb[x],
            #[trigger] tb[y],
        ) by {
            assert(tb[x] == b[x + 1] && tb[y] == b[y + 1]);
        }
        assert forall|k: K::V| ta.contains(k) <==> tb.contains(k) by {
            if ta.contains(k) {
                let x = ta.index_of(k);
                assert(a[x + 1] == k);
                assert(a.contains(k));
                let y = b.index_of(k);
                if y == 0 {
                    assert(K::before(a[0], a[x + 1]));
                    K::irreflexive(k);
                }
                assert(tb[y - 1] == k);
            }
            if tb.contains(k) {
                let x = tb.index_of(k);
                assert(b[x + 1] == k);
                assert(b.contains(k));
                let y = a.index_of(k);
                if y == 0 {
                    assert(K::before(b[0], b[x + 1]));
                    K::irreflexive(k);
                }
                assert(ta[y - 1] == k);
            }
        }
        lemma_ascending_unique::<K>(ta, tb);
        assert(a =~= seq![a[0]] + ta);
        assert(b =~= seq![b[0]] + tb);
    }
}

/// The least item of a non-empty finite set.
pub proof fn lemma_least<K: Key>(set: Set<K::V>) -> (k: K::V)
    requires
        set.finite(),
        set.len() > 0,
    ensures
        set.contains(k),
        forall|o: K::V| #[trigger] set.contains(o) && o != k ==> K::before(k, o),
    decreases set.len(),
{
    let a = set.choose();
    assert(set.contains(a));
    let rest = set.remove(a);
    if rest.len() == 0 {
        assert forall|o: K::V| #[trigger] set.contains(o) && o != a implies K::before(a, o) by {
            assert(rest.contains(o));
        }
        a
    } else {
        let b = lemma_least::<K>(rest);
        K::total(a, b);
        if K::before(a, b) {
            assert forall|o: K::V| #[trigger] set.contains(o) && o != a implies K::before(a, o) by {
                assert(rest.contains(o));
                if o != b {
                    K::transitive(a, b, o);
                }
            }
            a
        } else {
            assert forall|o: K::V| #[trigger] set.contains(o) && o != b implies K::before(b, o) by {
                if o != a {
                    assert(rest.contains(o));
                }
            }
            b
        }
    }
}

/// A finite set can be listed in ascending order.
pub proof fn lemma_listable<K: Key>(set: Set<K::V>)
    requires
        set.finite(),
    ensures
        lists_set::<K>(set, items_of::<K>(set)),
        items_of::<K>(set).len() == set.len(),
    decreases set.len(),
{
    if set.len() == 0 {
        let none = Seq::<K::V>::empty();
        assert(set =~= Set::empty());
        assert(lists_set::<K>(set, none));
        lemma_items_of::<K>(set, none);
    } else {
        let first = lemma_least::<K>(set);
        let rest = set.remove(first);
        lemma_listable::<K>(rest);
        let tail = items_of::<K>(rest);
        let items = seq![first] + tail;
        assert forall|i: int, j: int| 0 <= i < j < items.len() implies K::before(
            #[trigger] items[i],
            #[trigger] items[j],
        ) by {
            assert(items[j] == tail[j - 1]);
            assert(rest.contains(tail[j - 1]));
            if i > 0 {
                assert(items[i] == tail[i - 1]);
            } else {
                assert(set.contains(tail[j - 1]));
            }
        }
        assert forall|i: int| 0 <= i < items.len() implies set.contains(#[trigger] items[i]) by {
            if i > 0 {
                assert(rest.contains(tail[i - 1]));
            }
        }
        assert forall|k: K::V| #[trigger] set.contains(k) implies items.contains(k) by {
            if k == first {
                assert(items[0] == k);
            } else {
                assert(rest.contains(k));
                let j = tail.index_of(k);
                assert(items[j + 1] == k);
            }
        }
        lemma_items_of::<K>(set, items);
    }
}

/// In a finite map, where there is no least entry that satisfies `p`, there is none at all.
pub proof fn lemma_first_key_absent<K: Key, W>(m: Map<K::V, W>, p: spec_fn(K::V, W) -> bool)
    requires
        m.dom().finite(),
        first_key::<K, W>(m, p) is None,
    ensures
        forall|k: K::V| #[trigger] m.contains_key(k) ==> !p(k, m[k]),
{
    let hits = m.dom().filter(|k: K::V| p(k, m[k]));
    if exists|k: K::V| #[trigger] m.contains_key(k) && p(k, m[k]) {
        let k0 = choose|k: K::V| #[trigger] m.contains_key(k) && p(k, m[k]);
        assert(hits.contains(k0));
        vstd::set_lib::lemma_set_subset_finite(m.dom(), hits);
        if hits.len() == 0 {
            assert(hits =~= Set::empty());
        }
        let first = lemma_least::<K>(hits);
        assert forall|o: K::V| #[trigger] m.contains_key(o) && p(o, m[o]) && o
            != first implies K::before(first, o) by {
            assert(hits.contains(o));
        }
        assert(is_first::<K, W>(m, p, first));
    }
}

/// What lists a set is its list of items.
pub proof fn lemma_items_of<K: Key>(set: Set<K::V>, items: Seq<K::V>)
    requires
        lists_set::<K>(set, items),
    ensures
        items_of::<K>(set) == items,
{
    let chosen = items_of::<K>(set);
    assert(lists_set::<K>(set, chosen));
    assert forall|k: K::V| chosen.contains(k) <==> items.contains(k) by {
        if chosen.contains(k) {
            let i = chosen.index_of(k);
            assert(set.contains(chosen[i]));
        }
        if items.contains(k) {
            let i = items.index_of(k);
            assert(set.contains(items[i]));
        }
    }
    lemma_ascending_unique::<K>(chosen, items);
}

/// The first key in the list whose entry satisfies `p` is the least such key.
pub proof fn lemma_first_at<K: Key, W>(
    m: Map<K::V, W>,
    keys: Seq<K::V>,
    p: spec_fn(K::V, W) -> bool,
    i: int,
)
    requires
        lists::<K, W>(m, keys),
        0 <= i < keys.len(),
        p(keys[i], m[keys[i]]),
        forall|j: int| 0 <= j < i ==> !p(#[trigger] keys[j], m[keys[j]]),
    ensures
        first_key::<K, W>(m, p) == Some(keys[i]),
{
    let k = keys[i];
    assert(m.dom().contains(k));
    assert forall|o: K::V| #[trigger] m.contains_key(o) && p(o, m[o]) && o != k implies K::before(
        k,
        o,
    ) by {
        assert(m.dom().contains(o));
        let j = keys.index_of(o);
        assert(keys[j] == o);
    }
    lemma_first_key::<K, W>(m, p, k);
}

/// Where no entry of the list satisfies `p`, there is no least one.
pub proof fn lemma_first_none<K: Key, W>(
    m: Map<K::V, W>,
    keys: Seq<K::V>,
    p: spec_fn(K::V, W) -> bool,
)
    requires
        lists::<K, W>(m, keys),
        forall|j: int| 0 <= j < keys.len() ==> !p(#[trigger] keys[j], m[keys[j]]),
    ensures
        first_key::<K, W>(m, p) is None,
        forall|k: K::V| #[trigger] m.contains_key(k) ==> !p(k, m[k]),
{
    assert forall|k: K::V| #[trigger] m.contains_key(k) implies !p(k, m[k]) by {
        assert(m.dom().contains(k));
        let j = keys.index_of(k);
        assert(keys[j] == k);
    }
}

/// One of the first `n` items.
pub open spec fn among<A>(items: Seq<A>, n: int, k: A) -> bool {
    exists|j: int| 0 <= j < n && #[trigger] items[j] == k
}

/// The first `n + 1` items are the first `n` and one more.
pub proof fn lemma_among_next<A>(items: Seq<A>, n: int)
    requires
        0 <= n < items.len(),
    ensures
        forall|k: A| #[trigger] among(items, n + 1, k) <==> among(items, n, k) || k == items[n],
{
    assert forall|k: A| #[trigger] among(items, n + 1, k) <==> among(items, n, k) || k
        == items[n] by {
        if among(items, n + 1, k) {
            let j = choose|j: int| 0 <= j < n + 1 && #[trigger] items[j] == k;
            if j < n {
                assert(among(items, n, k));
            }
        }
        if among(items, n, k) {
            let j = choose|j: int| 0 <= j < n && #[trigger] items[j] == k;
            assert(among(items, n + 1, k));
        }
    }
}

/// All items together are the set.
pub proof fn lemma_among_all<K: Key>(set: Set<K::V>, items: Seq<K::V>)
    requires
        lists_set::<K>(set, items),
    ensures
        forall|k: K::V| #[trigger] among(items, items.len() as int, k) <==> set.contains(k),
{
    assert forall|k: K::V| #[trigger] among(items, items.len() as int, k) <==> set.contains(k) by {
        if set.contains(k) {
            let j = items.index_of(k);
            assert(items[j] == k);
        }
    }
}

/// One more key with its value.
pub proof fn lemma_next_among<K: Key, W>(
    keys: Seq<K::V>,
    i: int,
    before: Map<K::V, W>,
    after: Map<K::V, W>,
    value: W,
)
    requires
        0 <= i < keys.len(),
        ascending::<K>(keys),
        after == before.insert(keys[i], value),
        forall|k: K::V| #[trigger] before.contains_key(k) <==> among(keys, i, k),
    ensures
        forall|k: K::V| #[trigger] after.contains_key(k) <==> among(keys, i + 1, k),
        after[keys[i]] == value,
        forall|j: int| 0 <= j < i ==> after[#[trigger] keys[j]] == before[keys[j]],
{
    assert forall|k: K::V| #[trigger] after.contains_key(k) <==> among(
        keys,
        i + 1,
        k,
    ) by {
        if among(keys, i + 1, k) {
            let j = choose|j: int| 0 <= j < i + 1 && #[trigger] keys[j] == k;
            if j < i {
                assert(among(keys, i, k));
            }
        }
        if before.contains_key(k) {
            let j = choose|j: int| 0 <= j < i && #[trigger] keys[j] == k;
            assert(among(keys, i + 1, k));
        }
        assert(among(keys, i + 1, keys[i]));
    }
    assert forall|j: int| 0 <= j < i implies after[#[trigger] keys[j]] == before[keys[j]] by {
        K::irreflexive(keys[i]);
    }
}

/// A map with the same keys, each with the image of its value.
pub proof fn lemma_mapped<K: Key, W, X>(
    m: Map<K::V, W>,
    keys: Seq<K::V>,
    f: spec_fn(W) -> X,
    n: Map<K::V, X>,
)
    requires
        lists::<K, W>(m, keys),
        forall|k: K::V| #[trigger] n.contains_key(k) <==> among(keys, keys.len() as int, k),
        forall|j: int| 0 <= j < keys.len() ==> n[#[trigger] keys[j]] == f(m[keys[j]]),
    ensures
        n == m.map_values(f),
{
    assert forall|k: K::V| #[trigger] n.contains_key(k) <==> m.map_values(f).contains_key(k) by {
        if m.dom().contains(k) {
            let j = keys.index_of(k);
            assert(keys[j] == k);
        }
        if among(keys, keys.len() as int, k) {
            let j = choose|j: int| 0 <= j < keys.len() && #[trigger] keys[j] == k;
            assert(m.dom().contains(keys[j]));
        }
    }
    assert forall|k: K::V| #[trigger] n.contains_key(k) implies n[k] == m.map_values(f)[k] by {
        let j = choose|j: int| 0 <= j < keys.len() && #[trigger] keys[j] == k;
        assert(n[keys[j]] == f(m[keys[j]]));
    }
    assert(n =~= m.map_values(f));
}

/// A map that keeps its entries in ascending order of their keys.
#[derive(Debug, PartialEq, Eq)]
#[verifier::reject_recursive_types(K)]
pub struct OrdMap<K: Key, V> {
    entries: Vec<(K, V)>,
}

/// A map with text keys.
pub type StrMap<V> = OrdMap<String, V>;

impl<K: Key, V> OrdMap<K, V> {
    /// The keys in the order in which they are kept.
    pub closed spec fn keys(&self) -> Seq<K::V> {
        Seq::new(self.entries@.len(), |i: int| self.entries@[i].0.deep_view())
    }

    #[verifier::type_invariant]
    closed spec fn sorted(&self) -> bool {
        ascending::<K>(Self::keys_of(self.entries@))
    }

    closed spec fn keys_of(entries: Seq<(K, V)>) -> Seq<K::V> {
        Seq::new(entries.len(), |i: int| entries[i].0.deep_view())
    }
}

impl<K: Key, V: DeepView> OrdMap<K, V> {
    closed spec fn model_of(entries: Seq<(K, V)>) -> Map<K::V, V::V> {
        Map::new(
            |k: K::V| Self::keys_of(entries).contains(k),
            |k: K::V| entries[Self::keys_of(entries).index_of(k)].1.deep_view(),
        )
    }

    /// What a sorted list of entries stands for.
    proof fn lemma_model(entries: Seq<(K, V)>)
        requires
            ascending::<K>(Self::keys_of(entries)),
        ensures
            Self::model_of(entries).dom().finite(),
            Self::model_of(entries).len() == entries.len(),
            forall|i: int|
                #![trigger entries[i]]
                0 <= i < entries.len() ==> {
                    &&& Self::model_of(entries).contains_key(entries[i].0.deep_view())
                    &&& Self::model_of(entries)[entries[i].0.deep_view()]
                        == entries[i].1.deep_view()
                },
            forall|k: K::V| #[trigger]
                Self::model_of(entries).contains_key(k) ==> exists|i: int|
                    0 <= i < entries.len() && #[trigger] entries[i].0.deep_view() == k,
    {
        let keys = Self::keys_of(entries);
        let m = Self::model_of(entries);
        assert(keys.no_duplicates()) by {
            assert forall|i: int, j: int| 0 <= i < keys.len() && 0 <= j < keys.len() && i
                != j implies keys[i] != keys[j] by {
                if i < j {
                    K::irreflexive(keys[i]);
                    assert(K::before(keys[i], keys[j]));
                } else {
                    K::irreflexive(keys[i]);
                    assert(K::before(keys[j], keys[i]));
                }
            }
        }
        assert(m.dom() =~= keys.to_set());
        keys.unique_seq_to_set();
        vstd::seq_lib::seq_to_set_is_finite(keys);
        assert forall|i: int| 0 <= i < entries.len() implies {
            &&& m.contains_key((#[trigger] entries[i]).0.deep_view())
            &&& m[entries[i].0.deep_view()] == entries[i].1.deep_view()
        } by {
            assert(keys[i] == entries[i].0.deep_view());
            assert(keys.contains(keys[i]));
            let j = keys.index_of(keys[i]);
            assert(keys[j] == keys[i]);
            assert(i == j);
        }
        assert forall|k: K::V| #[trigger] m.contains_key(k) implies exists|i: int|
            0 <= i < entries.len() && #[trigger] entries[i].0.deep_view() == k by {
            let i = keys.index_of(k);
            assert(entries[i].0.deep_view() == k);
        }
    }

    /// An empty map.
    pub fn new() -> (r: Self)
        ensures
            r.deep_view() == Map::<K::V, V::V>::empty(),
            r.keys() == Seq::<K::V>::empty(),
    {
        let r = OrdMap { entries: Vec::new() };
        assert(r.deep_view() =~= Map::<K::V, V::V>::empty());
        r
    }

    /// The number of entries. The keys are in ascending order and are exactly those of the map.
    pub fn len(&self) -> (r: usize)
        ensures
            r == self.deep_view().len(),
            r == self.keys().len(),
            self.deep_view().dom().finite(),
            lists::<K, V::V>(self.deep_view(), self.keys()),
            forall|i: int|
                #![trigger self.keys()[i]]
                0 <= i < r ==> self.deep_view().contains_key(self.keys()[i]),
            forall|k: K::V| #[trigger]
                self.deep_view().contains_key(k) ==> exists|i: int|
                    0 <= i < r && #[trigger] self.keys()[i] == k,
    {
        proof {
            use_type_invariant(self);
            Self::lemma_model(self.entries@);
            assert(self.keys() =~= Self::keys_of(self.entries@));
            assert forall|i: int| 0 <= i < self.keys().len() implies self.deep_view().contains_key(
                #[trigger] self.keys()[i],
            ) by {
                assert(self.keys()[i] == self.entries@[i].0.deep_view());
            }
            assert forall|k: K::V| #[trigger] self.deep_view().contains_key(k) implies exists|
                i: int,
            | 0 <= i < self.keys().len() && #[trigger] self.keys()[i] == k by {
                let i = choose|i: int|
                    0 <= i < self.entries@.len() && #[trigger] self.entries@[i].0.deep_view() == k;
                assert(self.keys()[i] == k);
            }
            assert forall|k: K::V| #[trigger] self.deep_view().dom().contains(
                k,
            ) implies self.keys().contains(k) by {
                assert(self.deep_view().contains_key(k));
            }
        }
        self.entries.len()
    }

    /// The keys in ascending order.
    pub fn key_list(&self) -> (r: Vec<K>)
        ensures
            r.deep_view() == keys_of::<K, V::V>(self.deep_view()),
            lists::<K, V::V>(self.deep_view(), r.deep_view()),
    {
        let n: usize = self.len();
        let mut r: Vec<K> = Vec::new();
        let mut i: usize = 0;
        while i < n
            invariant
                n == self.keys().len(),
                i <= n,
                i == r.len(),
                forall|j: int| 0 <= j < i ==> (#[trigger] r@[j]).deep_view() == self.keys()[j],
            decreases n - i,
        {
            r.push(self.key(i).duplicate());
            i = i + 1;
        }
        proof {
            assert(r.deep_view() =~= self.keys());
            lemma_items_of::<K>(self.deep_view().dom(), self.keys());
        }
        r
    }

    /// Whether the map has no entry.
    pub fn is_empty(&self) -> (r: bool)
        ensures
            r == (self.deep_view() == Map::<K::V, V::V>::empty()),
            r == (self.deep_view().len() == 0),
    {
        let n = self.len();
        proof {
            if n == 0 {
                assert(self.deep_view() =~= Map::<K::V, V::V>::empty());
            } else {
                assert(self.deep_view().contains_key(self.keys()[0]));
            }
        }
        n == 0
    }

    /// The key at position `i`.
    pub fn key(&self, i: usize) -> (r: &K)
        requires
            i < self.keys().len(),
        ensures
            r.deep_view() == self.keys()[i as int],
    {
        &self.entries[i].0
    }

    /// The value at position `i`.
    pub fn value(&self, i: usize) -> (r: &V)
        requires
            i < self.keys().len(),
        ensures
            r.deep_view() == self.deep_view()[self.keys()[i as int]],
            self.deep_view().contains_key(self.keys()[i as int]),
    {
        proof {
            use_type_invariant(self);
            Self::lemma_model(self.entries@);
            assert(self.keys()[i as int] == self.entries@[i as int].0.deep_view());
        }
        &self.entries[i].1
    }

    /// The position of the first entry whose key is not before `key`, and whether it is `key`.
    fn locate(&self, key: &K::Probe) -> (r: (usize, bool))
        ensures
            r.0 <= self.entries@.len(),
            forall|j: int|
                0 <= j < r.0 ==> K::before(
                    (#[trigger] self.entries@[j]).0.deep_view(),
                    key.deep_view(),
                ),
            r.1 ==> r.0 < self.entries@.len() && self.entries@[r.0 as int].0.deep_view()
                == key.deep_view(),
            forall|j: int|
                (if r.1 {
                    r.0 + 1
                } else {
                    r.0 as int
                }) <= j < self.entries@.len() ==> K::before(
                    key.deep_view(),
                    (#[trigger] self.entries@[j]).0.deep_view(),
                ),
            r.1 == self.deep_view().contains_key(key.deep_view()),
            r.1 ==> self.deep_view()[key.deep_view()] == self.entries@[r.0 as int].1.deep_view(),
    {
        let ghost es = self.entries@;
        let ghost ks = Self::keys_of(es);
        proof {
            use_type_invariant(self);
            Self::lemma_model(es);
        }
        let mut lo: usize = 0;
        let mut hi: usize = self.entries.len();
        while lo < hi
            invariant
                es == self.entries@,
                ks == Self::keys_of(es),
                ascending::<K>(ks),
                lo <= hi <= es.len(),
                forall|i: int|
                    #![trigger es[i]]
                    0 <= i < es.len() ==> {
                        &&& self.deep_view().contains_key(es[i].0.deep_view())
                        &&& self.deep_view()[es[i].0.deep_view()] == es[i].1.deep_view()
                    },
                forall|j: int|
                    0 <= j < lo ==> K::before((#[trigger] es[j]).0.deep_view(), key.deep_view()),
                forall|j: int|
                    hi <= j < es.len() ==> K::before(
                        key.deep_view(),
                        (#[trigger] es[j]).0.deep_view(),
                    ),
            decreases hi - lo,
        {
            let mid: usize = lo + (hi - lo) / 2;
            let here = self.entries[mid].0.rank(key);
            proof {
                assert(ks[mid as int] == es[mid as int].0.deep_view());
                assert forall|j: int| 0 <= j < mid implies K::before(
                    (#[trigger] es[j]).0.deep_view(),
                    es[mid as int].0.deep_view(),
                ) by {
                    assert(ks[j] == es[j].0.deep_view());
                }
                assert forall|j: int| mid < j < es.len() implies K::before(
                    es[mid as int].0.deep_view(),
                    (#[trigger] es[j]).0.deep_view(),
                ) by {
                    assert(ks[j] == es[j].0.deep_view());
                }
            }
            match here {
                Rank::Same => {
                    return (mid, true);
                },
                Rank::Before => {
                    proof {
                        assert forall|j: int| 0 <= j < mid + 1 implies K::before(
                            (#[trigger] es[j]).0.deep_view(),
                            key.deep_view(),
                        ) by {
                            if j < mid {
                                K::transitive(
                                    es[j].0.deep_view(),
                                    es[mid as int].0.deep_view(),
                                    key.deep_view(),
                                );
                            }
                        }
                    }
                    lo = mid + 1;
                },
                Rank::After => {
                    proof {
                        assert forall|j: int| mid <= j < es.len() implies K::before(
                            key.deep_view(),
                            (#[trigger] es[j]).0.deep_view(),
                        ) by {
                            if mid < j {
                                K::transitive(
                                    key.deep_view(),
                                    es[mid as int].0.deep_view(),
                                    es[j].0.deep_view(),
                                );
                            }
                        }
                    }
                    hi = mid;
                },
            }
        }
        proof {
            if self.deep_view().contains_key(key.deep_view()) {
                let i = choose|i: int|
                    0 <= i < es.len() && #[trigger] es[i].0.deep_view() == key.deep_view();
                K::irreflexive(key.deep_view());
            }
        }
        (lo, false)
    }

    /// Whether the map has an entry for `key`.
    pub fn contains_key(&self, key: &K::Probe) -> (r: bool)
        ensures
            r == self.deep_view().contains_key(key.deep_view()),
    {
        self.locate(key).1
    }

    /// The value for `key`, if the map has an entry for it.
    pub fn get(&self, key: &K::Probe) -> (r: Option<&V>)
        ensures
            match r {
                Some(v) => self.deep_view().contains_key(key.deep_view()) && v.deep_view()
                    == self.deep_view()[key.deep_view()],
                None => !self.deep_view().contains_key(key.deep_view()),
            },
    {
        let (i, found) = self.locate(key);
        if found {
            Some(&self.entries[i].1)
        } else {
            None
        }
    }

    /// Sets the value for `key`, and gives back the one that it replaces.
    pub fn insert(&mut self, key: K, value: V) -> (r: Option<V>)
        ensures
            final(self).deep_view() == old(self).deep_view().insert(
                key.deep_view(),
                value.deep_view(),
            ),
            match r {
                Some(v) => old(self).deep_view().contains_key(key.deep_view()) && v.deep_view()
                    == old(self).deep_view()[key.deep_view()],
                None => !old(self).deep_view().contains_key(key.deep_view()),
            },
    {
        let (i, found) = self.locate(key.probe());
        let ghost es = self.entries@;
        let ghost k = key.deep_view();
        let ghost v = value.deep_view();
        proof {
            use_type_invariant(&*self);
            Self::lemma_model(es);
        }
        let mut entries: Vec<(K, V)> = Vec::new();
        std::mem::swap(&mut entries, &mut self.entries);
        let mut previous: Option<V> = None;
        if found {
            previous = Some(entries.remove(i).1);
        }
        let ghost rest = entries@;
        entries.insert(i, (key, value));
        proof {
            let next = entries@;
            let ks = Self::keys_of(es);
            let kn = Self::keys_of(next);
            assert forall|a: int, b: int| 0 <= a < b < kn.len() implies K::before(
                #[trigger] kn[a],
                #[trigger] kn[b],
            ) by {
                let sa = if a < i {
                    a
                } else if found {
                    a
                } else {
                    a - 1
                };
                let sb = if b < i {
                    b
                } else if found {
                    b
                } else {
                    b - 1
                };
                if a < i && b < i {
                    assert(ks[a] == kn[a] && ks[b] == kn[b]);
                } else if a < i && b == i {
                    assert(es[a].0.deep_view() == kn[a]);
                } else if a == i {
                    assert(es[sb].0.deep_view() == kn[b]);
                } else {
                    assert(ks[sb] == kn[b]);
                    assert(ks[sa] == kn[a]);
                }
            }
            Self::lemma_model(next);
            let old_m = Self::model_of(es);
            let new_m = Self::model_of(next);
            assert forall|o: K::V| new_m.contains_key(o) <==> #[trigger] old_m.insert(
                k,
                v,
            ).contains_key(o) by {
                if new_m.contains_key(o) {
                    let j = choose|j: int|
                        0 <= j < next.len() && #[trigger] next[j].0.deep_view() == o;
                    if j != i {
                        let s = if j < i || found {
                            j
                        } else {
                            j - 1
                        };
                        assert(es[s] == next[j]);
                    }
                }
                if old_m.contains_key(o) && o != k {
                    let s = choose|s: int|
                        0 <= s < es.len() && #[trigger] es[s].0.deep_view() == o;
                    let j = if s < i || found {
                        s
                    } else {
                        s + 1
                    };
                    assert(next[j] == es[s]);
                }
                assert(next[i as int].0.deep_view() == k);
            }
            assert forall|o: K::V| #[trigger] new_m.contains_key(o) implies new_m[o]
                == old_m.insert(k, v)[o] by {
                let j = choose|j: int| 0 <= j < next.len() && #[trigger] next[j].0.deep_view() == o;
                if j != i {
                    let s = if j < i || found {
                        j
                    } else {
                        j - 1
                    };
                    assert(es[s] == next[j]);
                    if o == k {
                        assert(kn[j] == kn[i as int]);
                        K::irreflexive(k);
                    }
                }
            }
            assert(new_m =~= old_m.insert(k, v));
        }
        self.entries = entries;
        previous
    }

    /// Takes the entry for `key` out of the map.
    pub fn remove(&mut self, key: &K::Probe) -> (r: Option<V>)
        ensures
            final(self).deep_view() == old(self).deep_view().remove(key.deep_view()),
            match r {
                Some(v) => old(self).deep_view().contains_key(key.deep_view()) && v.deep_view()
                    == old(self).deep_view()[key.deep_view()],
                None => !old(self).deep_view().contains_key(key.deep_view()),
            },
    {
        let (i, found) = self.locate(key);
        let ghost es = self.entries@;
        let ghost k = key.deep_view();
        proof {
            use_type_invariant(&*self);
            Self::lemma_model(es);
        }
        if !found {
            assert(Self::model_of(es).remove(k) =~= Self::model_of(es));
            return None;
        }
        let mut entries: Vec<(K, V)> = Vec::new();
        std::mem::swap(&mut entries, &mut self.entries);
        let taken = entries.remove(i);
        proof {
            let next = entries@;
            let ks = Self::keys_of(es);
            let kn = Self::keys_of(next);
            assert forall|a: int, b: int| 0 <= a < b < kn.len() implies K::before(
                #[trigger] kn[a],
                #[trigger] kn[b],
            ) by {
                let sa = if a < i {
                    a
                } else {
                    a + 1
                };
                let sb = if b < i {
                    b
                } else {
                    b + 1
                };
                assert(ks[sa] == kn[a] && ks[sb] == kn[b]);
            }
            Self::lemma_model(next);
            let old_m = Self::model_of(es);
            let new_m = Self::model_of(next);
            assert forall|o: K::V| new_m.contains_key(o) <==> #[trigger] old_m.remove(
                k,
            ).contains_key(o) by {
                if new_m.contains_key(o) {
                    let j = choose|j: int|
                        0 <= j < next.len() && #[trigger] next[j].0.deep_view() == o;
                    let s = if j < i {
                        j
                    } else {
                        j + 1
                    };
                    assert(es[s] == next[j]);
                    assert(ks[s] == o && ks[i as int] == k);
                    K::irreflexive(k);
                }
                if old_m.contains_key(o) && o != k {
                    let s = choose|s: int|
                        0 <= s < es.len() && #[trigger] es[s].0.deep_view() == o;
                    let j = if s < i {
                        s
                    } else {
                        s - 1
                    };
                    assert(next[j] == es[s]);
                }
            }
            assert forall|o: K::V| #[trigger] new_m.contains_key(o) implies new_m[o] == old_m[o] by {
                let j = choose|j: int| 0 <= j < next.len() && #[trigger] next[j].0.deep_view() == o;
                let s = if j < i {
                    j
                } else {
                    j + 1
                };
                assert(es[s] == next[j]);
            }
            assert(new_m =~= old_m.remove(k));
        }
        self.entries = entries;
        Some(taken.1)
    }
}

impl<K: Key, V: DeepView> DeepView for OrdMap<K, V> {
    type V = Map<K::V, V::V>;

    closed spec fn deep_view(&self) -> Map<K::V, V::V> {
        Self::model_of(self.entries@)
    }
}

impl<K: Key, V: DeepView> View for OrdMap<K, V> {
    type V = Map<K::V, V::V>;

    open spec fn view(&self) -> Map<K::V, V::V> {
        self.deep_view()
    }
}

impl<K: Key, V: Duplicate> Duplicate for OrdMap<K, V> {
    fn duplicate(&self) -> (r: Self) {
        let mut entries: Vec<(K, V)> = Vec::new();
        let mut i: usize = 0;
        while i < self.entries.len()
            invariant
                i == entries.len(),
                i <= self.entries.len(),
                forall|j: int|
                    0 <= j < i ==> (#[trigger] entries@[j]).0.deep_view()
                        == self.entries@[j].0.deep_view() && entries@[j].1.deep_view()
                        == self.entries@[j].1.deep_view(),
            decreases self.entries.len() - i,
        {
            let k = self.entries[i].0.duplicate();
            let v = self.entries[i].1.duplicate();
            entries.push((k, v));
            i = i + 1;
        }
        proof {
            use_type_invariant(self);
            assert(Self::keys_of(entries@) =~= Self::keys_of(self.entries@));
            Self::lemma_model(self.entries@);
            Self::lemma_model(entries@);
            let a = Self::model_of(entries@);
            let b = Self::model_of(self.entries@);
            assert(a.dom() =~= b.dom());
            assert forall|k: K::V| #[trigger] a.contains_key(k) implies a[k] == b[k] by {
                let j = choose|j: int|
                    0 <= j < entries@.len() && #[trigger] entries@[j].0.deep_view() == k;
                assert(self.entries@[j].0.deep_view() == k);
            }
            assert(a =~= b);
        }
        OrdMap { entries }
    }
}

impl<K: Key, V: Duplicate> Clone for OrdMap<K, V> {
    fn clone(&self) -> (r: Self)
        ensures
            r.deep_view() == self.deep_view(),
    {
        self.duplicate()
    }
}

/// A set that is walked in ascending order.
#[derive(Debug, PartialEq, Eq)]
#[verifier::reject_recursive_types(K)]
pub struct OrdSet<K: Key> {
    items: OrdMap<K, ()>,
}

/// A set of texts.
pub type StrSet = OrdSet<String>;

impl<K: Key> OrdSet<K> {
    /// The items in the order in which they are kept.
    pub closed spec fn items(&self) -> Seq<K::V> {
        self.items.keys()
    }

    /// An empty set.
    pub fn new() -> (r: Self)
        ensures
            r.deep_view() == Set::<K::V>::empty(),
            r.items() == Seq::<K::V>::empty(),
    {
        let r = OrdSet { items: OrdMap::new() };
        assert(r.deep_view() =~= Set::<K::V>::empty());
        r
    }

    /// The number of items, which are kept in ascending order.
    pub fn len(&self) -> (r: usize)
        ensures
            r == self.deep_view().len(),
            r == self.items().len(),
            self.deep_view().finite(),
            lists_set::<K>(self.deep_view(), self.items()),
            forall|i: int|
                #![trigger self.items()[i]]
                0 <= i < r ==> self.deep_view().contains(self.items()[i]),
            forall|k: K::V| #[trigger]
                self.deep_view().contains(k) ==> exists|i: int|
                    0 <= i < r && #[trigger] self.items()[i] == k,
    {
        let n = self.items.len();
        proof {
            assert forall|k: K::V| #[trigger] self.deep_view().contains(k) implies exists|i: int|
                0 <= i < n && #[trigger] self.items()[i] == k by {
                assert(self.items.deep_view().contains_key(k));
                let i = choose|i: int| 0 <= i < n && #[trigger] self.items.keys()[i] == k;
                assert(self.items()[i] == k);
            }
        }
        n
    }

    /// The items in ascending order.
    pub fn item_list(&self) -> (r: Vec<K>)
        ensures
            r.deep_view() == items_of::<K>(self.deep_view()),
            lists_set::<K>(self.deep_view(), r.deep_view()),
    {
        self.items.key_list()
    }

    /// Whether the set has no item.
    pub fn is_empty(&self) -> (r: bool)
        ensures
            r == (self.deep_view() == Set::<K::V>::empty()),
            r == (self.deep_view().len() == 0),
    {
        let n = self.len();
        proof {
            if n == 0 {
                assert(self.deep_view() =~= Set::<K::V>::empty());
            } else {
                assert(self.deep_view().contains(self.items()[0]));
            }
        }
        n == 0
    }

    /// The item at position `i`.
    pub fn item(&self, i: usize) -> (r: &K)
        requires
            i < self.items().len(),
        ensures
            r.deep_view() == self.items()[i as int],
            self.deep_view().contains(self.items()[i as int]),
    {
        let n = self.items.len();
        self.items.key(i)
    }

    /// Whether `item` is in the set.
    pub fn contains(&self, item: &K::Probe) -> (r: bool)
        ensures
            r == self.deep_view().contains(item.deep_view()),
    {
        self.items.contains_key(item)
    }

    /// Adds `item`; whether it was not in the set before.
    pub fn insert(&mut self, item: K) -> (r: bool)
        ensures
            final(self).deep_view() == old(self).deep_view().insert(item.deep_view()),
            r == !old(self).deep_view().contains(item.deep_view()),
    {
        let ghost before = self.items.deep_view();
        let ghost k = item.deep_view();
        let previous = self.items.insert(item, ());
        assert(self.items.deep_view().dom() =~= before.dom().insert(k));
        previous.is_none()
    }

    /// Takes `item` out; whether it was in the set before.
    pub fn remove(&mut self, item: &K::Probe) -> (r: bool)
        ensures
            final(self).deep_view() == old(self).deep_view().remove(item.deep_view()),
            r == old(self).deep_view().contains(item.deep_view()),
    {
        let ghost before = self.items.deep_view();
        let previous = self.items.remove(item);
        assert(self.items.deep_view().dom() =~= before.dom().remove(item.deep_view()));
        previous.is_some()
    }
}

impl<K: Key> DeepView for OrdSet<K> {
    type V = Set<K::V>;

    closed spec fn deep_view(&self) -> Set<K::V> {
        self.items.deep_view().dom()
    }
}

impl<K: Key> View for OrdSet<K> {
    type V = Set<K::V>;

    open spec fn view(&self) -> Set<K::V> {
        self.deep_view()
    }
}

impl<K: Key> Duplicate for OrdSet<K> {
    fn duplicate(&self) -> (r: Self) {
        OrdSet { items: self.items.duplicate() }
    }
}

impl<K: Key> Clone for OrdSet<K> {
    fn clone(&self) -> (r: Self)
        ensures
            r.deep_view() == self.deep_view(),
    {
        self.duplicate()
    }
}

impl<T: Duplicate> Duplicate for Vec<T> {
    fn duplicate(&self) -> (r: Self) {
        let mut copy: Vec<T> = Vec::new();
        let mut i: usize = 0;
        while i < self.len()
            invariant
                i == copy.len(),
                i <= self.len(),
                forall|j: int|
                    0 <= j < i ==> (#[trigger] copy@[j]).deep_view() == self@[j].deep_view(),
            decreases self.len() - i,
        {
            copy.push(self[i].duplicate());
            i = i + 1;
        }
        assert(copy.deep_view() =~= self.deep_view());
        copy
    }
}

impl<T: Duplicate> Duplicate for Option<T> {
    fn duplicate(&self) -> (r: Self) {
        match self {
            Some(t) => Some(t.duplicate()),
            None => None,
        }
    }
}

} // verus!
