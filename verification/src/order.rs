//! The order in which keys are kept: text by its UTF-8 bytes, numbers by value.
use vstd::prelude::*;
use vstd::string::*;
use vstd::utf8::*;

verus! {

/// How one key stands to another.
#[derive(Clone, Copy, PartialEq, Eq, Structural)]
pub enum Rank {
    Before,
    Same,
    After,
}

/// Lexicographic order of byte strings.
pub open spec fn bytes_before(a: Seq<u8>, b: Seq<u8>) -> bool
    decreases a.len(),
{
    if b.len() == 0 {
        false
    } else if a.len() == 0 {
        true
    } else if a[0] != b[0] {
        a[0] < b[0]
    } else {
        bytes_before(a.drop_first(), b.drop_first())
    }
}

/// Text is ordered by its UTF-8 encoding.
pub open spec fn text_before(a: Seq<char>, b: Seq<char>) -> bool {
    bytes_before(encode_utf8(a), encode_utf8(b))
}

pub proof fn lemma_bytes_before_irreflexive(a: Seq<u8>)
    ensures
        !bytes_before(a, a),
    decreases a.len(),
{
    if a.len() > 0 {
        lemma_bytes_before_irreflexive(a.drop_first());
    }
}

pub proof fn lemma_bytes_before_transitive(a: Seq<u8>, b: Seq<u8>, c: Seq<u8>)
    requires
        bytes_before(a, b),
        bytes_before(b, c),
    ensures
        bytes_before(a, c),
    decreases a.len(),
{
    if a.len() > 0 && a[0] == b[0] && b[0] == c[0] {
        lemma_bytes_before_transitive(a.drop_first(), b.drop_first(), c.drop_first());
    }
}

pub proof fn lemma_bytes_before_total(a: Seq<u8>, b: Seq<u8>)
    ensures
        a == b || bytes_before(a, b) || bytes_before(b, a),
    decreases a.len(),
{
    if a.len() == 0 && b.len() == 0 {
        assert(a =~= b);
    } else if a.len() > 0 && b.len() > 0 && a[0] == b[0] {
        lemma_bytes_before_total(a.drop_first(), b.drop_first());
        if a.drop_first() == b.drop_first() {
            assert(a =~= seq![a[0]] + a.drop_first());
            assert(b =~= seq![b[0]] + b.drop_first());
        }
    }
}

/// Two texts with the same encoding are the same text.
pub proof fn lemma_utf8_injective(a: Seq<char>, b: Seq<char>)
    requires
        encode_utf8(a) == encode_utf8(b),
    ensures
        a == b,
{
    encode_utf8_decode_utf8(a);
    encode_utf8_decode_utf8(b);
}

/// Compares two byte strings.
pub fn rank_bytes(a: &[u8], b: &[u8]) -> (r: Rank)
    ensures
        r == Rank::Before <==> bytes_before(a@, b@),
        r == Rank::Same <==> a@ == b@,
        r == Rank::After <==> bytes_before(b@, a@),
{
    let mut i: usize = 0;
    proof {
        lemma_bytes_before_total(a@, b@);
        lemma_bytes_before_irreflexive(a@);
        if bytes_before(a@, b@) && bytes_before(b@, a@) {
            lemma_bytes_before_transitive(a@, b@, a@);
        }
        assert(a@.skip(0) =~= a@);
        assert(b@.skip(0) =~= b@);
    }
    while i < a.len() && i < b.len()
        invariant
            i <= a.len(),
            i <= b.len(),
            a@.take(i as int) == b@.take(i as int),
            bytes_before(a@, b@) == bytes_before(a@.skip(i as int), b@.skip(i as int)),
            bytes_before(b@, a@) == bytes_before(b@.skip(i as int), a@.skip(i as int)),
            a@ == b@ || bytes_before(a@, b@) || bytes_before(b@, a@),
            !(bytes_before(a@, b@) && bytes_before(b@, a@)),
            !bytes_before(a@, a@),
        decreases a.len() - i,
    {
        if a[i] < b[i] {
            return Rank::Before;
        }
        if b[i] < a[i] {
            return Rank::After;
        }
        proof {
            assert(a@.skip(i as int).drop_first() =~= a@.skip(i + 1));
            assert(b@.skip(i as int).drop_first() =~= b@.skip(i + 1));
            assert(a@.take(i + 1) =~= a@.take(i as int).push(a@[i as int]));
            assert(b@.take(i + 1) =~= b@.take(i as int).push(b@[i as int]));
        }
        i = i + 1;
    }
    if i < b.len() {
        Rank::Before
    } else if i < a.len() {
        Rank::After
    } else {
        proof {
            assert(a@.take(i as int) =~= a@);
            assert(b@.take(i as int) =~= b@);
        }
        Rank::Same
    }
}

/// Whether two byte strings are equal.
pub fn same_bytes(a: &[u8], b: &[u8]) -> (r: bool)
    ensures
        r == (a@ == b@),
{
    rank_bytes(a, b) == Rank::Same
}

/// Compares two texts.
pub fn rank_text(a: &str, b: &str) -> (r: Rank)
    ensures
        r == Rank::Before <==> text_before(a@, b@),
        r == Rank::Same <==> a@ == b@,
        r == Rank::After <==> text_before(b@, a@),
{
    proof {
        if encode_utf8(a@) == encode_utf8(b@) {
            lemma_utf8_injective(a@, b@);
        }
    }
    rank_bytes(a.as_bytes(), b.as_bytes())
}

/// Whether two texts are equal.
pub fn same_text(a: &str, b: &str) -> (r: bool)
    ensures
        r == (a@ == b@),
{
    rank_text(a, b) == Rank::Same
}

/// A value that can be copied, field for field.
pub trait Duplicate: DeepView + Sized {
    fn duplicate(&self) -> (r: Self)
        ensures
            r.deep_view() == self.deep_view(),
    ;
}

/// A key of an ordered collection. `Probe` is the form in which a key is looked up.
pub trait Key: Duplicate {
    type Probe: ?Sized + DeepView<V = Self::V>;

    /// The strict order of keys.
    spec fn before(a: Self::V, b: Self::V) -> bool;

    proof fn irreflexive(a: Self::V)
        ensures
            !Self::before(a, a),
    ;

    proof fn transitive(a: Self::V, b: Self::V, c: Self::V)
        requires
            Self::before(a, b),
            Self::before(b, c),
        ensures
            Self::before(a, c),
    ;

    proof fn total(a: Self::V, b: Self::V)
        ensures
            a == b || Self::before(a, b) || Self::before(b, a),
    ;

    /// Where the key stands relative to the one that is looked up.
    fn rank(&self, probe: &Self::Probe) -> (r: Rank)
        ensures
            r == Rank::Before <==> Self::before(self.deep_view(), probe.deep_view()),
            r == Rank::Same <==> self.deep_view() == probe.deep_view(),
            r == Rank::After <==> Self::before(probe.deep_view(), self.deep_view()),
    ;

    /// The key in the form in which it is looked up.
    fn probe(&self) -> (r: &Self::Probe)
        ensures
            r.deep_view() == self.deep_view(),
    ;
}

/// A copy of a byte string.
pub fn copy_bytes(b: &Vec<u8>) -> (r: Vec<u8>)
    ensures
        r@ == b@,
{
    let mut r: Vec<u8> = Vec::new();
    r.extend_from_slice(b.as_slice());
    assert(r@ =~= b@);
    r
}

impl Duplicate for String {
    fn duplicate(&self) -> (r: Self) {
        self.clone()
    }
}

impl Duplicate for u64 {
    fn duplicate(&self) -> (r: Self) {
        *self
    }
}

impl Duplicate for i64 {
    fn duplicate(&self) -> (r: Self) {
        *self
    }
}

impl Duplicate for usize {
    fn duplicate(&self) -> (r: Self) {
        *self
    }
}

impl Duplicate for () {
    fn duplicate(&self) -> (r: Self) {
        ()
    }
}

impl Key for String {
    type Probe = str;

    open spec fn before(a: Seq<char>, b: Seq<char>) -> bool {
        text_before(a, b)
    }

    proof fn irreflexive(a: Seq<char>) {
        lemma_bytes_before_irreflexive(encode_utf8(a));
    }

    proof fn transitive(a: Seq<char>, b: Seq<char>, c: Seq<char>) {
        lemma_bytes_before_transitive(encode_utf8(a), encode_utf8(b), encode_utf8(c));
    }

    proof fn total(a: Seq<char>, b: Seq<char>) {
        lemma_bytes_before_total(encode_utf8(a), encode_utf8(b));
        if encode_utf8(a) == encode_utf8(b) {
            lemma_utf8_injective(a, b);
        }
    }

    fn rank(&self, probe: &str) -> (r: Rank) {
        assert(self.deep_view() == self@);
        assert(probe.deep_view() == probe@);
        rank_text(self.as_str(), probe)
    }

    fn probe(&self) -> (r: &str) {
        assert(self.deep_view() == self@);
        let r = self.as_str();
        assert(r.deep_view() == r@);
        r
    }
}

impl Key for u64 {
    type Probe = u64;

    open spec fn before(a: u64, b: u64) -> bool {
        a < b
    }

    proof fn irreflexive(a: u64) {
    }

    proof fn transitive(a: u64, b: u64, c: u64) {
    }

    proof fn total(a: u64, b: u64) {
    }

    fn rank(&self, probe: &u64) -> (r: Rank) {
        if *self < *probe {
            Rank::Before
        } else if *self == *probe {
            Rank::Same
        } else {
            Rank::After
        }
    }

    fn probe(&self) -> (r: &u64) {
        self
    }
}

} // verus!
