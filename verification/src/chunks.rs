//! Long JSON texts travel in numbered parts.
use vstd::prelude::*;

use crate::error;
use crate::error::{Error, ErrorView, Outcome, Result};
use crate::protocol::{JsonFrame, JsonFrameView};

verus! {

/// How many parts of the given size a text takes.
pub open spec fn part_count(len: nat, size: nat) -> nat {
    (len + size - 1) as nat / size
}

/// The part with the given number.
pub open spec fn part(bytes: Seq<u8>, size: nat, i: int) -> JsonFrameView {
    let end = if (i + 1) * size <= bytes.len() {
        (i + 1) * size
    } else {
        bytes.len() as int
    };
    JsonFrameView {
        json: bytes.subrange(i * size, end),
        sequence: i as u32,
        last: i + 1 == part_count(bytes.len(), size),
    }
}

/// All parts of a text; an error where the text is too long.
pub open spec fn parts(bytes: Seq<u8>, max: nat, size: nat) -> Outcome<Seq<JsonFrameView>> {
    if bytes.len() > max {
        Err(ErrorView::Capacity)
    } else {
        Ok(Seq::new(part_count(bytes.len(), size), |i: int| part(bytes, size, i)))
    }
}

/// Where a part ends, and how many parts there are.
proof fn lemma_count(len: nat, size: nat, i: nat)
    requires
        size > 0,
    ensures
        i * size < len <==> i < part_count(len, size),
        len > 0 ==> part_count(len, size) >= 1,
        part_count(len, size) <= len,
{
    let n = part_count(len, size);
    let total = (len + size - 1) as nat;
    assert(n * size <= total < (n + 1) * size) by (nonlinear_arith)
        requires
            n == total / size,
            size > 0,
    ;
    if i < n {
        assert(i * size <= (n - 1) * size) by (nonlinear_arith)
            requires
                i <= n - 1,
                size > 0,
        ;
        assert((n - 1) * size == n * size - size) by (nonlinear_arith);
    } else {
        assert(i * size >= n * size) by (nonlinear_arith)
            requires
                i >= n,
                size > 0,
        ;
        assert((n + 1) * size == n * size + size) by (nonlinear_arith);
    }
    assert(n <= len) by (nonlinear_arith)
        requires
            n * size <= len + size - 1,
            size > 0,
    ;
}

/// Splits a text of at most `max` bytes into parts of the given size.
pub fn split(bytes: &[u8], max: usize, size: usize) -> (r: Result<Vec<JsonFrame>>)
    requires
        size > 0,
        max <= u32::MAX,
    ensures
        match parts(bytes@, max as nat, size as nat) {
            Ok(frames) => r is Ok && r->Ok_0.deep_view() == frames,
            Err(e) => r is Err && r->Err_0@ == e,
        },
{
    if bytes.len() > max {
        return Err(Error::Capacity);
    }
    let ghost n = part_count(bytes@.len(), size as nat);
    let mut frames: Vec<JsonFrame> = Vec::new();
    let mut at: usize = 0;
    let mut index: u32 = 0;
    proof {
        lemma_count(bytes@.len(), size as nat, 0);
        assert(0 * size == 0) by (nonlinear_arith);
    }
    while at < bytes.len()
        invariant
            size > 0,
            bytes@.len() <= u32::MAX,
            n == part_count(bytes@.len(), size as nat),
            index <= n <= bytes@.len(),
            at == (if index * size <= bytes@.len() {
                index * size
            } else {
                bytes@.len() as int
            }),
            at < bytes@.len() <==> index < n,
            frames@.len() == index,
            forall|i: int|
                0 <= i < index ==> (#[trigger] frames@[i])@ == part(bytes@, size as nat, i),
        decreases bytes@.len() - at,
    {
        proof {
            lemma_count(bytes@.len(), size as nat, index as nat);
            lemma_count(bytes@.len(), size as nat, (index + 1) as nat);
            assert((index + 1) * size == index * size + size) by (nonlinear_arith);
        }
        let end: usize = if bytes.len() - at > size {
            at + size
        } else {
            bytes.len()
        };
        let mut json: Vec<u8> = Vec::new();
        json.extend_from_slice(vstd::slice::slice_subrange(bytes, at, end));
        assert(json@ =~= bytes@.subrange(at as int, end as int));
        let frame = JsonFrame { json, sequence: index, last: end == bytes.len() };
        assert(frame@ =~= part(bytes@, size as nat, index as int));
        frames.push(frame);
        at = end;
        index = index + 1;
    }
    assert(frames.deep_view() =~= parts(bytes@, max as nat, size as nat)->Ok_0);
    Ok(frames)
}

/// A text that is put together from its parts.
pub struct Assembly {
    bytes: Vec<u8>,
    count: u32,
}

/// What an [`Assembly`] stands for.
pub struct AssemblyView {
    pub bytes: Seq<u8>,
    pub count: nat,
}

impl View for Assembly {
    type V = AssemblyView;

    closed spec fn view(&self) -> AssemblyView {
        AssemblyView { bytes: self.bytes@, count: self.count as nat }
    }
}

/// The part is the next one, is not empty and does not make the text too long.
pub open spec fn continues(a: AssemblyView, frame: JsonFrameView, max: nat) -> bool {
    frame.sequence == a.count && frame.json.len() > 0 && a.bytes.len() + frame.json.len() <= max
}

/// The text with one more part.
pub open spec fn extended(a: AssemblyView, frame: JsonFrameView) -> AssemblyView {
    AssemblyView { bytes: a.bytes + frame.json, count: a.count + 1 }
}

impl Assembly {
    /// No part was empty, and no text is so long that its parts could not be numbered.
    #[verifier::type_invariant]
    closed spec fn bounded(&self) -> bool {
        self.count <= self.bytes@.len() <= u32::MAX
    }

    /// A text of which nothing has come yet.
    pub fn new() -> (r: Self)
        ensures
            r@ == (AssemblyView { bytes: Seq::empty(), count: 0 }),
    {
        let r = Assembly { bytes: Vec::new(), count: 0 };
        assert(r@.bytes =~= Seq::<u8>::empty());
        r
    }

    /// Takes the next part; whether it was the last one. `None` where it is not the next part,
    /// which changes nothing.
    pub fn accept(&mut self, frame: &JsonFrame, max: usize) -> (r: Option<bool>)
        requires
            max <= u32::MAX,
        ensures
            match r {
                Some(last) => continues(old(self)@, frame@, max as nat) && final(self)@ == extended(
                    old(self)@,
                    frame@,
                ) && last == frame.last,
                None => !continues(old(self)@, frame@, max as nat) && final(self)@ == old(self)@,
            },
    {
        proof {
            use_type_invariant(&*self);
        }
        if frame.sequence != self.count || frame.json.len() == 0 {
            return None;
        }
        if self.bytes.len() > max || frame.json.len() > max - self.bytes.len() {
            return None;
        }
        let ghost before = self.bytes@;
        let count: u32 = self.count;
        let mut bytes: Vec<u8> = Vec::new();
        self.count = 0;
        std::mem::swap(&mut self.bytes, &mut bytes);
        bytes.extend_from_slice(frame.json.as_slice());
        assert(bytes@ =~= before + frame.json@);
        self.bytes = bytes;
        self.count = count + 1;
        Some(frame.last)
    }

    /// What has come of the text.
    pub fn bytes(&self) -> (r: &[u8])
        ensures
            r@ == self@.bytes,
    {
        self.bytes.as_slice()
    }

    /// How many parts have come.
    pub fn count(&self) -> (r: u32)
        ensures
            r == self@.count,
    {
        self.count
    }
}

/// The text after the first `n` parts.
pub open spec fn assembled(frames: Seq<JsonFrameView>, n: nat) -> AssemblyView
    decreases n,
{
    if n == 0 {
        AssemblyView { bytes: Seq::empty(), count: 0 }
    } else {
        extended(assembled(frames, (n - 1) as nat), frames[n - 1])
    }
}

/// What was split is put together again: each part continues the text, none but the last one
/// is marked as the last, and the text is then complete.
pub proof fn law_parts_make_the_whole(bytes: Seq<u8>, max: nat, size: nat, n: nat)
    requires
        size > 0,
        0 < bytes.len() <= max,
        bytes.len() <= u32::MAX,
        n <= part_count(bytes.len(), size),
    ensures
        ({
            let frames = parts(bytes, max, size)->Ok_0;
            let a = assembled(frames, n);
            &&& a.count == n
            &&& a.bytes == bytes.take(
                if n * size <= bytes.len() {
                    (n * size) as int
                } else {
                    bytes.len() as int
                },
            )
            &&& n < frames.len() ==> continues(a, frames[n as int], max) && frames[n as int].last
                == (n + 1 == frames.len())
            &&& n == frames.len() ==> a.bytes == bytes
        }),
    decreases n,
{
    let frames = parts(bytes, max, size)->Ok_0;
    let total = part_count(bytes.len(), size);
    lemma_count(bytes.len(), size, n);
    assert((n + 1) * size == n * size + size) by (nonlinear_arith);
    if n == 0 {
        assert(0 * size == 0) by (nonlinear_arith);
        assert(assembled(frames, 0).bytes =~= bytes.take(0));
    } else {
        let m = (n - 1) as nat;
        law_parts_make_the_whole(bytes, max, size, m);
        lemma_count(bytes.len(), size, m);
        assert(n * size == m * size + size) by (nonlinear_arith)
            requires
                n == m + 1,
        ;
        let end = if n * size <= bytes.len() {
            (n * size) as int
        } else {
            bytes.len() as int
        };
        let a = assembled(frames, m);
        assert(a.bytes + frames[m as int].json =~= bytes.take(end));
    }
    if n == frames.len() {
        assert(bytes.take(bytes.len() as int) =~= bytes);
    } else {
        let end = if (n + 1) * size <= bytes.len() {
            ((n + 1) * size) as int
        } else {
            bytes.len() as int
        };
        assert(frames[n as int].json.len() == end - n * size);
    }
}

} // verus!
