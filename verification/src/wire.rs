//! The encoding of messages: fields with a number, each a varint or a string of bytes.
use vstd::prelude::*;
use vstd::string::*;
use vstd::utf8::*;

use crate::error;
use crate::error::{Error, ErrorView};
use crate::model::views::Text;
use crate::outside;
use crate::text;

verus! {

/// A number in groups of seven bits, the lowest group first. All bytes but the last have the
/// high bit.
pub open spec fn varint(n: nat) -> Seq<u8>
    decreases n,
{
    if n < 128 {
        seq![n as u8]
    } else {
        seq![(n % 128 + 128) as u8] + varint(n / 128)
    }
}

/// The number that a byte string begins with.
pub open spec fn varint_value(b: Seq<u8>) -> nat
    decreases b.len(),
{
    if b.len() == 0 {
        0
    } else if b[0] < 128 {
        b[0] as nat
    } else {
        (b[0] - 128) as nat + 128 * varint_value(b.drop_first())
    }
}

/// How many bytes the number at the beginning of a byte string takes.
pub open spec fn varint_size(b: Seq<u8>) -> Option<nat>
    decreases b.len(),
{
    if b.len() == 0 {
        None
    } else if b[0] < 128 {
        Some(1)
    } else {
        match varint_size(b.drop_first()) {
            Some(n) => Some(n + 1),
            None => None,
        }
    }
}

/// The number at the beginning of a byte string and its size, if it takes at most ten bytes
/// and fits.
pub open spec fn read_varint(b: Seq<u8>) -> Option<(u64, nat)> {
    match varint_size(b) {
        Some(n) => if n <= 10 && varint_value(b) <= u64::MAX {
            Some((varint_value(b) as u64, n))
        } else {
            None
        },
        None => None,
    }
}

/// What a field holds.
#[derive(Clone, Copy, Debug, PartialEq, Eq, Structural)]
pub enum Kind {
    Number,
    Bytes,
    Text,
    Message,
}

/// The content of a field that was read.
pub enum Item {
    Number(u64),
    Bytes(Vec<u8>),
    Text(String),
}

/// What an [`Item`] stands for.
pub enum ItemView {
    Number(u64),
    Bytes(Seq<u8>),
    Text(Text),
}

impl View for Item {
    type V = ItemView;

    open spec fn view(&self) -> ItemView {
        match self {
            Item::Number(n) => ItemView::Number(*n),
            Item::Bytes(b) => ItemView::Bytes(b@),
            Item::Text(t) => ItemView::Text(t@),
        }
    }
}

/// Why bytes are no encoding: in which fields of which messages, the innermost first, and what
/// is wrong there.
pub struct Fault {
    pub path: String,
    pub why: String,
}

/// What a [`Fault`] stands for.
#[verifier::ext_equal]
pub struct FaultView {
    pub path: Text,
    pub why: Text,
}

impl View for Fault {
    type V = FaultView;

    open spec fn view(&self) -> FaultView {
        FaultView { path: self.path@, why: self.why@ }
    }
}

/// A fault that is in no known field.
pub open spec fn plain_fault(why: Text) -> FaultView {
    FaultView { path: Seq::empty(), why }
}

/// A message that can be encoded.
pub trait Message: Sized + DeepView {
    /// The name of the message.
    spec fn title() -> Text;

    /// The name of the field with the given number.
    spec fn label(tag: u32) -> Text;

    /// What the field with the given number holds; `None` for a number that is not known.
    spec fn kind(tag: u32) -> Option<Kind>;

    /// The message without any field.
    spec fn initial() -> Self::V;

    /// The message with one more field that holds no message.
    spec fn put(m: Self::V, tag: u32, item: ItemView) -> Self::V;

    /// The message with one more field that holds a message, which is the first `len` of the
    /// bytes.
    spec fn embed(m: Self::V, tag: u32, b: Seq<u8>, len: nat) -> Result<Self::V, FaultView>;

    /// The encoding of the message.
    spec fn wire(m: Self::V) -> Seq<u8>;

    fn title_text() -> (r: &'static str)
        ensures
            r@ == Self::title(),
    ;

    fn label_text(tag: u32) -> (r: &'static str)
        ensures
            r@ == Self::label(tag),
    ;

    fn field_kind(tag: u32) -> (r: Option<Kind>)
        ensures
            r == Self::kind(tag),
    ;

    fn empty() -> (r: Self)
        ensures
            r.deep_view() == Self::initial(),
    ;

    fn set(&mut self, tag: u32, item: Item)
        ensures
            final(self).deep_view() == Self::put(old(self).deep_view(), tag, item@),
    ;

    fn take_in(&mut self, tag: u32, bytes: &[u8], len: usize) -> (r: Result<(), Fault>)
        requires
            len <= bytes@.len(),
        ensures
            match Self::embed(old(self).deep_view(), tag, bytes@, len as nat) {
                Ok(next) => r is Ok && final(self).deep_view() == next,
                Err(fault) => r is Err && r->Err_0@ == fault,
            },
    ;

    fn write(&self, out: &mut Vec<u8>)
        ensures
            final(out)@ == old(out)@ + Self::wire(self.deep_view()),
    ;
}

/// The name of a wire type.
pub open spec fn wire_name(wire: u8) -> Text {
    if wire == 0 {
        "Varint"@
    } else if wire == 1 {
        "SixtyFourBit"@
    } else if wire == 2 {
        "LengthDelimited"@
    } else if wire == 3 {
        "StartGroup"@
    } else if wire == 4 {
        "EndGroup"@
    } else {
        "ThirtyTwoBit"@
    }
}

/// The wire type of what a field holds.
pub open spec fn wire_of(kind: Kind) -> u8 {
    match kind {
        Kind::Number => 0,
        _ => 2,
    }
}

/// A field has another wire type than it should have.
pub open spec fn mismatch(actual: u8, expected: u8) -> Text {
    "invalid wire type: "@ + wire_name(actual) + " (expected "@ + wire_name(expected) + ")"@
}

/// The number and the wire type of a field, and the size of both together.
pub open spec fn read_key(b: Seq<u8>) -> Result<(u32, u8, nat), Text> {
    match read_varint(b) {
        None => Err("invalid varint"@),
        Some((key, n)) => if key > u32::MAX {
            Err("invalid key value: "@ + text::decimal(key as nat))
        } else if key % 8 > 5 {
            Err("invalid wire type value: "@ + text::decimal((key % 8) as nat))
        } else if key / 8 == 0 {
            Err("invalid tag value: 0"@)
        } else {
            Ok(((key / 8) as u32, (key % 8) as u8, n))
        },
    }
}

/// How the text of every decoding error begins.
pub open spec fn preamble() -> Text {
    "failed to decode Protobuf message: "@
}

/// What a text says after the words that it begins with.
pub open spec fn bare(told: Text) -> Text {
    told.skip(preamble().len() as int)
}

/// The bytes of a field as they stand inside a group with the number 1.
pub open spec fn grouped(wire: u8, tag: u32, b: Seq<u8>) -> Seq<u8> {
    varint((tag * 8 + wire) as nat) + b
}

/// How many bytes a field of an unknown number takes. Fields can be nested up to a limit; in an
/// embedded message one level is used up already, as if the field stood inside a group.
pub open spec fn skip(wire: u8, tag: u32, b: Seq<u8>, inside: bool) -> Result<nat, Text> {
    match outside::skipped(wire, tag, b) {
        Ok(n) => if !inside {
            Ok(n)
        } else {
            match outside::skipped(3, 1, grouped(wire, tag, b.take(n as int)).push(12)) {
                Ok(_) => Ok(n),
                Err(told) => Err(bare(told)),
            }
        },
        Err(told) => if !inside {
            Err(bare(told))
        } else {
            match outside::skipped(3, 1, grouped(wire, tag, b)) {
                Ok(_) => Err(bare(told)),
                Err(deeper) => Err(bare(deeper)),
            }
        },
    }
}

/// The name of a field with that of its message.
pub open spec fn location<M: Message>(tag: u32) -> Text {
    M::title() + "."@ + M::label(tag) + ": "@
}

/// A fault in the field itself.
pub open spec fn fault_at<M: Message>(tag: u32, why: Text) -> FaultView {
    FaultView { path: location::<M>(tag), why }
}

/// The message with one more field of a known number, and the size of its content.
pub open spec fn read_field<M: Message>(
    m: M::V,
    kind: Kind,
    tag: u32,
    wire: u8,
    b: Seq<u8>,
) -> Result<(M::V, nat), FaultView> {
    if wire != wire_of(kind) {
        Err(fault_at::<M>(tag, mismatch(wire, wire_of(kind))))
    } else {
        match read_varint(b) {
            None => Err(fault_at::<M>(tag, "invalid varint"@)),
            Some((value, n)) => if kind == Kind::Number {
                Ok((M::put(m, tag, ItemView::Number(value)), n))
            } else if value > b.len() - n {
                Err(fault_at::<M>(tag, "buffer underflow"@))
            } else {
                let content = b.subrange(n as int, n + value);
                let size = n + value as nat;
                match kind {
                    Kind::Text => if valid_utf8(content) {
                        Ok((M::put(m, tag, ItemView::Text(decode_utf8(content))), size))
                    } else {
                        Err(
                            fault_at::<M>(
                                tag,
                                "invalid string value: data is not UTF-8 encoded"@,
                            ),
                        )
                    },
                    Kind::Message => match M::embed(m, tag, b.skip(n as int), value as nat) {
                        Ok(next) => Ok((next, size)),
                        Err(f) => Err(FaultView { path: f.path + location::<M>(tag), why: f.why }),
                    },
                    _ => Ok((M::put(m, tag, ItemView::Bytes(content)), size)),
                }
            },
        }
    }
}

/// The message with one more field, and the size of its content.
pub open spec fn field<M: Message>(
    m: M::V,
    tag: u32,
    wire: u8,
    b: Seq<u8>,
    inside: bool,
) -> Result<(M::V, nat), FaultView> {
    match M::kind(tag) {
        None => match skip(wire, tag, b, inside) {
            Ok(n) => Ok((m, n)),
            Err(why) => Err(plain_fault(why)),
        },
        Some(kind) => read_field::<M>(m, kind, tag, wire, b),
    }
}

/// The message with the fields that a byte string begins with, which take the given number of
/// bytes, or why these are no encoding. A message may stand inside another one.
pub open spec fn merged<M: Message>(m: M::V, b: Seq<u8>, left: int, inside: bool) -> Result<
    M::V,
    FaultView,
>
    decreases
            (if left < 0 {
                0
            } else {
                left + 1
            }),
{
    if left < 0 {
        Err(plain_fault("delimited length exceeded"@))
    } else if left == 0 {
        Ok(m)
    } else {
        match read_key(b) {
            Err(why) => Err(plain_fault(why)),
            Ok((tag, wire, k)) => match field::<M>(m, tag, wire, b.skip(k as int), inside) {
                Err(f) => Err(f),
                Ok((next, n)) => {
                    proof {
                        lemma_size_positive(b);
                    }
                    merged::<M>(next, b.skip((k + n) as int), left - k - n, inside)
                },
            },
        }
    }
}

/// The message that a byte string encodes, or why it encodes none.
pub open spec fn decoded<M: Message>(b: Seq<u8>) -> Result<M::V, FaultView> {
    merged::<M>(M::initial(), b, b.len() as int, false)
}

/// A field with a number, unless it is zero.
pub open spec fn number_field(tag: u32, value: u64) -> Seq<u8> {
    if value == 0 {
        Seq::empty()
    } else {
        varint((tag * 8) as nat) + varint(value as nat)
    }
}

/// A field with a byte string.
pub open spec fn bytes_field(tag: u32, b: Seq<u8>) -> Seq<u8> {
    varint((tag * 8 + 2) as nat) + varint(b.len()) + b
}

/// A field with a byte string, unless it is empty.
pub open spec fn filled_field(tag: u32, b: Seq<u8>) -> Seq<u8> {
    if b.len() == 0 {
        Seq::empty()
    } else {
        bytes_field(tag, b)
    }
}

pub proof fn lemma_size_positive(b: Seq<u8>)
    ensures
        varint_size(b) matches Some(n) ==> 1 <= n <= b.len(),
    decreases b.len(),
{
    if b.len() > 0 && b[0] >= 128 {
        lemma_size_positive(b.drop_first());
    }
}

/// What was written is read back, whatever follows.
proof fn lemma_varint_prefix(n: nat, rest: Seq<u8>)
    ensures
        varint_value(varint(n) + rest) == n,
        varint_size(varint(n) + rest) == Some(varint(n).len()),
        varint(n).len() >= 1,
    decreases n,
{
    let b = varint(n) + rest;
    if n >= 128 {
        lemma_varint_prefix(n / 128, rest);
        assert(b.drop_first() =~= varint(n / 128) + rest);
        assert(b[0] == (n % 128 + 128) as u8);
    } else {
        assert(b[0] == n as u8);
    }
}

/// A number below 128 to the power of `k` takes at most `k` bytes.
proof fn lemma_varint_len(n: nat, k: nat)
    requires
        k >= 1,
        n < vstd::arithmetic::power::pow(128, k),
    ensures
        varint(n).len() <= k,
    decreases k,
{
    vstd::arithmetic::power::lemma_pow1(128);
    if n >= 128 {
        if k == 1 {
            assert(n < 128);
        } else {
            let p = vstd::arithmetic::power::pow(128, (k - 1) as nat);
            assert(vstd::arithmetic::power::pow(128, k) == 128 * p) by {
                reveal(vstd::arithmetic::power::pow);
            }
            assert(n / 128 < p) by (nonlinear_arith)
                requires
                    n < 128 * p,
            ;
            lemma_varint_len(n / 128, (k - 1) as nat);
        }
    }
}

/// A number that was written is read back, whatever follows.
pub proof fn lemma_varint_round_trip(n: u64, rest: Seq<u8>)
    ensures
        read_varint(varint(n as nat) + rest) == Some((n, varint(n as nat).len())),
        1 <= varint(n as nat).len() <= 10,
{
    lemma_varint_prefix(n as nat, rest);
    assert(vstd::arithmetic::power::pow(128, 10) > u64::MAX) by {
        reveal_with_fuel(vstd::arithmetic::power::pow, 11);
    }
    lemma_varint_len(n as nat, 10);
}

/// A number field is read as one.
pub proof fn lemma_merge_number<M: Message>(
    m: M::V,
    tag: u32,
    value: u64,
    rest: Seq<u8>,
    left: int,
    inside: bool,
)
    requires
        1 <= tag <= 0xffff,
        M::kind(tag) == Some(Kind::Number),
        left > 0,
    ensures
        ({
            let f = varint((tag * 8) as nat) + varint(value as nat);
            merged::<M>(m, f + rest, left, inside) == merged::<M>(
                M::put(m, tag, ItemView::Number(value)),
                rest,
                left - f.len(),
                inside,
            )
        }),
{
    let key = varint((tag * 8) as nat);
    let body = varint(value as nat);
    let b = key + body + rest;
    assert(b =~= key + (body + rest));
    lemma_varint_round_trip((tag * 8) as u64, body + rest);
    assert(b.skip(key.len() as int) =~= body + rest);
    lemma_varint_round_trip(value, rest);
    assert(b.skip((key.len() + body.len()) as int) =~= rest);
}

/// A field with a byte string, a text or a message is read as one.
pub proof fn lemma_merge_bytes<M: Message>(
    m: M::V,
    tag: u32,
    value: Seq<u8>,
    next: M::V,
    rest: Seq<u8>,
    left: int,
    inside: bool,
)
    requires
        1 <= tag <= 0xffff,
        value.len() <= u64::MAX,
        left > 0,
        match M::kind(tag) {
            Some(Kind::Bytes) => next == M::put(m, tag, ItemView::Bytes(value)),
            Some(Kind::Text) => valid_utf8(value) && next == M::put(
                m,
                tag,
                ItemView::Text(decode_utf8(value)),
            ),
            Some(Kind::Message) => M::embed(m, tag, value + rest, value.len()) == Ok::<
                M::V,
                FaultView,
            >(next),
            _ => false,
        },
    ensures
        merged::<M>(m, bytes_field(tag, value) + rest, left, inside) == merged::<M>(
            next,
            rest,
            left - bytes_field(tag, value).len(),
            inside,
        ),
{
    let key = varint((tag * 8 + 2) as nat);
    let size = varint(value.len());
    let b = bytes_field(tag, value) + rest;
    assert(b =~= key + (size + value + rest));
    lemma_varint_round_trip((tag * 8 + 2) as u64, size + value + rest);
    let tail = size + value + rest;
    assert(b.skip(key.len() as int) =~= tail);
    assert(tail =~= size + (value + rest));
    lemma_varint_round_trip(value.len() as u64, value + rest);
    assert(tail.subrange(size.len() as int, (size.len() + value.len()) as int) =~= value);
    assert(tail.skip(size.len() as int) =~= value + rest);
    let n = size.len() + value.len();
    assert(b.skip((key.len() + n) as int) =~= rest);
    assert(read_key(b) == Ok::<(u32, u8, nat), Text>((tag, 2, key.len())));
    assert(read_field::<M>(m, M::kind(tag)->0, tag, 2, tail) == Ok::<(M::V, nat), FaultView>(
        (next, n),
    ));
    assert(field::<M>(m, tag, 2, tail, inside) == Ok::<(M::V, nat), FaultView>((next, n)));
    assert(bytes_field(tag, value).len() == key.len() + n);
    lemma_merge_next::<M>(m, b, left, inside);
}

/// One field is read, and then the rest.
proof fn lemma_merge_next<M: Message>(m: M::V, b: Seq<u8>, left: int, inside: bool)
    requires
        left > 0,
        read_key(b) matches Ok((tag, wire, k)) && field::<M>(
            m,
            tag,
            wire,
            b.skip(k as int),
            inside,
        ) is Ok,
    ensures
        ({
            let (tag, wire, k) = read_key(b)->Ok_0;
            let (next, n) = field::<M>(m, tag, wire, b.skip(k as int), inside)->Ok_0;
            merged::<M>(m, b, left, inside) == merged::<M>(
                next,
                b.skip((k + n) as int),
                left - k - n,
                inside,
            )
        }),
{
}

/// The name of a wire type.
fn wire_title(wire: u8) -> (r: &'static str)
    ensures
        r@ == wire_name(wire),
{
    if wire == 0 {
        "Varint"
    } else if wire == 1 {
        "SixtyFourBit"
    } else if wire == 2 {
        "LengthDelimited"
    } else if wire == 3 {
        "StartGroup"
    } else if wire == 4 {
        "EndGroup"
    } else {
        "ThirtyTwoBit"
    }
}

/// A field has another wire type than it should have.
fn mismatch_text(actual: u8, expected: u8) -> (r: String)
    ensures
        r@ == mismatch(actual, expected),
{
    let mut r: String = "invalid wire type: ".to_owned();
    r.append(wire_title(actual));
    r.append(" (expected ");
    r.append(wire_title(expected));
    r.append(")");
    r
}

/// The name of a field with that of its message.
fn location_text<M: Message>(tag: u32) -> (r: String)
    ensures
        r@ == location::<M>(tag),
{
    let mut r: String = M::title_text().to_owned();
    r.append(".");
    r.append(M::label_text(tag));
    r.append(": ");
    r
}

/// A fault that is in no known field.
fn plain(why: String) -> (r: Fault)
    ensures
        r@ == plain_fault(why@),
{
    let r = Fault { path: String::new(), why };
    assert(r@.path =~= Seq::<char>::empty());
    r
}

/// A fault in the field itself.
fn located<M: Message>(tag: u32, why: String) -> (r: Fault)
    ensures
        r@ == fault_at::<M>(tag, why@),
{
    Fault { path: location_text::<M>(tag), why }
}

/// Reads the number and the wire type of a field.
fn next_key(bytes: &[u8]) -> (r: Result<(u32, u8, usize), String>)
    ensures
        match r {
            Ok((tag, wire, k)) => read_key(bytes@) == Ok::<(u32, u8, nat), Text>(
                (tag, wire, k as nat),
            ) && 0 < k <= bytes@.len() && wire <= 5 && 1 <= tag <= 0x1fff_ffff,
            Err(why) => read_key(bytes@) == Err::<(u32, u8, nat), Text>(why@),
        },
{
    match outside::decode_varint(bytes) {
        None => Err("invalid varint".to_owned()),
        Some((key, k)) => {
            proof {
                lemma_size_positive(bytes@);
            }
            if key > 0xffff_ffff {
                let mut why: String = "invalid key value: ".to_owned();
                why.append(text::decimal_text(key).as_str());
                Err(why)
            } else if key % 8 > 5 {
                let mut why: String = "invalid wire type value: ".to_owned();
                why.append(text::decimal_text(key % 8).as_str());
                Err(why)
            } else if key / 8 == 0 {
                Err("invalid tag value: 0".to_owned())
            } else {
                Ok(((key / 8) as u32, (key % 8) as u8, k))
            }
        },
    }
}

/// What a text says after the words that it begins with.
fn without_preamble(told: &str) -> (r: String)
    requires
        preamble().is_prefix_of(told@),
    ensures
        r@ == bare(told@),
{
    proof {
        reveal_strlit("failed to decode Protobuf message: ");
    }
    text::tail(told, 35)
}

/// Finds out how many bytes a field of an unknown number takes.
fn skip_over(wire: u8, tag: u32, bytes: &[u8], inside: bool) -> (r: Result<usize, String>)
    requires
        wire <= 5,
        tag <= 0x1fff_ffff,
    ensures
        match r {
            Ok(n) => skip(wire, tag, bytes@, inside) == Ok::<nat, Text>(n as nat) && n
                <= bytes@.len(),
            Err(why) => skip(wire, tag, bytes@, inside) == Err::<nat, Text>(why@),
        },
{
    let first = outside::skip_field(wire, tag, bytes);
    if !inside {
        return match first {
            Ok(n) => Ok(n),
            Err(told) => Err(without_preamble(told.as_str())),
        };
    }
    let mut group: Vec<u8> = Vec::new();
    outside::encode_varint(tag as u64 * 8 + wire as u64, &mut group);
    match first {
        Ok(n) => {
            group.extend_from_slice(vstd::slice::slice_subrange(bytes, 0, n));
            group.push(12);
            assert(group@ =~= grouped(wire, tag, bytes@.take(n as int)).push(12));
            match outside::skip_field(3, 1, group.as_slice()) {
                Ok(_) => Ok(n),
                Err(told) => Err(without_preamble(told.as_str())),
            }
        },
        Err(told) => {
            group.extend_from_slice(bytes);
            assert(group@ =~= grouped(wire, tag, bytes@));
            match outside::skip_field(3, 1, group.as_slice()) {
                Ok(_) => Err(without_preamble(told.as_str())),
                Err(deeper) => Err(without_preamble(deeper.as_str())),
            }
        },
    }
}

/// Adds a field of a known number to the message. Gives the size of its content.
fn take_field<M: Message>(message: &mut M, kind: Kind, tag: u32, wire: u8, bytes: &[u8]) -> (r:
    Result<usize, Fault>)
    ensures
        match read_field::<M>(old(message).deep_view(), kind, tag, wire, bytes@) {
            Ok((next, n)) => {
                &&& r is Ok
                &&& r->Ok_0 == n
                &&& n <= bytes@.len()
                &&& final(message).deep_view() == next
            },
            Err(fault) => r is Err && r->Err_0@ == fault,
        },
{
    let expected: u8 = match kind {
        Kind::Number => 0,
        _ => 2,
    };
    if wire != expected {
        return Err(located::<M>(tag, mismatch_text(wire, expected)));
    }
    let (value, n): (u64, usize) = match outside::decode_varint(bytes) {
        Some(read) => read,
        None => {
            return Err(located::<M>(tag, "invalid varint".to_owned()));
        },
    };
    proof {
        lemma_size_positive(bytes@);
    }
    if kind == Kind::Number {
        message.set(tag, Item::Number(value));
        return Ok(n);
    }
    if value > (bytes.len() - n) as u64 {
        return Err(located::<M>(tag, "buffer underflow".to_owned()));
    }
    let end: usize = n + value as usize;
    let content: &[u8] = vstd::slice::slice_subrange(bytes, n, end);
    match kind {
        Kind::Text => match outside::utf8_text(content) {
            Some(text) => {
                message.set(tag, Item::Text(text));
            },
            None => {
                return Err(
                    located::<M>(
                        tag,
                        "invalid string value: data is not UTF-8 encoded".to_owned(),
                    ),
                );
            },
        },
        Kind::Message => {
            let rest: &[u8] = vstd::slice::slice_subrange(bytes, n, bytes.len());
            assert(rest@ =~= bytes@.skip(n as int));
            match message.take_in(tag, rest, value as usize) {
                Ok(_) => {},
                Err(fault) => {
                    let mut path: String = fault.path;
                    path.append(location_text::<M>(tag).as_str());
                    return Err(Fault { path, why: fault.why });
                },
            }
        },
        _ => {
            let mut copy: Vec<u8> = Vec::new();
            copy.extend_from_slice(content);
            assert(copy@ =~= content@);
            message.set(tag, Item::Bytes(copy));
        },
    }
    Ok(end)
}

/// Adds a field to the message. Gives the size of its content.
fn merge_field<M: Message>(message: &mut M, tag: u32, wire: u8, bytes: &[u8], inside: bool) -> (r:
    Result<usize, Fault>)
    requires
        wire <= 5,
        tag <= 0x1fff_ffff,
    ensures
        match field::<M>(old(message).deep_view(), tag, wire, bytes@, inside) {
            Ok((next, n)) => {
                &&& r is Ok
                &&& r->Ok_0 == n
                &&& n <= bytes@.len()
                &&& final(message).deep_view() == next
            },
            Err(fault) => r is Err && r->Err_0@ == fault,
        },
{
    match M::field_kind(tag) {
        None => match skip_over(wire, tag, bytes, inside) {
            Ok(n) => Ok(n),
            Err(why) => Err(plain(why)),
        },
        Some(kind) => take_field(message, kind, tag, wire, bytes),
    }
}

/// Adds the fields to the message that take the first `len` of the bytes.
pub fn merge<M: Message>(message: &mut M, bytes: &[u8], len: usize, inside: bool) -> (r: Result<
    (),
    Fault,
>)
    requires
        len <= bytes@.len(),
    ensures
        match merged::<M>(old(message).deep_view(), bytes@, len as int, inside) {
            Ok(next) => r is Ok && final(message).deep_view() == next,
            Err(fault) => r is Err && r->Err_0@ == fault,
        },
{
    let mut at: usize = 0;
    assert(bytes@.skip(0) =~= bytes@);
    while at < len
        invariant
            at <= bytes.len(),
            len <= bytes@.len(),
            merged::<M>(message.deep_view(), bytes@.skip(at as int), len - at, inside) == merged::<
                M,
            >(old(message).deep_view(), bytes@, len as int, inside),
        decreases bytes.len() - at,
    {
        let rest: &[u8] = vstd::slice::slice_subrange(bytes, at, bytes.len());
        assert(rest@ =~= bytes@.skip(at as int));
        let (tag, wire, k): (u32, u8, usize) = match next_key(rest) {
            Ok(key) => key,
            Err(why) => {
                return Err(plain(why));
            },
        };
        let content: &[u8] = vstd::slice::slice_subrange(rest, k, rest.len());
        assert(content@ =~= rest@.skip(k as int));
        match merge_field(message, tag, wire, content, inside) {
            Ok(n) => {
                assert(rest@.skip(k + n) =~= bytes@.skip(at + k + n));
                at = at + k + n;
            },
            Err(fault) => {
                return Err(fault);
            },
        }
    }
    if at > len {
        return Err(plain("delimited length exceeded".to_owned()));
    }
    Ok(())
}

/// How undecodable bytes are reported.
pub open spec fn undecodable(fault: FaultView) -> ErrorView {
    ErrorView::Protocol(preamble() + fault.path + fault.why)
}

/// The message that a byte string encodes.
pub fn decode<M: Message>(bytes: &[u8]) -> (r: error::Result<M>)
    ensures
        match decoded::<M>(bytes@) {
            Ok(m) => r is Ok && r->Ok_0.deep_view() == m,
            Err(fault) => r is Err && r->Err_0@ == undecodable(fault),
        },
{
    let mut message = M::empty();
    match merge(&mut message, bytes, bytes.len(), false) {
        Ok(_) => Ok(message),
        Err(fault) => {
            let mut text: String = "failed to decode Protobuf message: ".to_owned();
            text.append(fault.path.as_str());
            text.append(fault.why.as_str());
            Err(Error::Protocol(text))
        },
    }
}

/// The encoding of the message.
pub fn encode<M: Message>(message: &M) -> (r: Vec<u8>)
    ensures
        r@ == M::wire(message.deep_view()),
{
    let mut out: Vec<u8> = Vec::new();
    message.write(&mut out);
    assert(out@ =~= M::wire(message.deep_view()));
    out
}

/// Writes a number field, unless the number is zero.
pub fn write_number(tag: u32, value: u64, out: &mut Vec<u8>)
    requires
        tag <= 0xffff,
    ensures
        final(out)@ == old(out)@ + number_field(tag, value),
{
    let ghost before = out@;
    if value != 0 {
        outside::encode_varint(tag as u64 * 8, out);
        outside::encode_varint(value, out);
    }
    assert(out@ =~= before + number_field(tag, value));
}

/// Writes a byte string field.
pub fn write_bytes(tag: u32, value: &[u8], out: &mut Vec<u8>)
    requires
        tag <= 0xffff,
    ensures
        final(out)@ == old(out)@ + bytes_field(tag, value@),
{
    let ghost before = out@;
    outside::encode_varint(tag as u64 * 8 + 2, out);
    outside::encode_varint(value.len() as u64, out);
    out.extend_from_slice(value);
    assert(out@ =~= before + bytes_field(tag, value@));
}

/// Writes a byte string field, unless the byte string is empty.
pub fn write_filled(tag: u32, value: &[u8], out: &mut Vec<u8>)
    requires
        tag <= 0xffff,
    ensures
        final(out)@ == old(out)@ + filled_field(tag, value@),
{
    let ghost before = out@;
    if value.len() > 0 {
        write_bytes(tag, value, out);
    }
    assert(out@ =~= before + filled_field(tag, value@));
}

} // verus!
