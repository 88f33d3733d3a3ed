//! How messages are laid out in bytes.
use vstd::arithmetic::power::pow;
use vstd::prelude::*;
use vstd::utf8::*;

use crate::error::ErrorView;
use crate::model::views::Text;
use crate::outside;
use crate::protocol;
use crate::protocol::{
    DirectoryRequest, DirectoryRequestView, DirectoryResponse, DirectoryResponseView, GrantClaims,
    GrantClaimsView, GrantEnvelope, GrantEnvelopeView, JsonFrame, JsonFrameView, OpenRequest,
    OpenRequestView, OpenResponse, OpenResponseView, ServiceRecord, ServiceRecordView,
};
use crate::text;
use crate::wire;
use crate::wire::{FaultView, ItemView, Kind, Message};

verus! {

/// A number is written in groups of seven bits, the lowest first: all but the last byte have the
/// eighth bit, and there are no more bytes than needed.
pub proof fn law_numbers_are_written_in_sevens(n: nat, i: int)
    requires
        0 <= i < wire::varint(n).len(),
    ensures
        ({
            let b = wire::varint(n);
            &&& b[i] as int % 128 == n as int / pow(128, i as nat) % 128
            &&& b[i] >= 128 <==> i < b.len() - 1
            &&& n < pow(128, b.len())
            &&& b.len() > 1 ==> n >= pow(128, (b.len() - 1) as nat)
        }),
    decreases n,
{
    let b = wire::varint(n);
    vstd::arithmetic::power::lemma_pow0(128);
    vstd::arithmetic::power::lemma_pow1(128);
    if n < 128 {
        assert(b =~= seq![n as u8]);
    } else {
        let rest = wire::varint(n / 128);
        assert(b =~= seq![(n % 128 + 128) as u8] + rest);
        lemma_first(n / 128);
        let j = if i > 0 {
            i - 1
        } else {
            0
        };
        law_numbers_are_written_in_sevens(n / 128, j);
        let k = rest.len();
        assert(pow(128, k + 1) == 128 * pow(128, k)) by {
            reveal(pow);
        }
        assert(pow(128, k) == 128 * pow(128, (k - 1) as nat)) by {
            reveal(pow);
        }
        assert(n < 128 * pow(128, k)) by (nonlinear_arith)
            requires
                (n / 128) < pow(128, k),
        ;
        if k > 1 {
            assert(n >= 128 * pow(128, (k - 1) as nat)) by (nonlinear_arith)
                requires
                    (n / 128) >= pow(128, (k - 1) as nat),
            ;
        } else {
            assert(pow(128, 1) == 128);
        }
        if i > 0 {
            assert(b[i] == rest[i - 1]);
            let p = pow(128, (i - 1) as nat);
            vstd::arithmetic::power::lemma_pow_positive(128, (i - 1) as nat);
            assert(pow(128, i as nat) == 128 * p) by {
                reveal(pow);
            }
            vstd::arithmetic::div_mod::lemma_div_denominator(n as int, 128, p);
        }
    }
}

proof fn lemma_first(n: nat)
    ensures
        wire::varint(n).len() >= 1,
    decreases n,
{
    if n >= 128 {
        lemma_first(n / 128);
    }
}

/// What is written is read, whatever follows.
pub proof fn law_numbers_are_read_back(n: u64, rest: Seq<u8>)
    ensures
        wire::read_varint(wire::varint(n as nat) + rest) == Some(
            (n, wire::varint(n as nat).len()),
        ),
        1 <= wire::varint(n as nat).len() <= 10,
{
    wire::lemma_varint_round_trip(n, rest);
}

/// A number is read from the bytes up to the first one without the eighth bit, ten at most, as far
/// as it fits; each byte counts for 128 times the one before.
pub proof fn law_numbers_are_read_in_sevens(b: Seq<u8>)
    ensures
        b.len() == 0 ==> wire::read_varint(b) is None,
        b.len() > 0 && b[0] < 128 ==> wire::read_varint(b) == Some((b[0] as u64, 1nat)),
        b.len() > 0 && b[0] >= 128 ==> match wire::read_varint(b) {
            Some((value, n)) => {
                &&& wire::read_varint(b.drop_first()) is Some
                &&& n == (wire::read_varint(b.drop_first())->0).1 + 1
                &&& n <= 10
                &&& value == (b[0] - 128) + 128 * (wire::read_varint(b.drop_first())->0).0
            },
            None => match wire::read_varint(b.drop_first()) {
                Some((value, n)) => n == 10 || (b[0] - 128) + 128 * value > u64::MAX,
                None => true,
            },
        },
{
    if b.len() > 0 && b[0] >= 128 {
        let rest = b.drop_first();
        if wire::varint_size(rest) is Some {
            let v = wire::varint_value(rest);
            assert(wire::varint_value(b) == (b[0] - 128) as nat + 128 * v);
        }
    }
}

/// A key holds the number of a field and how it is written; it is refused where it is too large,
/// where that way is not known, or where the number is zero.
pub proof fn law_keys_are_read(b: Seq<u8>)
    ensures
        match wire::read_varint(b) {
            None => wire::read_key(b) == Err::<(u32, u8, nat), Text>("invalid varint"@),
            Some((key, n)) => match wire::read_key(b) {
                Ok((tag, way, size)) => {
                    &&& key == 8 * tag + way
                    &&& way <= 5
                    &&& tag >= 1
                    &&& size == n
                },
                Err(why) => {
                    ||| key > u32::MAX && why == "invalid key value: "@ + text::decimal(key as nat)
                    ||| key <= u32::MAX && key % 8 >= 6 && why == "invalid wire type value: "@
                        + text::decimal((key % 8) as nat)
                    ||| key < 8 && key % 8 <= 5 && why == "invalid tag value: 0"@
                },
            },
        },
{
}

/// The ways of writing a field, and which one a kind of field has.
pub proof fn law_ways_of_writing(way: u8)
    ensures
        wire::wire_name(0) == "Varint"@,
        wire::wire_name(1) == "SixtyFourBit"@,
        wire::wire_name(2) == "LengthDelimited"@,
        wire::wire_name(3) == "StartGroup"@,
        wire::wire_name(4) == "EndGroup"@,
        way >= 5 ==> wire::wire_name(way) == "ThirtyTwoBit"@,
        wire::wire_of(Kind::Number) == 0,
        wire::wire_of(Kind::Text) == 2,
        wire::wire_of(Kind::Bytes) == 2,
        wire::wire_of(Kind::Message) == 2,
{
}

/// What is told of a message that cannot be read: where it went wrong, and why.
pub proof fn law_faults_are_told(fault: FaultView, way: u8, expected: u8)
    ensures
        wire::undecodable(fault) == ErrorView::Protocol(
            "failed to decode Protobuf message: "@ + fault.path + fault.why,
        ),
        wire::mismatch(way, expected) == "invalid wire type: "@ + wire::wire_name(way)
            + " (expected "@ + wire::wire_name(expected) + ")"@,
{
}

/// A field with its key, its length and its content; left out where there is none.
pub open spec fn entry(key: u8, content: Seq<u8>) -> Seq<u8> {
    if content.len() == 0 {
        Seq::empty()
    } else {
        seq![key] + wire::varint(content.len()) + content
    }
}

/// A field with its key and its number; left out where that is zero.
pub open spec fn amount(key: u8, n: u64) -> Seq<u8> {
    if n == 0 {
        Seq::empty()
    } else {
        seq![key] + wire::varint(n as nat)
    }
}

proof fn lemma_entry(tag: u32, key: u8, content: Seq<u8>, n: u64)
    requires
        tag <= 15,
    ensures
        key == 8 * tag + 2 ==> wire::filled_field(tag, content) == entry(key, content)
            && wire::bytes_field(tag, content) == seq![key] + wire::varint(content.len()) + content,
        key == 8 * tag ==> wire::number_field(tag, n) == amount(key, n),
{
    assert(wire::varint((tag * 8) as nat) =~= seq![(tag * 8) as u8]);
    assert(wire::varint((tag * 8 + 2) as nat) =~= seq![(tag * 8 + 2) as u8]);
}

/// The layout of a record of a service: identity, name and protocol under the first three numbers.
pub proof fn law_layout_of_service_records(m: ServiceRecordView)
    ensures
        ServiceRecord::wire(m) == entry(10, encode_utf8(m.id)) + entry(18, encode_utf8(m.name))
            + entry(26, encode_utf8(m.protocol)),
{
    lemma_entry(1, 10, encode_utf8(m.id), 0);
    lemma_entry(2, 18, encode_utf8(m.name), 0);
    lemma_entry(3, 26, encode_utf8(m.protocol), 0);
}

/// The layout of what a grant claims: identity, holder, node, service, start and end under the
/// first six numbers.
pub proof fn law_layout_of_grant_claims(m: GrantClaimsView)
    ensures
        GrantClaims::wire(m) == entry(10, encode_utf8(m.id)) + entry(18, m.subject) + entry(
            26,
            m.audience,
        ) + entry(34, encode_utf8(m.service_id)) + amount(40, m.not_before) + amount(
            48,
            m.expires_at,
        ),
{
    lemma_entry(1, 10, encode_utf8(m.id), 0);
    lemma_entry(2, 18, m.subject, 0);
    lemma_entry(3, 26, m.audience, 0);
    lemma_entry(4, 34, encode_utf8(m.service_id), 0);
    lemma_entry(5, 40, Seq::empty(), m.not_before);
    lemma_entry(6, 48, Seq::empty(), m.expires_at);
}

/// The layout of a grant: claims, key and signature under the first three numbers.
pub proof fn law_layout_of_grants(m: GrantEnvelopeView)
    ensures
        GrantEnvelope::wire(m) == entry(10, m.claims) + entry(18, m.issuer_key) + entry(
            26,
            m.signature,
        ),
{
    lemma_entry(1, 10, m.claims, 0);
    lemma_entry(2, 18, m.issuer_key, 0);
    lemma_entry(3, 26, m.signature, 0);
}

/// The layout of the answer to a request for a session: its status under the first number.
pub proof fn law_layout_of_open_responses(m: OpenResponseView)
    requires
        m.status >= 0,
    ensures
        OpenResponse::wire(m) == amount(8, m.status as u64),
{
    lemma_entry(1, 8, Seq::empty(), m.status as u64);
}

/// The layout of a part of a message: content, number and the mark of the last one under the first
/// three numbers.
pub proof fn law_layout_of_parts(m: JsonFrameView)
    ensures
        JsonFrame::wire(m) == entry(10, m.json) + amount(16, m.sequence as u64) + amount(
            24,
            if m.last {
                1
            } else {
                0
            },
        ),
{
    lemma_entry(1, 10, m.json, 0);
    lemma_entry(2, 16, Seq::empty(), m.sequence as u64);
    lemma_entry(
        3,
        24,
        Seq::empty(),
        if m.last {
            1
        } else {
            0
        },
    );
}

/// The layout of a directory: its records one after the other, each under the first number with
/// its length, even where it is empty. The request for it is empty.
pub proof fn law_layout_of_directories(m: DirectoryResponseView, r: ServiceRecordView)
    ensures
        DirectoryResponse::wire(DirectoryResponseView { services: Seq::empty() }).len() == 0,
        DirectoryResponse::wire(DirectoryResponseView { services: m.services.push(r) })
            == DirectoryResponse::wire(m) + (seq![10u8] + wire::varint(ServiceRecord::wire(r).len())
            + ServiceRecord::wire(r)),
        DirectoryRequest::wire(DirectoryRequestView {  }).len() == 0,
{
    lemma_entry(1, 10, ServiceRecord::wire(r), 0);
    assert(m.services.push(r).drop_last() =~= m.services);
}

/// The layout of a request for a session: service, grant and credential under the first three
/// numbers, the grant even where it is empty.
pub proof fn law_layout_of_open_requests(m: OpenRequestView)
    ensures
        OpenRequest::wire(m) == entry(10, encode_utf8(m.service_id)) + (if m.grant is Some {
            seq![18u8] + wire::varint(GrantEnvelope::wire(m.grant->0).len()) + GrantEnvelope::wire(
                m.grant->0,
            )
        } else {
            Seq::<u8>::empty()
        }) + entry(26, m.student),
{
    lemma_entry(1, 10, encode_utf8(m.service_id), 0);
    lemma_entry(3, 26, m.student, 0);
    if m.grant is Some {
        lemma_entry(2, 18, GrantEnvelope::wire(m.grant->0), 0);
    }
}

/// Messages begin empty, whatever is read into them.
pub proof fn law_messages_begin_empty()
    ensures
        ServiceRecord::initial().id.len() == 0 && ServiceRecord::initial().name.len() == 0
            && ServiceRecord::initial().protocol.len() == 0,
        GrantClaims::initial().id.len() == 0 && GrantClaims::initial().subject.len() == 0
            && GrantClaims::initial().audience.len() == 0
            && GrantClaims::initial().service_id.len() == 0 && GrantClaims::initial().not_before
            == 0 && GrantClaims::initial().expires_at == 0,
        GrantEnvelope::initial().claims.len() == 0 && GrantEnvelope::initial().issuer_key.len()
            == 0 && GrantEnvelope::initial().signature.len() == 0,
        OpenResponse::initial().status == 0,
        JsonFrame::initial().json.len() == 0 && JsonFrame::initial().sequence == 0
            && !JsonFrame::initial().last,
        DirectoryResponse::initial().services.len() == 0,
        OpenRequest::initial().service_id.len() == 0 && OpenRequest::initial().grant is None
            && OpenRequest::initial().student.len() == 0,
{
}

/// No bytes are an empty message. A number is put into its field before the rest is read, a field
/// that is written in another way than its kind is refused, and so is a key that cannot be read.
pub proof fn law_fields_are_read_in_turn<M: Message>(
    m: M::V,
    b: Seq<u8>,
    left: int,
    inside: bool,
)
    requires
        left >= 0,
    ensures
        wire::decoded::<M>(Seq::empty()) == Ok::<M::V, FaultView>(M::initial()),
        left == 0 ==> wire::merged::<M>(m, b, left, inside) == Ok::<M::V, FaultView>(m),
        left > 0 ==> match wire::read_key(b) {
            Err(why) => wire::merged::<M>(m, b, left, inside) is Err && wire::merged::<M>(
                m,
                b,
                left,
                inside,
            )->Err_0.why == why,
            Ok((tag, way, k)) => {
                &&& M::kind(tag) is Some && way != wire::wire_of(M::kind(tag)->0) ==> wire::merged::<
                    M,
                >(m, b, left, inside) is Err
                &&& M::kind(tag) == Some(Kind::Number) && way == 0 ==> match wire::read_varint(
                    b.skip(k as int),
                ) {
                    None => wire::merged::<M>(m, b, left, inside) is Err,
                    Some((value, n)) => wire::merged::<M>(m, b, left, inside) == wire::merged::<M>(
                        M::put(m, tag, ItemView::Number(value)),
                        b.skip((k + n) as int),
                        left - k - n,
                        inside,
                    ),
                }
            },
        },
{
    wire::lemma_size_positive(b);
}

/// A frame says how long it is in four bytes, the highest first, and holds at most 65,536 bytes.
pub proof fn law_frames_begin_with_their_length(body: Seq<u8>)
    ensures
        match protocol::framed(body) {
            Ok(f) => {
                &&& body.len() <= 65_536
                &&& f.len() == 4 + body.len()
                &&& f.skip(4) == body
                &&& body.len() == ((f[0] * 256 + f[1]) * 256 + f[2]) * 256 + f[3]
            },
            Err(e) => body.len() > 65_536 && e == ErrorView::Protocol("frame too large"@),
        },
{
    if protocol::framed(body) is Ok {
        protocol::law_frames_are_read_back(body);
        let f = protocol::framed(body)->Ok_0;
        assert(f.take(4)[0] == f[0] && f.take(4)[1] == f[1] && f.take(4)[2] == f[2] && f.take(4)[3]
            == f[3]);
    }
}

/// Four bytes are read as the number that they are written for, the highest first.
pub proof fn law_lengths_are_read_highest_first(b: Seq<u8>)
    requires
        b.len() == 4,
    ensures
        protocol::be32_value(b) == ((b[0] * 256 + b[1]) * 256 + b[2]) * 256 + b[3],
{
}

/// A field with a length is read as far as that says: bytes as they are, text where it is UTF-8,
/// and a message into what is there already. Too great a length is refused.
pub proof fn law_contents_are_read<M: Message>(m: M::V, b: Seq<u8>, left: int, inside: bool)
    requires
        left > 0,
        wire::read_key(b) is Ok,
        ({
            let (tag, way, k) = wire::read_key(b)->Ok_0;
            M::kind(tag) is Some && !(M::kind(tag)->0 is Number) && way == 2
        }),
    ensures
        ({
            let (tag, way, k) = wire::read_key(b)->Ok_0;
            let rest = b.skip(k as int);
            let all = wire::merged::<M>(m, b, left, inside);
            match wire::read_varint(rest) {
                None => all is Err && all->Err_0.why == "invalid varint"@,
                Some((len, n)) => if len > rest.len() - n {
                    all is Err && all->Err_0.why == "buffer underflow"@
                } else {
                    let content = rest.subrange(n as int, n + len);
                    let after = rest.skip((n + len) as int);
                    let more = left - k - n - len;
                    match M::kind(tag)->0 {
                        Kind::Number => true,
                        Kind::Bytes => all == wire::merged::<M>(
                            M::put(m, tag, ItemView::Bytes(content)),
                            after,
                            more,
                            inside,
                        ),
                        Kind::Text => if valid_utf8(content) {
                            all == wire::merged::<M>(
                                M::put(m, tag, ItemView::Text(decode_utf8(content))),
                                after,
                                more,
                                inside,
                            )
                        } else {
                            all is Err && all->Err_0.why
                                == "invalid string value: data is not UTF-8 encoded"@
                        },
                        Kind::Message => match M::embed(m, tag, rest.skip(n as int), len as nat) {
                            Ok(next) => all == wire::merged::<M>(next, after, more, inside),
                            Err(f) => all is Err && all->Err_0.why == f.why,
                        },
                    }
                },
            }
        }),
{
    wire::lemma_size_positive(b);
    let (tag, way, k) = wire::read_key(b)->Ok_0;
    let rest = b.skip(k as int);
    wire::lemma_size_positive(rest);
    if wire::read_varint(rest) is Some {
        let (len, n) = wire::read_varint(rest)->0;
        if len <= rest.len() - n {
            assert(b.skip((k + (n + len)) as int) =~= rest.skip((n + len) as int));
        }
    }
}

/// A field that is not known is passed over, as far as it goes; the message stays as it is.
pub proof fn law_unknown_fields_are_passed_over<M: Message>(
    m: M::V,
    tag: u32,
    way: u8,
    b: Seq<u8>,
)
    requires
        M::kind(tag) is None,
    ensures
        match wire::field::<M>(m, tag, way, b, false) {
            Ok((next, n)) => next == m && outside::skipped(way, tag, b) is Ok && outside::skipped(
                way,
                tag,
                b,
            )->Ok_0 == n,
            Err(f) => {
                &&& f.path.len() == 0
                &&& outside::skipped(way, tag, b) is Err
                &&& f.why == outside::skipped(way, tag, b)->Err_0.skip(
                    "failed to decode Protobuf message: "@.len() as int,
                )
            },
        },
        wire::field::<M>(m, tag, way, b, true) matches Ok((next, n)) ==> next == m
            && wire::field::<M>(m, tag, way, b, false) == Ok::<(M::V, nat), FaultView>((m, n)),
{
}

/// A fault is told with the message and the field in which it was found.
pub proof fn law_faults_name_their_field<M: Message>(tag: u32, why: Text)
    ensures
        wire::fault_at::<M>(tag, why).path == M::title() + "."@ + M::label(tag) + ": "@,
        wire::fault_at::<M>(tag, why).why == why,
        wire::plain_fault(why).path.len() == 0,
        wire::plain_fault(why).why == why,
{
}

/// The names of messages and of their fields.
pub proof fn law_messages_and_fields_have_names()
    ensures
        DirectoryRequest::title() == "DirectoryRequest"@,
        ServiceRecord::title() == "ServiceRecord"@,
        ServiceRecord::label(1) == "id"@,
        ServiceRecord::label(2) == "name"@,
        ServiceRecord::label(3) == "protocol"@,
        GrantClaims::title() == "GrantClaims"@,
        GrantClaims::label(1) == "id"@,
        GrantClaims::label(2) == "subject"@,
        GrantClaims::label(3) == "audience"@,
        GrantClaims::label(4) == "service_id"@,
        GrantClaims::label(5) == "not_before"@,
        GrantClaims::label(6) == "expires_at"@,
        GrantEnvelope::title() == "GrantEnvelope"@,
        GrantEnvelope::label(1) == "claims"@,
        GrantEnvelope::label(2) == "issuer_key"@,
        GrantEnvelope::label(3) == "signature"@,
        OpenResponse::title() == "OpenResponse"@,
        OpenResponse::label(1) == "status"@,
        JsonFrame::title() == "JsonFrame"@,
        JsonFrame::label(1) == "json"@,
        JsonFrame::label(2) == "sequence"@,
        JsonFrame::label(3) == "last"@,
        DirectoryResponse::title() == "DirectoryResponse"@,
        DirectoryResponse::label(1) == "services"@,
        OpenRequest::title() == "OpenRequest"@,
        OpenRequest::label(1) == "service_id"@,
        OpenRequest::label(2) == "grant"@,
        OpenRequest::label(3) == "student"@,
{
}

/// The fields that messages have, by their numbers; all others are not known.
pub proof fn law_messages_have_their_fields(tag: u32)
    ensures
        DirectoryRequest::kind(tag) is None,
        ServiceRecord::kind(tag) == (if 1 <= tag <= 3 {
            Some(Kind::Text)
        } else {
            None
        }),
        GrantClaims::kind(tag) == (match tag {
            1 => Some(Kind::Text),
            2 => Some(Kind::Bytes),
            3 => Some(Kind::Bytes),
            4 => Some(Kind::Text),
            5 => Some(Kind::Number),
            6 => Some(Kind::Number),
            _ => None,
        }),
        GrantEnvelope::kind(tag) == (if 1 <= tag <= 3 {
            Some(Kind::Bytes)
        } else {
            None
        }),
        OpenResponse::kind(tag) == (if tag == 1 {
            Some(Kind::Number)
        } else {
            None
        }),
        JsonFrame::kind(tag) == (match tag {
            1 => Some(Kind::Bytes),
            2 => Some(Kind::Number),
            3 => Some(Kind::Number),
            _ => None,
        }),
        DirectoryResponse::kind(tag) == (if tag == 1 {
            Some(Kind::Message)
        } else {
            None
        }),
        OpenRequest::kind(tag) == (match tag {
            1 => Some(Kind::Text),
            2 => Some(Kind::Message),
            3 => Some(Kind::Bytes),
            _ => None,
        }),
{
}

} // verus!
