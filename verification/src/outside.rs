//! The outside functions that this library relies on, each with what is believed of it.
use std::collections::BTreeMap;
use std::time::{SystemTime, UNIX_EPOCH};

use libp2p::identity::{Keypair, PublicKey};
use libp2p::multiaddr::Protocol;
use libp2p::{Multiaddr, PeerId};
use prost::encoding::{DecodeContext, WireType};
use sha2::{Digest, Sha256};
use uuid::Uuid;
use vstd::prelude::*;
use vstd::utf8::*;

use crate::collections::StrMap;
use crate::service;
use crate::wire;

verus! {

/// `String::push` appends the character to the end of the text.
pub assume_specification[ String::push ](s: &mut String, c: char)
    ensures
        final(s)@ == old(s)@.push(c),
;

/// The peer identity, as bytes, that a text names; `None` where the text names none.
pub uninterp spec fn peer_of_text(text: Seq<char>) -> Option<Seq<u8>>;

/// The bytes are the ones that `libp2p::PeerId::to_bytes` gives of a peer identity: their text
/// form names them. Other encodings of the same identity are read too, but no text names those.
pub open spec fn is_peer(bytes: Seq<u8>) -> bool {
    text_of_peer(bytes) matches Some(text) && peer_of_text(text) == Some(bytes)
}

/// The result of `<libp2p::PeerId as FromStr>::from_str`, as the bytes that
/// `PeerId::to_bytes` gives. It depends on the text alone. The text form that
/// `PeerId::to_base58` gives of these bytes is read back as them.
#[verifier::external_body]
pub(crate) fn parse_peer(text: &str) -> (r: Option<Vec<u8>>)
    ensures
        match r {
            Some(bytes) => peer_of_text(text@) == Some(bytes@) && is_peer(bytes@),
            None => peer_of_text(text@) is None,
        },
{
    match text.parse::<PeerId>() {
        Ok(peer) => Some(peer.to_bytes()),
        Err(_) => None,
    }
}

/// What a text says as a network address: `None` where it is no address, and otherwise
/// the peer identity, as bytes, that the last component of the address names, if it does.
pub uninterp spec fn target_of_address(text: Seq<char>) -> Option<Option<Seq<u8>>>;

/// The result of `<libp2p::Multiaddr as FromStr>::from_str`, and of the address only
/// whether `Multiaddr::iter` ends in `Protocol::P2p`, and with which peer, as the bytes that
/// `PeerId::to_bytes` gives. The text form of these bytes is read back as them.
#[verifier::external_body]
pub(crate) fn parse_address(text: &str) -> (r: Option<Option<Vec<u8>>>)
    ensures
        match r {
            None => target_of_address(text@) is None,
            Some(None) => target_of_address(text@) == Some(None::<Seq<u8>>),
            Some(Some(bytes)) => target_of_address(text@) == Some(Some(bytes@)) && is_peer(bytes@),
        },
{
    let address = match text.parse::<Multiaddr>() {
        Ok(address) => address,
        Err(_) => return None,
    };
    match address.iter().last() {
        Some(Protocol::P2p(peer)) => Some(Some(peer.to_bytes())),
        _ => Some(None),
    }
}

/// The SHA-256 digest of a byte string.
pub uninterp spec fn sha256(bytes: Seq<u8>) -> Seq<u8>;

/// `sha2::Sha256::digest`: a digest of 32 bytes that depends on the input alone.
#[verifier::external_body]
pub(crate) fn hash(bytes: &[u8]) -> (r: Vec<u8>)
    ensures
        r@ == sha256(bytes@),
        r@.len() == 32,
{
    Sha256::digest(bytes).to_vec()
}

/// The JSON text, as bytes, of a pair of score maps.
pub uninterp spec fn score_json(players: Map<Seq<char>, i64>, teams: Map<Seq<char>, i64>) -> Seq<u8>;

/// `serde_json::to_vec` on a pair of maps from text to numbers. Maps with text keys and
/// numbers always have a JSON form, and writing to memory does not fail.
#[verifier::external_body]
pub(crate) fn encode_scores(players: &StrMap<i64>, teams: &StrMap<i64>) -> (r: Result<Vec<u8>, String>)
    ensures
        r is Ok,
        r->Ok_0@ == score_json(players@, teams@),
{
    let plain = |map: &StrMap<i64>| -> BTreeMap<String, i64> {
        (0..map.len()).map(|i| (map.key(i).clone(), *map.value(i))).collect()
    };
    serde_json::to_vec(&(plain(players), plain(teams))).map_err(|e| e.to_string())
}

/// `prost::encoding::encode_varint` appends the number in groups of seven bits.
#[verifier::external_body]
pub(crate) fn encode_varint(value: u64, out: &mut Vec<u8>)
    ensures
        final(out)@ == old(out)@ + wire::varint(value as nat),
{
    prost::encoding::encode_varint(value, out)
}

/// `prost::encoding::decode_varint` reads a number of at most ten bytes that fits in 64 bits,
/// and otherwise fails. The second part of the result is how far it advanced.
#[verifier::external_body]
pub(crate) fn decode_varint(bytes: &[u8]) -> (r: Option<(u64, usize)>)
    ensures
        match r {
            Some((value, n)) => wire::read_varint(bytes@) == Some((value, n as nat)),
            None => wire::read_varint(bytes@) is None,
        },
{
    let mut rest = bytes;
    match prost::encoding::decode_varint(&mut rest) {
        Ok(value) => Some((value, bytes.len() - rest.len())),
        Err(_) => None,
    }
}

/// How many bytes a field of an unknown number takes, after its key, or the text of the error.
pub uninterp spec fn skipped(wire: u8, tag: u32, bytes: Seq<u8>) -> Result<nat, Seq<char>>;

/// `prost::encoding::skip_field` with a fresh `DecodeContext`, and how far it advanced, which
/// is never past the end. The wire type is one of the six that there are. The text of an error
/// begins as that of every `prost::DecodeError` does.
#[verifier::external_body]
pub(crate) fn skip_field(wire: u8, tag: u32, bytes: &[u8]) -> (r: Result<usize, String>)
    requires
        wire <= 5,
    ensures
        match r {
            Ok(n) => skipped(wire, tag, bytes@) == Ok::<nat, Seq<char>>(n as nat) && n
                <= bytes@.len(),
            Err(text) => skipped(wire, tag, bytes@) == Err::<nat, Seq<char>>(text@)
                && wire::preamble().is_prefix_of(text@),
        },
{
    let mut rest = bytes;
    let kind = WireType::try_from(wire as u64).map_err(|e| e.to_string())?;
    match prost::encoding::skip_field(kind, tag, &mut rest, DecodeContext::default()) {
        Ok(()) => Ok(bytes.len() - rest.len()),
        Err(e) => Err(e.to_string()),
    }
}

/// `std::str::from_utf8`: a byte string is a text exactly where it is valid UTF-8.
#[verifier::external_body]
pub(crate) fn utf8_text(bytes: &[u8]) -> (r: Option<String>)
    ensures
        match r {
            Some(text) => valid_utf8(bytes@) && text@ == decode_utf8(bytes@),
            None => !valid_utf8(bytes@),
        },
{
    match std::str::from_utf8(bytes) {
        Ok(text) => Some(text.to_owned()),
        Err(_) => None,
    }
}

/// The text form of a peer identity that is given as bytes; `None` where the bytes are none.
pub uninterp spec fn text_of_peer(bytes: Seq<u8>) -> Option<Seq<char>>;

/// `libp2p::PeerId::from_bytes`, then `PeerId::to_base58`.
#[verifier::external_body]
pub(crate) fn format_peer(bytes: &[u8]) -> (r: Option<String>)
    ensures
        match r {
            Some(text) => text_of_peer(bytes@) == Some(text@),
            None => text_of_peer(bytes@) is None,
        },
{
    match PeerId::from_bytes(bytes) {
        Ok(peer) => Some(peer.to_base58()),
        Err(_) => None,
    }
}

/// The canonical encoding of the private key that a byte string encodes, or the text of the
/// error.
pub uninterp spec fn parsed_secret(bytes: Seq<u8>) -> Result<Seq<u8>, Seq<char>>;

/// The byte string is the canonical encoding of a private key.
pub open spec fn is_secret(bytes: Seq<u8>) -> bool {
    parsed_secret(bytes) == Ok::<Seq<u8>, Seq<char>>(bytes)
}

/// `libp2p::identity::Keypair::from_protobuf_encoding`, then `Keypair::to_protobuf_encoding`.
/// With Ed25519 keys alone, the latter does not fail; an encoding has 68 bytes, and is read
/// back as the key that it came from. No encoding begins with a zero, which would be a field
/// without a number.
#[verifier::external_body]
pub(crate) fn parse_secret(bytes: &[u8]) -> (r: Result<Vec<u8>, String>)
    ensures
        bytes@.len() > 0 && bytes@[0] == 0 ==> r is Err,
        match r {
            Ok(secret) => parsed_secret(bytes@) == Ok::<Seq<u8>, Seq<char>>(secret@) && is_secret(
                secret@,
            ) && secret@.len() == 68,
            Err(text) => parsed_secret(bytes@) == Err::<Seq<u8>, Seq<char>>(text@),
        },
{
    let pair = Keypair::from_protobuf_encoding(bytes).map_err(|e| e.to_string())?;
    pair.to_protobuf_encoding().map_err(|e| e.to_string())
}

/// `libp2p::identity::Keypair::generate_ed25519`, then `Keypair::to_protobuf_encoding`, which
/// does not fail for such a key. The key is random; what is encoded is read back.
#[verifier::external_body]
pub(crate) fn generate_secret() -> (r: Vec<u8>)
    ensures
        is_secret(r@),
        r@.len() == 68,
{
    let pair = Keypair::generate_ed25519();
    pair.to_protobuf_encoding().unwrap_or_default()
}

/// The encoded public key that belongs to an encoded private key.
pub uninterp spec fn public_key(secret: Seq<u8>) -> Seq<u8>;

/// `libp2p::identity::Keypair::public`, then `PublicKey::encode_protobuf`. The encoding is one
/// that a peer identity can be taken from.
#[verifier::external_body]
pub(crate) fn public_of(secret: &[u8]) -> (r: Vec<u8>)
    requires
        is_secret(secret@),
    ensures
        r@ == public_key(secret@),
        peer_of_key(r@) is Some,
{
    match Keypair::from_protobuf_encoding(secret) {
        Ok(pair) => pair.public().encode_protobuf(),
        Err(_) => Vec::new(),
    }
}

/// The signature of a message with an encoded private key.
pub uninterp spec fn signature(secret: Seq<u8>, message: Seq<u8>) -> Seq<u8>;

/// `libp2p::identity::Keypair::sign`. An Ed25519 key always signs, and the same way each time;
/// the signature is valid for the public key.
#[verifier::external_body]
pub(crate) fn sign(secret: &[u8], message: &[u8]) -> (r: Result<Vec<u8>, String>)
    requires
        is_secret(secret@),
    ensures
        r is Ok,
        r->Ok_0@ == signature(secret@, message@),
        is_signature(public_key(secret@), message@, r->Ok_0@),
{
    let pair = Keypair::from_protobuf_encoding(secret).map_err(|e| e.to_string())?;
    pair.sign(message).map_err(|e| e.to_string())
}

/// The peer identity, as bytes, of an encoded public key; `None` where the bytes are no key.
pub uninterp spec fn peer_of_key(key: Seq<u8>) -> Option<Seq<u8>>;

/// `libp2p::identity::PublicKey::try_decode_protobuf`, then `PublicKey::to_peer_id` and
/// `PeerId::to_bytes`. The text form of these bytes is read back as them.
#[verifier::external_body]
pub(crate) fn key_peer(key: &[u8]) -> (r: Option<Vec<u8>>)
    ensures
        match r {
            Some(peer) => peer_of_key(key@) == Some(peer@) && is_peer(peer@),
            None => peer_of_key(key@) is None,
        },
{
    match PublicKey::try_decode_protobuf(key) {
        Ok(key) => Some(key.to_peer_id().to_bytes()),
        Err(_) => None,
    }
}

/// The signature of the message is valid for the encoded public key.
pub uninterp spec fn is_signature(key: Seq<u8>, message: Seq<u8>, signature: Seq<u8>) -> bool;

/// `libp2p::identity::PublicKey::try_decode_protobuf`, then `PublicKey::verify`. Bytes that are
/// no key have no valid signature.
#[verifier::external_body]
pub(crate) fn verify(key: &[u8], message: &[u8], signature: &[u8]) -> (r: bool)
    ensures
        r == is_signature(key@, message@, signature@),
{
    match PublicKey::try_decode_protobuf(key) {
        Ok(key) => key.verify(message, signature),
        Err(_) => false,
    }
}

/// `uuid::Uuid::new_v4`, then `Uuid::as_u128`: a random number in which the bits that mark a
/// random UUID are set. Nothing is said of the other bits.
#[verifier::external_body]
pub(crate) fn random_uuid() -> (r: u128)
    ensures
        service::marked_random(r),
{
    Uuid::new_v4().as_u128()
}

/// The number that a text gives as a UUID, or the text of the error.
pub uninterp spec fn uuid_of_text(text: Seq<char>) -> Result<u128, Seq<char>>;

/// `uuid::Uuid::parse_str`, then `Uuid::as_u128`.
#[verifier::external_body]
pub(crate) fn parse_uuid(text: &str) -> (r: Result<u128, String>)
    ensures
        match r {
            Ok(id) => uuid_of_text(text@) == Ok::<u128, Seq<char>>(id),
            Err(e) => uuid_of_text(text@) == Err::<u128, Seq<char>>(e@),
        },
{
    match Uuid::parse_str(text) {
        Ok(id) => Ok(id.as_u128()),
        Err(e) => Err(e.to_string()),
    }
}

/// `uuid::Uuid::from_u128`, then `Display`: 32 lower case hexadecimal digits, the most
/// significant one first, in groups of 8, 4, 4, 4 and 12 with hyphens in between. The text is
/// read back as the number.
#[verifier::external_body]
pub(crate) fn format_uuid(id: u128) -> (r: String)
    ensures
        r@ == service::uuid_text(id),
        uuid_of_text(r@) is Ok,
        uuid_of_text(r@)->Ok_0 == id,
{
    Uuid::from_u128(id).to_string()
}

/// `std::time::SystemTime::now`, then `duration_since` the epoch, in milliseconds. Of the time
/// nothing is said but what the longest `std::time::Duration` allows: its seconds are a `u64`.
/// Of a clock before the epoch the error is told twice, as `Display` and as `Debug` write it;
/// nothing is said of these texts.
#[verifier::external_body]
pub(crate) fn clock_millis() -> (r: Result<u128, (String, String)>)
    ensures
        r matches Ok(ms) ==> ms <= u64::MAX * 1000 + 999,
{
    match SystemTime::now().duration_since(UNIX_EPOCH) {
        Ok(elapsed) => Ok(elapsed.as_millis()),
        Err(e) => Err((e.to_string(), format!("{:?}", e))),
    }
}

} // verus!
