//! What voters say to each other.
use vstd::prelude::*;
use vstd::string::*;

use crate::chunks;
use crate::chunks::Assembly;
use crate::error::{Error, ErrorView, Result};
use crate::order::same_text;
use crate::protocol::JsonFrame;

verus! {

pub const PROTOCOL: &'static str = "/jlucraft/union/raft/1";

/// The longest message.
pub const MAX_RPC: usize = 2_097_152;

/// How much of a message one frame carries.
pub const PART_SIZE: usize = 60_000;

/// The frames of a message, which is given as JSON.
pub fn frames(json: &[u8], max: usize) -> (r: Result<Vec<JsonFrame>>)
    requires
        max <= u32::MAX,
    ensures
        match chunks::parts(json@, max as nat, PART_SIZE as nat) {
            Ok(list) => r is Ok && r->Ok_0.deep_view() == list,
            Err(e) => r is Err && r->Err_0@ == e,
        },
{
    chunks::split(json, max, PART_SIZE)
}

/// Takes the next frame of a message; whether the message is complete.
pub fn receive(assembly: &mut Assembly, frame: &JsonFrame, max: usize) -> (r: Result<bool>)
    requires
        max <= u32::MAX,
    ensures
        if chunks::continues(old(assembly)@, frame@, max as nat) {
            r == Ok::<bool, Error>(frame.last) && final(assembly)@ == chunks::extended(
                old(assembly)@,
                frame@,
            )
        } else {
            r is Err && r->Err_0@ == ErrorView::Denied && final(assembly)@ == old(assembly)@
        },
{
    match assembly.accept(frame, max) {
        Some(last) => Ok(last),
        None => Err(Error::Denied),
    }
}

/// A message that fits is read back by the voter that it is sent to.
pub proof fn law_messages_are_read_back(json: Seq<u8>, max: nat, n: nat)
    requires
        0 < json.len() <= max <= u32::MAX,
        n < chunks::part_count(json.len(), PART_SIZE as nat),
    ensures
        ({
            let list = chunks::parts(json, max, PART_SIZE as nat)->Ok_0;
            let a = chunks::assembled(list, n);
            let whole = chunks::assembled(list, n + 1);
            &&& chunks::continues(a, list[n as int], max)
            &&& whole == chunks::extended(a, list[n as int])
            &&& list[n as int].last == (n + 1 == list.len())
            &&& n + 1 == list.len() ==> whole.bytes == json
        }),
{
    chunks::law_parts_make_the_whole(json, max, PART_SIZE as nat, n);
    chunks::law_parts_make_the_whole(json, max, PART_SIZE as nat, n + 1);
}

/// Refuses a message for another cluster, or from one who is no voter.
pub fn check_envelope(cluster: &str, own: &str, accepted: bool) -> (r: Result<()>)
    ensures
        r is Ok <==> cluster@ == own@ && accepted,
        r matches Err(e) ==> e@ == ErrorView::Denied,
{
    if !same_text(cluster, own) || !accepted {
        return Err(Error::Denied);
    }
    Ok(())
}

/// Refuses entries and votes that a voter sends in the name of another one.
pub fn check_leader(leader: u64, sender: u64) -> (r: Result<()>)
    ensures
        r is Ok <==> leader == sender,
        r matches Err(e) ==> e@ == ErrorView::Denied,
{
    if leader != sender {
        return Err(Error::Denied);
    }
    Ok(())
}

/// Refuses a part of a snapshot that a voter sends in the name of another one, or that is too
/// long or too far on.
pub fn check_snapshot_part(leader: u64, sender: u64, offset: u64, len: usize) -> (r: Result<()>)
    ensures
        r is Ok <==> leader == sender && len <= 65_536 && offset + len <= 16_777_216,
        r matches Err(e) ==> e@ == ErrorView::Denied,
{
    if leader != sender || offset > 16_777_216 || len > 65_536 || offset + len as u64
        > 16_777_216 {
        return Err(Error::Denied);
    }
    Ok(())
}

} // verus!
