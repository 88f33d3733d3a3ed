//! Notices of new states. The states themselves are asked for apart; a notice only tells that
//! what was seen before is out of date.
use vstd::prelude::*;
use vstd::string::*;

use crate::error;
use crate::error::{invalid, Error, ErrorView, Result};
use crate::model::views::Text;
use crate::order::Duplicate;
use crate::protocol::JsonFrame;

verus! {

pub const PROTOCOL: &'static str = "/jlucraft/union/events/1";

/// Notice of a new state.
#[derive(Debug, PartialEq, Eq)]
pub struct Event {
    pub revision: u64,
    pub state_hash: String,
    pub resync: bool,
}

/// What a [`Event`] stands for.
#[verifier::ext_equal]
pub struct EventView {
    pub revision: u64,
    pub state_hash: Text,
    pub resync: bool,
}

impl DeepView for Event {
    type V = EventView;

    open spec fn deep_view(&self) -> EventView {
        EventView {
            revision: self.revision,
            state_hash: self.state_hash@,
            resync: self.resync,
        }
    }
}

impl View for Event {
    type V = EventView;

    open spec fn view(&self) -> EventView {
        self.deep_view()
    }
}

impl Duplicate for Event {
    fn duplicate(&self) -> (r: Self) {
        Event {
            revision: self.revision,
            state_hash: self.state_hash.clone(),
            resync: self.resync,
        }
    }
}

impl Clone for Event {
    fn clone(&self) -> (r: Self)
        ensures
            r@ == self@,
    {
        self.duplicate()
    }
}


/// What a peer asks that wants to be told of new states.
#[derive(Clone, Copy, Debug, PartialEq, Eq, Structural)]
pub struct Subscribe {
    pub after_revision: u64,
}

/// A notice tells the subscriber to ask for the whole state: at first, and where the revision is
/// not the one last told nor the next one.
pub open spec fn needs_resync(first: bool, last: u64, revision: u64) -> bool {
    first || revision < last || revision > last + 1
}

/// What a subscriber has been told.
#[derive(Clone, Copy, Debug, PartialEq, Eq, Structural)]
pub struct Subscription {
    pub last: u64,
    pub first: bool,
}

impl Subscription {
    /// A subscriber that has been told nothing yet.
    pub fn new(request: Subscribe) -> (r: Self)
        ensures
            r == (Subscription { last: request.after_revision, first: true }),
    {
        Subscription { last: request.after_revision, first: true }
    }

    /// The notice for this subscriber of what has happened.
    pub fn notice(&mut self, event: &Event) -> (r: Event)
        ensures
            r@ == (EventView {
                resync: needs_resync(old(self).first, old(self).last, event.revision),
                ..event@
            }),
            *final(self) == (Subscription { last: event.revision, first: false }),
            r@.revision == event@.revision,
            r@.state_hash == event@.state_hash,
            r@.resync <==> old(self).first || !(event.revision == old(self).last || event.revision
                == old(self).last + 1),
            final(self).last == event.revision,
            !final(self).first,
    {
        let resync = self.first || event.revision > self.last.saturating_add(1) || event.revision
            < self.last;
        let revision: u64 = event.revision;
        self.last = revision;
        self.first = false;
        Event { revision, state_hash: event.state_hash.clone(), resync }
    }
}

/// The notices that a subscriber gets of the given events.
pub open spec fn notices(s: Subscription, events: Seq<EventView>, i: int) -> EventView {
    EventView {
        resync: if i == 0 {
            needs_resync(s.first, s.last, events[0].revision)
        } else {
            needs_resync(false, events[i - 1].revision, events[i].revision)
        },
        ..events[i]
    }
}

/// A subscriber that is not told to ask for the whole state has missed no revision: the notice is
/// of the revision last told or of the next one.
pub proof fn law_no_revision_is_missed(s: Subscription, events: Seq<EventView>, i: int)
    requires
        0 <= i < events.len(),
        !notices(s, events, i).resync,
    ensures
        ({
            let told = if i == 0 {
                s.last
            } else {
                events[i - 1].revision
            };
            told <= events[i].revision <= told + 1
        }),
        i == 0 ==> !s.first,
{
}

/// The JSON of a notice, which must be one frame.
pub fn event_body(frame: JsonFrame) -> (r: Result<Vec<u8>>)
    ensures
        match r {
            Ok(json) => frame.sequence == 0 && frame.last && json@ == frame@.json,
            Err(e) => !(frame.sequence == 0 && frame.last) && e@ == error::invalid_view(
                "invalid event frame"@,
            ),
        },
{
    if frame.sequence != 0 || !frame.last {
        return Err(invalid("invalid event frame"));
    }
    Ok(frame.json)
}

/// The JSON of a subscription, which must be one frame.
pub fn subscription_body(frame: JsonFrame) -> (r: Result<Vec<u8>>)
    ensures
        match r {
            Ok(json) => frame.sequence == 0 && frame.last && json@ == frame@.json,
            Err(e) => !(frame.sequence == 0 && frame.last) && e@ == ErrorView::Denied,
        },
{
    if frame.sequence != 0 || !frame.last {
        return Err(Error::Denied);
    }
    Ok(frame.json)
}

} // verus!
