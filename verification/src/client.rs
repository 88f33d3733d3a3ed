//! What applications ask of the federation. Their identity stays where they keep it.
use vstd::prelude::*;
use vstd::string::*;

use crate::error;
use crate::error::{invalid, Error, ErrorView, Outcome, Result};
use crate::governance::Action;
use crate::identity::PeerId;
use crate::model::views::{ActionView, Text};
use crate::order::Duplicate;
use crate::outside;

verus! {

/// What an application asks for: the state, or that a command is carried out.
#[derive(Debug, PartialEq, Eq)]
pub struct Input {
    pub address: String,
    pub peer: String,
    pub revision: Option<u64>,
    pub action: Option<Action>,
}

/// What a [`Input`] stands for.
#[verifier::ext_equal]
pub struct InputView {
    pub address: Text,
    pub peer: Text,
    pub revision: Option<u64>,
    pub action: Option<ActionView>,
}

impl DeepView for Input {
    type V = InputView;

    open spec fn deep_view(&self) -> InputView {
        InputView {
            address: self.address@,
            peer: self.peer@,
            revision: self.revision,
            action: self.action.deep_view(),
        }
    }
}

impl View for Input {
    type V = InputView;

    open spec fn view(&self) -> InputView {
        self.deep_view()
    }
}

impl Duplicate for Input {
    fn duplicate(&self) -> (r: Self) {
        Input {
            address: self.address.clone(),
            peer: self.peer.clone(),
            revision: self.revision,
            action: self.action.duplicate(),
        }
    }
}

impl Clone for Input {
    fn clone(&self) -> (r: Self)
        ensures
            r@ == self@,
    {
        self.duplicate()
    }
}


/// Whom an input is for, and the command in it with the revision that it is made on. The address
/// must lead to the peer.
pub open spec fn checked(input: InputView) -> Outcome<(Seq<u8>, Option<(u64, ActionView)>)> {
    let peer = outside::peer_of_text(input.peer);
    let target = outside::target_of_address(input.address);
    if peer is None {
        Err(ErrorView::Protocol("invalid peer"@))
    } else if target is None {
        Err(ErrorView::Protocol("invalid address"@))
    } else if target != Some(peer) {
        Err(ErrorView::Denied)
    } else {
        match input.action {
            None => Ok((peer->0, None)),
            Some(action) => match input.revision {
                None => Err(ErrorView::Protocol("revision required"@)),
                Some(revision) => Ok((peer->0, Some((revision, action)))),
            },
        }
    }
}

impl Input {
    /// Whom the input is for, and the command in it with the revision that it is made on.
    pub fn check(self) -> (r: Result<(PeerId, Option<(u64, Action)>)>)
        ensures
            match checked(self@) {
                Ok((peer, None)) => r is Ok && (r->Ok_0).0@ == peer && (r->Ok_0).1 is None,
                Ok((peer, Some((revision, action)))) => r is Ok && (r->Ok_0).0@ == peer && (
                r->Ok_0).1 is Some && ((r->Ok_0).1->0).0 == revision && ((r->Ok_0).1->0).1@
                    == action,
                Err(e) => r is Err && r->Err_0@ == e,
            },
    {
        let peer = match PeerId::parse(self.peer.as_str()) {
            Some(peer) => peer,
            None => {
                return Err(invalid("invalid peer"));
            },
        };
        match PeerId::of_address(self.address.as_str()) {
            None => {
                return Err(invalid("invalid address"));
            },
            Some(None) => {
                return Err(Error::Denied);
            },
            Some(Some(target)) => {
                if !target.same(&peer) {
                    return Err(Error::Denied);
                }
            },
        }
        match self.action {
            None => Ok((peer, None)),
            Some(action) => match self.revision {
                None => Err(invalid("revision required")),
                Some(revision) => Ok((peer, Some((revision, action)))),
            },
        }
    }
}

} // verus!
