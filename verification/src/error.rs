//! What can go wrong, and how it is reported.
use vstd::prelude::*;
use vstd::string::*;

use crate::order::Duplicate;

verus! {

/// A failed operation.
#[derive(Debug)]
pub enum Error {
    /// A file or a stream failed.
    Io(String),
    /// A key is malformed.
    Identity(String),
    /// A message or a command breaks the rules of the protocol.
    Protocol(String),
    /// The network failed.
    Network(String),
    /// An operation took too long.
    Timeout,
    /// The node is no longer running.
    Stopped,
    /// The request is not authorized.
    Denied,
    /// What the request names does not exist.
    NotFound,
    /// A bound on resources is reached.
    Capacity,
}

/// What an error stands for.
pub enum ErrorView {
    Io(Seq<char>),
    Identity(Seq<char>),
    Protocol(Seq<char>),
    Network(Seq<char>),
    Timeout,
    Stopped,
    Denied,
    NotFound,
    Capacity,
}

/// The result of an operation of this library.
pub type Result<T> = std::result::Result<T, Error>;

/// The result of an operation, over what its value and its error stand for.
pub type Outcome<T> = std::result::Result<T, ErrorView>;

impl DeepView for Error {
    type V = ErrorView;

    open spec fn deep_view(&self) -> ErrorView {
        match self {
            Error::Io(text) => ErrorView::Io(text@),
            Error::Identity(text) => ErrorView::Identity(text@),
            Error::Protocol(text) => ErrorView::Protocol(text@),
            Error::Network(text) => ErrorView::Network(text@),
            Error::Timeout => ErrorView::Timeout,
            Error::Stopped => ErrorView::Stopped,
            Error::Denied => ErrorView::Denied,
            Error::NotFound => ErrorView::NotFound,
            Error::Capacity => ErrorView::Capacity,
        }
    }
}

impl View for Error {
    type V = ErrorView;

    open spec fn view(&self) -> ErrorView {
        self.deep_view()
    }
}

/// What a result stands for.
pub open spec fn outcome<T: DeepView>(r: Result<T>) -> Outcome<T::V> {
    match r {
        Ok(value) => Ok(value.deep_view()),
        Err(error) => Err(error.deep_view()),
    }
}

/// An operation that changes a value from `before` to `after` does what is expected of it. An
/// error leaves the value as it was.
pub open spec fn settles<T>(r: Result<()>, before: T, after: T, expected: Outcome<T>) -> bool {
    match expected {
        Ok(next) => r is Ok && after == next,
        Err(e) => r is Err && r->Err_0@ == e && after == before,
    }
}

/// An operation that changes a value to `after` does what is expected of it. After an error
/// the value is not to be used.
pub open spec fn agrees<T>(r: Result<()>, after: T, expected: Outcome<T>) -> bool {
    match expected {
        Ok(next) => r is Ok && after == next,
        Err(e) => r is Err && r->Err_0@ == e,
    }
}

/// A protocol error with the given text.
pub open spec fn invalid_view(message: Seq<char>) -> ErrorView {
    ErrorView::Protocol(message)
}

/// A protocol error with the given text.
pub fn invalid(message: &str) -> (r: Error)
    ensures
        r@ == invalid_view(message@),
{
    Error::Protocol(message.to_owned())
}

/// The text under which an error is reported to a peer.
pub open spec fn error_text(e: ErrorView) -> Seq<char> {
    match e {
        ErrorView::Io(text) => "I/O: "@ + text,
        ErrorView::Identity(text) => "invalid identity: "@ + text,
        ErrorView::Protocol(text) => "invalid protocol message: "@ + text,
        ErrorView::Network(text) => "network: "@ + text,
        ErrorView::Timeout => "operation timed out"@,
        ErrorView::Stopped => "node stopped"@,
        ErrorView::Denied => "access denied"@,
        ErrorView::NotFound => "service not found"@,
        ErrorView::Capacity => "resource limit reached"@,
    }
}

fn prefixed(prefix: &str, text: &str) -> (r: String)
    ensures
        r@ == prefix@ + text@,
{
    let mut r = prefix.to_owned();
    r.append(text);
    r
}

impl Error {
    /// The text under which the error is reported to a peer.
    pub fn message(&self) -> (r: String)
        ensures
            r@ == error_text(self@),
    {
        match self {
            Error::Io(text) => prefixed("I/O: ", text.as_str()),
            Error::Identity(text) => prefixed("invalid identity: ", text.as_str()),
            Error::Protocol(text) => prefixed("invalid protocol message: ", text.as_str()),
            Error::Network(text) => prefixed("network: ", text.as_str()),
            Error::Timeout => "operation timed out".to_owned(),
            Error::Stopped => "node stopped".to_owned(),
            Error::Denied => "access denied".to_owned(),
            Error::NotFound => "service not found".to_owned(),
            Error::Capacity => "resource limit reached".to_owned(),
        }
    }
}

impl Duplicate for Error {
    fn duplicate(&self) -> (r: Self) {
        match self {
            Error::Io(text) => Error::Io(text.clone()),
            Error::Identity(text) => Error::Identity(text.clone()),
            Error::Protocol(text) => Error::Protocol(text.clone()),
            Error::Network(text) => Error::Network(text.clone()),
            Error::Timeout => Error::Timeout,
            Error::Stopped => Error::Stopped,
            Error::Denied => Error::Denied,
            Error::NotFound => Error::NotFound,
            Error::Capacity => Error::Capacity,
        }
    }
}

} // verus!
