//! What can go wrong in the tunnel.
use vstd::prelude::*;

verus! {

/// A failure of the tunnel, other than one of input and output.
#[derive(Debug)]
pub enum Error {
    Handshake,
    Unauthorized,
    Protocol(String),
    EgressDenied(String),
}

/// An error with its text as a sequence of characters.
pub enum ErrorView {
    Handshake,
    Unauthorized,
    Protocol(Seq<char>),
    EgressDenied(Seq<char>),
}

impl View for Error {
    type V = ErrorView;

    open spec fn view(&self) -> ErrorView {
        match *self {
            Error::Handshake => ErrorView::Handshake,
            Error::Unauthorized => ErrorView::Unauthorized,
            Error::Protocol(m) => ErrorView::Protocol(m@),
            Error::EgressDenied(m) => ErrorView::EgressDenied(m@),
        }
    }
}

/// A result whose error is taken by its view.
pub open spec fn outcome<T>(r: Result<T, Error>) -> Result<T, ErrorView> {
    match r {
        Ok(v) => Ok(v),
        Err(e) => Err(e@),
    }
}

/// A protocol violation with the given text.
pub open spec fn violation(text: &str) -> ErrorView {
    ErrorView::Protocol(text@)
}

/// What is shown of an error.
pub open spec fn message(e: ErrorView) -> Seq<char> {
    match e {
        ErrorView::Handshake => "handshake failed"@,
        ErrorView::Unauthorized => "peer is not an authorized admin"@,
        ErrorView::Protocol(m) => "protocol violation: "@ + m,
        ErrorView::EgressDenied(m) => "destination not permitted: "@ + m,
    }
}

/// What is shown of an error says of which kind it is, and ends with its text where it has one.
pub proof fn what_is_shown_of_an_error(e: ErrorView)
    ensures
        e matches ErrorView::Protocol(m) ==> message(e) == "protocol violation: "@ + m,
        e matches ErrorView::EgressDenied(m) ==> message(e) == "destination not permitted: "@ + m,
        e is Handshake ==> message(e) == "handshake failed"@,
        e is Unauthorized ==> message(e) == "peer is not an authorized admin"@,
{
}

impl Error {
    /// A protocol violation with the given text.
    pub fn protocol(text: &str) -> (e: Error)
        ensures
            e@ == violation(text),
    {
        Error::Protocol(text.to_owned())
    }

    /// The text shown for this error.
    pub fn message(&self) -> (r: String)
        ensures
            r@ == message(self@),
    {
        match self {
            Error::Handshake => "handshake failed".to_owned(),
            Error::Unauthorized => "peer is not an authorized admin".to_owned(),
            Error::Protocol(m) => "protocol violation: ".to_owned().concat(m.as_str()),
            Error::EgressDenied(m) => "destination not permitted: ".to_owned().concat(m.as_str()),
        }
    }
}

} // verus!
