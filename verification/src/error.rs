//! The kinds of failure that the protocol distinguishes.

use vstd::prelude::*;

verus! {

/// A failure of one step of the protocol.
#[derive(Debug, PartialEq, Eq)]
pub enum Error {
    /// The derivation resolver failed, or its output did not have the
    /// expected shape. Carries the message to show.
    Resolution(String),
    /// The transport handshake with the relay failed. Carries the message to
    /// show: the address and what the transport said.
    Connect(String),
    /// A frame was written on a channel that is not connected, or the
    /// transport rejected the write.
    Send,
    /// The local store could not realize a derivation. Carries the
    /// diagnostic text that the store printed.
    LocalBuild(String),
    /// An artifact could not be copied to or from the remote cache.
    Transfer,
    /// A key was registered while a request for it was still pending.
    DuplicateKey,
    /// An inbound frame did not have the form that the wire protocol gives it.
    Protocol,
}

/// The mathematical value of an [`Error`].
pub enum ErrorView {
    Resolution(Seq<char>),
    Connect(Seq<char>),
    Send,
    LocalBuild(Seq<char>),
    Transfer,
    DuplicateKey,
    Protocol,
}

impl View for Error {
    type V = ErrorView;

    open spec fn view(&self) -> ErrorView {
        match self {
            Error::Resolution(m) => ErrorView::Resolution(m@),
            Error::Connect(m) => ErrorView::Connect(m@),
            Error::Send => ErrorView::Send,
            Error::LocalBuild(d) => ErrorView::LocalBuild(d@),
            Error::Transfer => ErrorView::Transfer,
            Error::DuplicateKey => ErrorView::DuplicateKey,
            Error::Protocol => ErrorView::Protocol,
        }
    }
}

/// The text shown for each kind of failure that carries none of its own.
pub open spec fn fixed_message(e: ErrorView) -> Seq<char> {
    match e {
        ErrorView::Resolution(m) => m,
        ErrorView::Connect(m) => m,
        ErrorView::Send => "failed to send a frame to the relay"@,
        ErrorView::LocalBuild(d) => d,
        ErrorView::Transfer => "failed to transfer an artifact"@,
        ErrorView::DuplicateKey => "a request for this derivation is already pending"@,
        ErrorView::Protocol => "malformed frame"@,
    }
}

impl Error {
    /// The text to show for this failure: the captured diagnostic where the
    /// failure carries one, a fixed sentence otherwise.
    pub fn message(&self) -> (text: String)
        ensures
            text@ == fixed_message(self@),
    {
        match self {
            Error::Resolution(m) => m.clone(),
            Error::Connect(m) => m.clone(),
            Error::Send => "failed to send a frame to the relay".to_owned(),
            Error::LocalBuild(d) => d.clone(),
            Error::Transfer => "failed to transfer an artifact".to_owned(),
            Error::DuplicateKey => "a request for this derivation is already pending".to_owned(),
            Error::Protocol => "malformed frame".to_owned(),
        }
    }
}

} // verus!
