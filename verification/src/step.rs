//! What the client is told and what it asks for: the events that the outside
//! world reports and the actions that it is asked to perform.

use crate::error::{Error, ErrorView};
use crate::model::{Derivation, DerivationView};
use crate::server::{Incoming, IncomingView};
use vstd::prelude::*;

verus! {

/// Something that happened outside and that the client must react to.
#[derive(Debug, PartialEq, Eq)]
pub enum Event {
    /// The resolver answered for `target`: the identity key and the node, or
    /// why there is none.
    Resolved { target: String, result: Result<(String, Derivation), Error> },
    /// The handshake with the relay ended: well, or in failure with what the
    /// transport said.
    Connected { outcome: Result<(), String> },
    /// The pause before the next connection attempt is over.
    BackoffElapsed,
    /// The local store said whether the primary output of `key` exists.
    LocalChecked { key: String, exists: bool },
    /// A copy of `key` to the remote cache ended.
    Uploaded { key: String, ok: bool },
    /// A copy of `key` from the remote cache ended.
    Pulled { key: String, ok: bool },
    /// The transport rejected the build request for `key`.
    SendFailed { key: String },
    /// The receive loop read a message.
    Message(Incoming),
    /// The local store ended the build of `key`; on failure with what it
    /// printed.
    Realized { key: String, outcome: Result<(), String> },
    /// The transport is closed and its receive loop has ended.
    Disconnected,
    /// The command that was launched has ended.
    Exited,
}

/// Work that the client asks for.
#[derive(Debug, PartialEq, Eq)]
pub enum Action {
    /// Ask the resolver for `target`.
    Resolve { target: String },
    /// Perform the handshake with the relay at `url`.
    Connect { url: String },
    /// Pause for `seconds` before the next connection attempt.
    Wait { seconds: u64 },
    /// Ask the local store whether `path`, the primary output of `key`,
    /// exists.
    CheckLocal { key: String, path: String },
    /// Copy `key` to the remote cache. A failure is not fatal.
    Upload { key: String },
    /// Copy `key` from the remote cache.
    Pull { key: String },
    /// Write `frame`, the build request for `key`, to the relay.
    Send { key: String, frame: Vec<u8> },
    /// Build `key` in the local store.
    Realize { key: String },
    /// Close the transport and wait for its receive loop to end.
    Disconnect,
    /// Run the command that the invocation was made for.
    Launch,
}

/// The mathematical value of an [`Event`].
pub enum EventView {
    Resolved { target: Seq<char>, result: Result<(Seq<char>, DerivationView), ErrorView> },
    Connected { outcome: Result<(), Seq<char>> },
    BackoffElapsed,
    LocalChecked { key: Seq<char>, exists: bool },
    Uploaded { key: Seq<char>, ok: bool },
    Pulled { key: Seq<char>, ok: bool },
    SendFailed { key: Seq<char> },
    Message(IncomingView),
    Realized { key: Seq<char>, outcome: Result<(), Seq<char>> },
    Disconnected,
    Exited,
}

/// The mathematical value of an [`Action`].
pub enum ActionView {
    Resolve { target: Seq<char> },
    Connect { url: Seq<char> },
    Wait { seconds: u64 },
    CheckLocal { key: Seq<char>, path: Seq<char> },
    Upload { key: Seq<char> },
    Pull { key: Seq<char> },
    Send { key: Seq<char>, frame: Seq<u8> },
    Realize { key: Seq<char> },
    Disconnect,
    Launch,
}

impl View for Event {
    type V = EventView;

    open spec fn view(&self) -> EventView {
        match self {
            Event::Resolved { target, result } => EventView::Resolved {
                target: target@,
                result: match result {
                    Ok((key, node)) => Ok((key@, node@)),
                    Err(e) => Err(e@),
                },
            },
            Event::Connected { outcome } => EventView::Connected {
                outcome: match outcome {
                    Ok(()) => Ok(()),
                    Err(text) => Err(text@),
                },
            },
            Event::BackoffElapsed => EventView::BackoffElapsed,
            Event::LocalChecked { key, exists } => EventView::LocalChecked {
                key: key@,
                exists: *exists,
            },
            Event::Uploaded { key, ok } => EventView::Uploaded { key: key@, ok: *ok },
            Event::Pulled { key, ok } => EventView::Pulled { key: key@, ok: *ok },
            Event::SendFailed { key } => EventView::SendFailed { key: key@ },
            Event::Message(m) => EventView::Message(m@),
            Event::Realized { key, outcome } => EventView::Realized {
                key: key@,
                outcome: match outcome {
                    Ok(()) => Ok(()),
                    Err(text) => Err(text@),
                },
            },
            Event::Disconnected => EventView::Disconnected,
            Event::Exited => EventView::Exited,
        }
    }
}

impl View for Action {
    type V = ActionView;

    open spec fn view(&self) -> ActionView {
        match self {
            Action::Resolve { target } => ActionView::Resolve { target: target@ },
            Action::Connect { url } => ActionView::Connect { url: url@ },
            Action::Wait { seconds } => ActionView::Wait { seconds: *seconds },
            Action::CheckLocal { key, path } => ActionView::CheckLocal { key: key@, path: path@ },
            Action::Upload { key } => ActionView::Upload { key: key@ },
            Action::Pull { key } => ActionView::Pull { key: key@ },
            Action::Send { key, frame } => ActionView::Send { key: key@, frame: frame@ },
            Action::Realize { key } => ActionView::Realize { key: key@ },
            Action::Disconnect => ActionView::Disconnect,
            Action::Launch => ActionView::Launch,
        }
    }
}

/// The values of a list of actions, in order.
pub open spec fn actions_view(actions: Seq<Action>) -> Seq<ActionView> {
    Seq::new(actions.len(), |i: int| actions[i]@)
}

} // verus!
