//! A bare channel to the relay: open or not, with no requests in flight.

use crate::error::{Error, ErrorView};
use crate::server::{refusal, refusal_text};
use vstd::prelude::*;

verus! {

/// A channel that is open or not.
#[derive(Debug)]
pub struct Websocket {
    open: bool,
}

impl View for Websocket {
    type V = bool;

    closed spec fn view(&self) -> bool {
        self.open
    }
}

impl Websocket {
    /// A channel that is not open.
    pub fn new() -> (socket: Self)
        ensures
            !socket@,
    {
        Websocket { open: false }
    }

    /// Ends a connection attempt to `url` with the outcome of the
    /// handshake. An accepted handshake opens the channel; a refused one is
    /// a connect error that names the address and what the transport said,
    /// and leaves the channel as it was.
    pub fn connect(&mut self, url: &str, outcome: Result<(), String>) -> (result: Result<
        (),
        Error,
    >)
        ensures
            result is Ok <==> outcome is Ok,
            result is Err ==> result->Err_0@ == ErrorView::Connect(
                refusal(url@, crate::server::handshake_view(outcome)),
            ),
            final(self)@ == (old(self)@ || outcome is Ok),
    {
        match outcome {
            Ok(()) => {
                self.open = true;
                Ok(())
            },
            Err(diagnostic) => Err(Error::Connect(refusal_text(url, Some(diagnostic.as_str())))),
        }
    }

    /// Closes the channel. A channel that is not open cannot be closed: that
    /// is a send error.
    pub fn disconnect(&mut self) -> (result: Result<(), Error>)
        ensures
            result is Ok <==> old(self)@,
            result is Err ==> result->Err_0@ == ErrorView::Send,
            !final(self)@,
    {
        if self.open {
            self.open = false;
            Ok(())
        } else {
            Err(Error::Send)
        }
    }
}

} // verus!
