//! The connection to the relay: its states, and the table that matches each
//! completion frame to the request that waits for it.
//!
//! A `ServerConnection` holds no socket. It records what state the channel is
//! in and which keys have a request pending, and decides what each frame or
//! transport event means. Whoever owns the socket performs the handshake, the
//! writes and the reads, and tells the connection how they went.

use crate::command::{download, download_line, upload, upload_line, Invocation};
use crate::error::{Error, ErrorView};
use crate::frame::{
    completion_frame, encode_job, job_frame, law_completion_round_trip, parse_completion,
    parsed_completion,
};
use crate::text::has_space;
use crate::search::{lemma_position, lemma_position_bounds, lemma_without, position, without};
use vstd::prelude::*;
use vstd::string::*;

verus! {

/// The states of the channel.
#[derive(Clone, Copy, Debug, PartialEq, Eq, Structural)]
pub enum ConnectionState {
    Disconnected,
    Connecting,
    Connected,
}

/// One message read from the transport.
#[derive(Debug, PartialEq, Eq)]
pub enum Incoming {
    /// A text frame.
    Text(String),
    /// The peer closed the channel.
    Close,
    /// The transport failed or ended.
    Failure,
    /// A frame that carries no text: binary data, a ping, a pong.
    Other,
}

/// The mathematical value of an [`Incoming`].
pub enum IncomingView {
    Text(Seq<char>),
    Close,
    Failure,
    Other,
}

impl View for Incoming {
    type V = IncomingView;

    open spec fn view(&self) -> IncomingView {
        match self {
            Incoming::Text(t) => IncomingView::Text(t@),
            Incoming::Close => IncomingView::Close,
            Incoming::Failure => IncomingView::Failure,
            Incoming::Other => IncomingView::Other,
        }
    }
}

/// What became of one completion frame.
#[derive(Debug, PartialEq, Eq)]
pub enum Dispatch {
    /// The request for `key` was pending; it ended with `success` and is
    /// forgotten.
    Delivered { key: String, success: bool },
    /// The frame was well formed, but no request was pending for its key.
    /// The frame is dropped.
    Unknown { key: String, success: bool },
    /// The frame was not a completion frame. It is dropped.
    Malformed,
}

/// The mathematical value of a [`Dispatch`].
pub enum DispatchView {
    Delivered { key: Seq<char>, success: bool },
    Unknown { key: Seq<char>, success: bool },
    Malformed,
}

impl View for Dispatch {
    type V = DispatchView;

    open spec fn view(&self) -> DispatchView {
        match self {
            Dispatch::Delivered { key, success } => DispatchView::Delivered {
                key: key@,
                success: *success,
            },
            Dispatch::Unknown { key, success } => DispatchView::Unknown {
                key: key@,
                success: *success,
            },
            Dispatch::Malformed => DispatchView::Malformed,
        }
    }
}

/// What one turn of the receive loop did.
#[derive(Debug, PartialEq, Eq)]
pub enum Received {
    /// A completion reached the request that waited for it.
    Delivered { key: String, success: bool },
    /// The message was dropped; the loop goes on.
    Dropped,
    /// The loop ends. The requests in `cancelled` were still pending: each of
    /// them ends as a failure.
    Stopped { cancelled: Vec<String> },
}

/// The mathematical value of a [`Received`].
pub enum ReceivedView {
    Delivered { key: Seq<char>, success: bool },
    Dropped,
    Stopped { cancelled: Seq<Seq<char>> },
}

impl View for Received {
    type V = ReceivedView;

    open spec fn view(&self) -> ReceivedView {
        match self {
            Received::Delivered { key, success } => ReceivedView::Delivered {
                key: key@,
                success: *success,
            },
            Received::Dropped => ReceivedView::Dropped,
            Received::Stopped { cancelled } => ReceivedView::Stopped {
                cancelled: cancelled.deep_view(),
            },
        }
    }
}

/// The mathematical value of a [`ServerConnection`]: the state of the channel
/// and the keys with a request pending, oldest first.
pub struct ServerConnectionView {
    pub state: ConnectionState,
    pub waiters: Seq<Seq<char>>,
}

/// Whether a connection takes a build request for `key`: the channel is up,
/// the key holds no space, and no request for it is pending.
pub open spec fn accepts(conn: ServerConnectionView, key: Seq<char>) -> bool {
    conn.state == ConnectionState::Connected && !key.contains(' ') && !conn.waiters.contains(key)
}

/// What dispatching `frame` does to the table `waiters`: the table afterwards
/// and what became of the frame.
pub open spec fn dispatched(waiters: Seq<Seq<char>>, frame: Seq<char>) -> (
    Seq<Seq<char>>,
    DispatchView,
) {
    match parsed_completion(frame) {
        None => (waiters, DispatchView::Malformed),
        Some((key, success)) => if waiters.contains(key) {
            (without(waiters, key), DispatchView::Delivered { key, success })
        } else {
            (waiters, DispatchView::Unknown { key, success })
        },
    }
}

/// What one message does to a connection: the connection afterwards and what
/// the receive loop does next. Only a connected channel reads; on a close or
/// a failure it goes down and every pending request is cancelled.
pub open spec fn received(conn: ServerConnectionView, message: IncomingView) -> (
    ServerConnectionView,
    ReceivedView,
) {
    if conn.state != ConnectionState::Connected {
        (conn, ReceivedView::Stopped { cancelled: Seq::empty() })
    } else {
        match message {
            IncomingView::Text(frame) => match dispatched(conn.waiters, frame).1 {
                DispatchView::Delivered { key, success } => (
                    ServerConnectionView { waiters: dispatched(conn.waiters, frame).0, ..conn },
                    ReceivedView::Delivered { key, success },
                ),
                _ => (conn, ReceivedView::Dropped),
            },
            IncomingView::Other => (conn, ReceivedView::Dropped),
            _ => (
                ServerConnectionView {
                    state: ConnectionState::Disconnected,
                    waiters: Seq::empty(),
                },
                ReceivedView::Stopped { cancelled: conn.waiters },
            ),
        }
    }
}

/// Whether `frame` is a completion frame for `key`.
pub open spec fn completes(frame: Seq<char>, key: Seq<char>) -> bool {
    parsed_completion(frame) == Some((key, true)) || parsed_completion(frame) == Some(
        (key, false),
    )
}

/// The completions that a run of frames delivers, in order: each frame is
/// dispatched on the table that the frames before it left.
pub open spec fn deliveries(waiters: Seq<Seq<char>>, frames: Seq<Seq<char>>) -> Seq<
    (Seq<char>, bool),
>
    decreases frames.len(),
{
    if frames.len() == 0 {
        Seq::empty()
    } else {
        let rest = deliveries(dispatched(waiters, frames[0]).0, frames.drop_first());
        match dispatched(waiters, frames[0]).1 {
            DispatchView::Delivered { key, success } => seq![(key, success)] + rest,
            _ => rest,
        }
    }
}

/// A completion frame resolves the request whose key it names and no other:
/// that request ends with the frame's flag and is pending no more, every
/// other request stays pending, and a second frame for the key is dropped.
pub proof fn law_dispatch_exact(
    waiters: Seq<Seq<char>>,
    frame: Seq<char>,
    key: Seq<char>,
    success: bool,
)
    requires
        waiters.no_duplicates(),
        parsed_completion(frame) == Some((key, success)),
        waiters.contains(key),
    ensures
        dispatched(waiters, frame).1 == (DispatchView::Delivered { key, success }),
        !dispatched(waiters, frame).0.contains(key),
        dispatched(waiters, frame).0.no_duplicates(),
        forall|other: Seq<char>|
            other != key ==> (dispatched(waiters, frame).0.contains(other) <==> waiters.contains(
                other,
            )),
        dispatched(dispatched(waiters, frame).0, frame).1 == (DispatchView::Unknown {
            key,
            success,
        }),
        dispatched(dispatched(waiters, frame).0, frame).0 == dispatched(waiters, frame).0,
{
    lemma_without(waiters, key);
}

/// Whatever a frame holds, dispatching it keeps the table free of
/// duplicates and adds no key to it.
pub proof fn lemma_dispatch_keeps(waiters: Seq<Seq<char>>, frame: Seq<char>)
    requires
        waiters.no_duplicates(),
    ensures
        dispatched(waiters, frame).0.no_duplicates(),
        forall|k: Seq<char>| dispatched(waiters, frame).0.contains(k) ==> waiters.contains(k),
{
    match parsed_completion(frame) {
        None => {},
        Some((key, success)) => {
            lemma_without(waiters, key);
        },
    }
}

/// Every completion that a run of frames delivers is for a key that was
/// pending before the run.
pub proof fn lemma_deliveries_were_pending(waiters: Seq<Seq<char>>, frames: Seq<Seq<char>>)
    requires
        waiters.no_duplicates(),
    ensures
        forall|i: int|
            0 <= i < deliveries(waiters, frames).len() ==> waiters.contains(
                #[trigger] deliveries(waiters, frames)[i].0,
            ),
    decreases frames.len(),
{
    if frames.len() > 0 {
        let next = dispatched(waiters, frames[0]).0;
        lemma_dispatch_keeps(waiters, frames[0]);
        lemma_deliveries_were_pending(next, frames.drop_first());
        let rest = deliveries(next, frames.drop_first());
        assert forall|i: int| 0 <= i < deliveries(waiters, frames).len() implies waiters.contains(
            #[trigger] deliveries(waiters, frames)[i].0,
        ) by {
            match dispatched(waiters, frames[0]).1 {
                DispatchView::Delivered { key, success } => {
                    if i > 0 {
                        assert(deliveries(waiters, frames)[i] == rest[i - 1]);
                        assert(next.contains(rest[i - 1].0));
                    }
                },
                _ => {
                    assert(next.contains(rest[i].0));
                },
            }
        }
    }
}

/// Correlation is exact. Whatever frames arrive and in whatever order, no
/// key is delivered twice; and where a frame is a completion for a key that
/// is pending, that key is delivered.
pub proof fn law_one_delivery_per_key(waiters: Seq<Seq<char>>, frames: Seq<Seq<char>>)
    requires
        waiters.no_duplicates(),
    ensures
        forall|i: int, j: int|
            0 <= i < j < deliveries(waiters, frames).len() ==> (#[trigger] deliveries(
                waiters,
                frames,
            )[i]).0 != (#[trigger] deliveries(waiters, frames)[j]).0,
        forall|n: int, key: Seq<char>|
            0 <= n < frames.len() && waiters.contains(key) && #[trigger] completes(frames[n], key)
                ==> exists|i: int|
                0 <= i < deliveries(waiters, frames).len() && (#[trigger] deliveries(
                    waiters,
                    frames,
                )[i]).0 == key,
    decreases frames.len(),
{
    if frames.len() > 0 {
        let all = deliveries(waiters, frames);
        let next = dispatched(waiters, frames[0]).0;
        let tail = frames.drop_first();
        let rest = deliveries(next, tail);
        lemma_dispatch_keeps(waiters, frames[0]);
        law_one_delivery_per_key(next, tail);
        lemma_deliveries_were_pending(next, tail);
        assert forall|i: int, j: int| 0 <= i < j < all.len() implies (#[trigger] all[i]).0 != (
        #[trigger] all[j]).0 by {
            match dispatched(waiters, frames[0]).1 {
                DispatchView::Delivered { key, success } => {
                    lemma_without(waiters, key);
                    assert(all[j] == rest[j - 1]);
                    if i == 0 {
                        assert(next.contains(rest[j - 1].0));
                    } else {
                        assert(all[i] == rest[i - 1]);
                    }
                },
                _ => {},
            }
        }
        assert forall|n: int, key: Seq<char>|
            0 <= n < frames.len() && waiters.contains(key) && #[trigger] completes(
                frames[n],
                key,
            ) implies exists|i: int| 0 <= i < all.len() && (#[trigger] all[i]).0 == key by {
            if completes(frames[0], key) {
                assert(all[0].0 == key);
            } else {
                assert(n > 0);
                assert(tail[n - 1] == frames[n]);
                match parsed_completion(frames[0]) {
                    Some((k0, s0)) => {
                        lemma_without(waiters, k0);
                    },
                    None => {},
                }
                assert(next.contains(key));
                assert(completes(tail[n - 1], key));
                let i = choose|i: int| 0 <= i < rest.len() && (#[trigger] rest[i]).0 == key;
                match dispatched(waiters, frames[0]).1 {
                    DispatchView::Delivered { key: k0, success } => {
                        assert(all[i + 1] == rest[i]);
                    },
                    _ => {
                        assert(all[i] == rest[i]);
                    },
                }
            }
        }
    }
}

/// A channel that is not up reads nothing: whatever message is handed to it,
/// the table of pending requests and the state stay as they are. So once
/// `disconnect` has returned, no late frame touches the table.
pub proof fn law_nothing_read_when_down(conn: ServerConnectionView, message: IncomingView)
    requires
        conn.state != ConnectionState::Connected,
    ensures
        received(conn, message).0 == conn,
        received(conn, message).1 == (ReceivedView::Stopped { cancelled: Seq::empty() }),
{
}

/// The value of how a handshake ended: well, or in failure with what the
/// transport said.
pub open spec fn handshake_view(outcome: Result<(), String>) -> Result<(), Seq<char>> {
    match outcome {
        Ok(()) => Ok(()),
        Err(diagnostic) => Err(diagnostic@),
    }
}

/// The message of a connect error: `Failed to connect to server <url>: `
/// and what the transport said of the handshake, or, where no handshake
/// failed, that no connection attempt was under way.
pub open spec fn refusal(url: Seq<char>, outcome: Result<(), Seq<char>>) -> Seq<char> {
    "Failed to connect to server "@ + url + ": "@ + (match outcome {
        Err(diagnostic) => diagnostic,
        Ok(()) => "no connection attempt is under way"@,
    })
}

/// The text of `refusal`, for a handshake that failed with `diagnostic` or
/// for none that failed.
pub fn refusal_text(url: &str, diagnostic: Option<&str>) -> (text: String)
    ensures
        text@ == refusal(
            url@,
            match diagnostic {
                Some(d) => Err::<(), Seq<char>>(d@),
                None => Ok::<(), Seq<char>>(()),
            },
        ),
{
    let mut text = String::from_str("Failed to connect to server ");
    text.append(url);
    text.append(": ");
    match diagnostic {
        Some(d) => text.append(d),
        None => text.append("no connection attempt is under way"),
    }
    text
}

/// Every pending request can be answered: where no pending key holds a
/// space, the completion frame written for a pending key, with either flag,
/// is delivered to that key.
pub proof fn law_pending_can_be_delivered(waiters: Seq<Seq<char>>, key: Seq<char>, success: bool)
    requires
        waiters.contains(key),
        !key.contains(' '),
    ensures
        dispatched(waiters, completion_frame(key, success)).1 == (DispatchView::Delivered {
            key,
            success,
        }),
{
    law_completion_round_trip(key, success);
}

/// The index of `key` in `keys`, or the length of `keys` where it is not
/// among them.
pub fn find_key(keys: &Vec<String>, key: &str) -> (at: usize)
    ensures
        at == position(keys.deep_view(), key@),
        at <= keys.len(),
{
    let wanted = String::from_str(key);
    let mut at: usize = 0;
    while at < keys.len()
        invariant
            at <= keys.len(),
            wanted@ == key@,
            forall|j: int| 0 <= j < at ==> keys.deep_view()[j] != key@,
        decreases keys.len() - at,
    {
        if keys[at] == wanted {
            proof {
                lemma_position(keys.deep_view(), key@, at as int);
            }
            return at;
        }
        at += 1;
    }
    proof {
        lemma_position(keys.deep_view(), key@, at as int);
    }
    at
}

/// The connection to the relay.
#[derive(Debug)]
pub struct ServerConnection {
    state: ConnectionState,
    waiters: Vec<String>,
}

impl View for ServerConnection {
    type V = ServerConnectionView;

    closed spec fn view(&self) -> ServerConnectionView {
        ServerConnectionView { state: self.state, waiters: self.waiters.deep_view() }
    }
}

impl ServerConnection {
    /// The invariant of the table: no key has two requests pending at once,
    /// and no pending key holds a space. `new` establishes it and every
    /// method keeps it.
    pub closed spec fn wf(&self) -> bool {
        &&& self.waiters.deep_view().no_duplicates()
        &&& forall|w: int|
            0 <= w < self.waiters.deep_view().len() ==> !(
            #[trigger] self.waiters.deep_view()[w]).contains(' ')
    }

    /// In a well-formed connection no key is pending twice, and every
    /// pending key can be named by a completion frame.
    pub proof fn law_waiters_distinct(&self)
        requires
            self.wf(),
        ensures
            self@.waiters.no_duplicates(),
            forall|w: int|
                0 <= w < self@.waiters.len() ==> !(#[trigger] self@.waiters[w]).contains(' '),
    {
    }

    /// A connection that is down, with no request pending.
    pub fn new() -> (conn: Self)
        ensures
            conn@.state == ConnectionState::Disconnected,
            conn@.waiters.len() == 0,
            conn.wf(),
    {
        ServerConnection { state: ConnectionState::Disconnected, waiters: Vec::new() }
    }

    /// The state of the channel.
    pub fn state(&self) -> (state: ConnectionState)
        ensures
            state == self@.state,
    {
        self.state
    }

    /// How many requests are pending.
    pub fn pending(&self) -> (n: usize)
        ensures
            n == self@.waiters.len(),
    {
        self.waiters.len()
    }

    /// Whether a request for `key` is pending.
    pub fn is_pending(&self, key: &str) -> (pending: bool)
        ensures
            pending == self@.waiters.contains(key@),
    {
        proof {
            lemma_position_bounds(self.waiters.deep_view(), key@);
        }
        find_key(&self.waiters, key) < self.waiters.len()
    }

    /// Begins a connection attempt. A channel that is up goes down first: the
    /// requests that were pending are cancelled and returned, each to end as
    /// a failure. The channel is then connecting, with nothing pending.
    pub fn connect(&mut self) -> (cancelled: Vec<String>)
        requires
            old(self).wf(),
        ensures
            final(self)@.state == ConnectionState::Connecting,
            final(self)@.waiters.len() == 0,
            cancelled.deep_view() == old(self)@.waiters,
            final(self).wf(),
    {
        let cancelled = self.clear();
        self.state = ConnectionState::Connecting;
        cancelled
    }

    /// Ends a connection attempt to `url` with the outcome of the
    /// handshake. An accepted handshake brings a connecting channel up; a
    /// refused one takes it down and is a connect error that names the
    /// address and what the transport said. On a channel that was not
    /// connecting nothing changes, and that is a connect error too.
    pub fn handshake_done(&mut self, url: &str, outcome: Result<(), String>) -> (result: Result<
        (),
        Error,
    >)
        requires
            old(self).wf(),
        ensures
            final(self)@.waiters == old(self)@.waiters,
            final(self).wf(),
            final(self)@.state == (if old(self)@.state != ConnectionState::Connecting {
                old(self)@.state
            } else if outcome is Ok {
                ConnectionState::Connected
            } else {
                ConnectionState::Disconnected
            }),
            result is Ok <==> old(self)@.state == ConnectionState::Connecting && outcome is Ok,
            result is Err ==> result->Err_0@ == ErrorView::Connect(
                refusal(url@, handshake_view(outcome)),
            ),
    {
        match self.state {
            ConnectionState::Connecting => match outcome {
                Ok(()) => {
                    self.state = ConnectionState::Connected;
                    Ok(())
                },
                Err(diagnostic) => {
                    self.state = ConnectionState::Disconnected;
                    Err(Error::Connect(refusal_text(url, Some(diagnostic.as_str()))))
                },
            },
            _ => match outcome {
                Ok(()) => Err(Error::Connect(refusal_text(url, None))),
                Err(diagnostic) => Err(
                    Error::Connect(refusal_text(url, Some(diagnostic.as_str()))),
                ),
            },
        }
    }

    /// Takes the channel down. The requests that were pending are cancelled
    /// and returned, each to end as a failure; none stays pending.
    pub fn disconnect(&mut self) -> (cancelled: Vec<String>)
        requires
            old(self).wf(),
        ensures
            final(self)@.state == ConnectionState::Disconnected,
            final(self)@.waiters.len() == 0,
            cancelled.deep_view() == old(self)@.waiters,
            final(self).wf(),
    {
        let cancelled = self.clear();
        self.state = ConnectionState::Disconnected;
        cancelled
    }

    /// Whether a frame may be written: a send error unless the channel is up.
    pub fn send(&self) -> (result: Result<(), Error>)
        ensures
            result is Ok <==> self@.state == ConnectionState::Connected,
            result is Err ==> result->Err_0@ == ErrorView::Send,
    {
        match self.state {
            ConnectionState::Connected => Ok(()),
            _ => Err(Error::Send),
        }
    }

    /// Records that a request for `key` is pending. A key that holds a
    /// space could never be answered, since a space ends the key in a
    /// completion frame: it is a protocol error. A key that already has a
    /// request pending is a duplicate-key error. On an error the table
    /// stays as it was.
    pub fn register(&mut self, key: String) -> (result: Result<(), Error>)
        requires
            old(self).wf(),
        ensures
            final(self)@.state == old(self)@.state,
            final(self).wf(),
            result is Ok <==> !key@.contains(' ') && !old(self)@.waiters.contains(key@),
            result is Ok ==> final(self)@.waiters == old(self)@.waiters.push(key@),
            result is Err ==> final(self)@ == old(self)@,
            result is Err ==> result->Err_0@ == (if key@.contains(' ') {
                ErrorView::Protocol
            } else {
                ErrorView::DuplicateKey
            }),
    {
        proof {
            lemma_position_bounds(self.waiters.deep_view(), key@);
        }
        if has_space(key.as_str()) {
            return Err(Error::Protocol);
        }
        if find_key(&self.waiters, key.as_str()) < self.waiters.len() {
            return Err(Error::DuplicateKey);
        }
        let ghost before = self.waiters.deep_view();
        let ghost added = key@;
        self.waiters.push(key);
        proof {
            let after = before.push(added);
            assert(self.waiters.deep_view() =~= after);
            assert forall|i: int, j: int|
                0 <= i < after.len() && 0 <= j < after.len() && i != j implies after[i]
                != after[j] by {
                if i < before.len() {
                    assert(before.contains(before[i]));
                }
                if j < before.len() {
                    assert(before.contains(before[j]));
                }
            }
            assert forall|w: int| 0 <= w < after.len() implies !(#[trigger] after[w]).contains(
                ' ',
            ) by {
                if w < before.len() {
                    assert(after[w] == before[w]);
                }
            }
        }
        Ok(())
    }

    /// Withdraws the request for `key`, for a frame that could not be
    /// written. Says whether one was pending.
    pub fn abandon(&mut self, key: &str) -> (was_pending: bool)
        requires
            old(self).wf(),
        ensures
            final(self)@.state == old(self)@.state,
            final(self).wf(),
            was_pending == old(self)@.waiters.contains(key@),
            final(self)@.waiters == without(old(self)@.waiters, key@),
    {
        proof {
            lemma_position_bounds(self.waiters.deep_view(), key@);
            lemma_without(self.waiters.deep_view(), key@);
        }
        let at = find_key(&self.waiters, key);
        if at < self.waiters.len() {
            let ghost before = self.waiters.deep_view();
            self.waiters.remove(at);
            proof {
                let after = before.remove(at as int);
                assert(self.waiters.deep_view() =~= after);
                assert forall|w: int| 0 <= w < after.len() implies !(
                #[trigger] after[w]).contains(' ') by {
                    assert(after[w] == before[if w < at { w } else { w + 1 }]);
                }
            }
            true
        } else {
            false
        }
    }

    /// Submits a build job: records that a request for `derivation_name` is
    /// pending and returns the frame to write, which carries
    /// `derivation_raw` byte for byte. A send error unless the channel is up;
    /// a protocol error for a key that holds a space; a duplicate-key error
    /// where the key already has a request pending. On an error nothing
    /// changes.
    pub fn send_build_request(
        &mut self,
        derivation_name: String,
        derivation_raw: &Vec<u8>,
    ) -> (result: Result<Vec<u8>, Error>)
        requires
            old(self).wf(),
        ensures
            final(self)@.state == old(self)@.state,
            final(self).wf(),
            result is Ok <==> accepts(old(self)@, derivation_name@),
            result is Ok ==> final(self)@.waiters == old(self)@.waiters.push(derivation_name@)
                && result->Ok_0@ == job_frame(derivation_name@, derivation_raw@),
            result is Err ==> final(self)@ == old(self)@,
            result is Err ==> result->Err_0@ == (if old(self)@.state
                != ConnectionState::Connected {
                ErrorView::Send
            } else if derivation_name@.contains(' ') {
                ErrorView::Protocol
            } else {
                ErrorView::DuplicateKey
            }),
    {
        match self.send() {
            Err(e) => {
                return Err(e);
            },
            Ok(()) => {},
        }
        let frame = encode_job(derivation_name.as_str(), derivation_raw);
        match self.register(derivation_name) {
            Err(e) => Err(e),
            Ok(()) => Ok(frame),
        }
    }

    /// Hands one completion frame to the request that waits for it. The
    /// request whose key the frame names ends with the frame's flag and is
    /// forgotten; every other request stays pending. A frame for a key
    /// without a pending request, or a frame that is no completion, is
    /// dropped and changes nothing.
    pub fn dispatch(&mut self, raw_message: &str) -> (outcome: Dispatch)
        requires
            old(self).wf(),
        ensures
            final(self)@.state == old(self)@.state,
            final(self).wf(),
            final(self)@.waiters == dispatched(old(self)@.waiters, raw_message@).0,
            outcome@ == dispatched(old(self)@.waiters, raw_message@).1,
    {
        match parse_completion(raw_message) {
            Err(_) => Dispatch::Malformed,
            Ok((key, success)) => {
                if self.abandon(key.as_str()) {
                    Dispatch::Delivered { key, success }
                } else {
                    proof {
                        lemma_without(old(self)@.waiters, key@);
                    }
                    Dispatch::Unknown { key, success }
                }
            },
        }
    }

    /// Drops every pending request and returns their keys: each of them ends
    /// as a failure.
    pub fn clear(&mut self) -> (cancelled: Vec<String>)
        requires
            old(self).wf(),
        ensures
            final(self)@.state == old(self)@.state,
            final(self)@.waiters.len() == 0,
            cancelled.deep_view() == old(self)@.waiters,
            final(self).wf(),
    {
        let mut cancelled: Vec<String> = Vec::new();
        let ghost before = self.waiters.deep_view();
        cancelled.append(&mut self.waiters);
        assert(cancelled.deep_view() =~= before);
        assert(self.waiters.deep_view() =~= Seq::<Seq<char>>::empty());
        cancelled
    }

    /// One turn of the receive loop. On a text frame the completion is
    /// dispatched. On a close or a transport failure the channel goes down,
    /// the loop ends and every pending request is cancelled. Any other
    /// message is dropped. A channel that is not up reads nothing: the loop
    /// ends.
    pub fn websocket_receiver(&mut self, message: Incoming) -> (outcome: Received)
        requires
            old(self).wf(),
        ensures
            final(self).wf(),
            final(self)@ == received(old(self)@, message@).0,
            outcome@ == received(old(self)@, message@).1,
    {
        match self.state {
            ConnectionState::Connected => {},
            _ => {
                let cancelled: Vec<String> = Vec::new();
                assert(cancelled.deep_view() =~= Seq::<Seq<char>>::empty());
                return Received::Stopped { cancelled };
            },
        }
        match message {
            Incoming::Text(frame) => match self.dispatch(frame.as_str()) {
                Dispatch::Delivered { key, success } => Received::Delivered { key, success },
                _ => Received::Dropped,
            },
            Incoming::Other => Received::Dropped,
            _ => {
                let cancelled = self.disconnect();
                assert(self@.waiters =~= Seq::<Seq<char>>::empty());
                Received::Stopped { cancelled }
            },
        }
    }

    /// The command that copies `derivation` from the cache at `cache_url`.
    pub fn download_derivation(cache_url: &str, derivation: &str) -> (invocation: Invocation)
        ensures
            invocation@ == download_line(cache_url@, derivation@),
    {
        download(cache_url, derivation)
    }

    /// The command that copies `derivation` to the cache at `cache_url`.
    pub fn upload_derivation(cache_url: &str, derivation: &str) -> (invocation: Invocation)
        ensures
            invocation@ == upload_line(cache_url@, derivation@),
    {
        upload(cache_url, derivation)
    }
}

} // verus!
