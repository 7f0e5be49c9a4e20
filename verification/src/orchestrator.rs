//! The build of one dependency graph, as a state machine.
//!
//! Every node of the graph is a task that passes through phases. A node is
//! first looked for in the local store, then in the remote cache. Where it is
//! in neither, its dependencies that are not yet in the node set are started
//! as tasks of their own, and the node waits until every one of its
//! dependencies has ended, whoever started it. Once all of them are done the
//! node's build is requested from the relay; where one of them has failed the
//! node fails, but only after the others have run to their end. A build that
//! the relay reports as failed, that cannot be handed to the relay, or whose
//! connection is lost, is made locally.
//!
//! This module states what each event does to that state, as functions on
//! mathematical values, and proves what holds in every state that a run can
//! reach.

use crate::cli::CommandsView;
use crate::config::{client_channel_url, ConfigView};
use crate::error::ErrorView;
use crate::frame::job_frame;
use crate::model::DerivationView;
use crate::search::position;
use crate::search::without;
use crate::server::{
    accepts, received, refusal, ConnectionState, IncomingView, ReceivedView,
    ServerConnectionView,
};
use crate::step::{ActionView, EventView};
use vstd::prelude::*;

verus! {

/// How many times the handshake with the relay is tried before the run fails.
pub const CONNECT_ATTEMPTS: u8 = 3;

/// The pause between two connection attempts, in seconds.
pub const BACKOFF_SECONDS: u64 = 2;

/// Where the task of one node stands.
#[derive(Clone, Copy, Debug, PartialEq, Eq, Structural)]
pub enum Phase {
    /// In neither store, and holding until the relay is reached: the root,
    /// before its dependencies are claimed.
    Queued,
    /// Claimed by a dependent; the resolver has been asked for it.
    Resolving,
    /// The local store has been asked whether the primary output exists.
    CheckingLocal,
    /// Present locally; a copy to the remote cache is under way.
    UploadingLocal,
    /// Absent locally; a copy from the remote cache is under way.
    CheckingRemote,
    /// It waits until every one of its dependencies has ended.
    WaitingDependencies,
    /// Its build was requested from the relay; the outcome is awaited.
    AwaitingRemote,
    /// The remote build failed or could not be asked for; the local store
    /// is building it.
    BuildingLocally,
    /// Built locally; a copy to the remote cache is under way.
    UploadingBuilt,
    /// Built remotely; a copy from the remote cache is under way.
    Fetching,
    /// Ended well.
    Done,
    /// Ended in failure.
    Failed,
}

/// Where one invocation of the client stands.
#[derive(Clone, Copy, Debug, PartialEq, Eq, Structural)]
pub enum Stage {
    /// Nothing was done yet.
    Idle,
    /// The resolver has been asked for the reference that the user gave.
    ResolvingRoot,
    /// The root is in neither store and the relay is being reached: a
    /// handshake is under way, or the pause before the next one.
    Connecting,
    /// The graph is being built.
    Building,
    /// The root is done; the channel is being closed.
    Disconnecting,
    /// The command that the invocation was made for is running.
    Launching,
    /// Ended well.
    Finished,
    /// Ended in failure.
    Failed,
}

/// The mathematical value of one entry of the node set.
pub struct NodeView {
    pub key: Seq<char>,
    /// The node as the resolver gave it; none while it is being resolved.
    pub derivation: Option<DerivationView>,
    pub phase: Phase,
    /// A build request for this node has been handed to the relay.
    pub requested: bool,
    /// A local build of this node has been started.
    pub built_locally: bool,
}

/// The mathematical value of a client: the stage of the invocation, the node
/// set in the order in which the nodes entered it (the root first), and the
/// connection.
pub struct ClientView {
    pub config: ConfigView,
    pub command: CommandsView,
    pub stage: Stage,
    pub nodes: Seq<NodeView>,
    pub server: ServerConnectionView,
    /// The first failure of the run: what the invocation fails with once
    /// the failure has reached the root.
    pub failure: Option<ErrorView>,
    /// How many handshakes may still be tried.
    pub attempts_left: u8,
}

/// The message of the failure of a resolver answer that does not describe
/// the node that was asked for: another key, no output named `out`, or an
/// input or an output listed twice.
pub open spec fn shape_message() -> Seq<char> {
    "the resolver's answer does not describe the requested derivation"@
}

/// The keys of the nodes, in order.
pub open spec fn keys(nodes: Seq<NodeView>) -> Seq<Seq<char>> {
    Seq::new(nodes.len(), |i: int| nodes[i].key)
}

/// The index of the node with this key, or the number of nodes where there is
/// none.
pub open spec fn index_of(nodes: Seq<NodeView>, key: Seq<char>) -> int {
    position(keys(nodes), key)
}

/// The client before anything was done.
pub open spec fn initial(config: ConfigView, command: CommandsView) -> ClientView {
    ClientView {
        config,
        command,
        stage: Stage::Idle,
        nodes: Seq::empty(),
        server: ServerConnectionView {
            state: ConnectionState::Disconnected,
            waiters: Seq::empty(),
        },
        failure: None,
        attempts_left: CONNECT_ATTEMPTS,
    }
}

/// Nothing changes and nothing is asked for.
pub open spec fn idle(c: ClientView) -> (ClientView, Seq<ActionView>) {
    (c, Seq::empty())
}

/// Whether a task in this phase has ended.
pub open spec fn ended(phase: Phase) -> bool {
    phase == Phase::Done || phase == Phase::Failed
}

/// The node at `i` moved to `phase`.
pub open spec fn with_phase(nodes: Seq<NodeView>, i: int, phase: Phase) -> Seq<NodeView> {
    nodes.update(i, NodeView { phase, ..nodes[i] })
}

/// The node at `i` with what was observed of it: whether it is in the local
/// store and whether it is in the remote cache. An observation is never
/// taken back.
pub open spec fn with_flags(nodes: Seq<NodeView>, i: int, local: bool, remote: bool) -> Seq<
    NodeView,
> {
    match nodes[i].derivation {
        Some(d) => nodes.update(
            i,
            NodeView {
                derivation: Some(
                    DerivationView {
                        is_local: d.is_local || local,
                        is_on_server: d.is_on_server || remote,
                        ..d
                    },
                ),
                ..nodes[i]
            },
        ),
        None => nodes,
    }
}

/// The dependencies of the node at `i`.
pub open spec fn deps_of(nodes: Seq<NodeView>, i: int) -> Seq<Seq<char>> {
    nodes[i].derivation->0.dependencies()
}

/// The dependency `key` is in the node set and its task is done.
pub open spec fn done(nodes: Seq<NodeView>, key: Seq<char>) -> bool {
    index_of(nodes, key) < nodes.len() && nodes[index_of(nodes, key)].phase == Phase::Done
}

/// The dependency `key` is in the node set and its task has ended, well or
/// in failure.
pub open spec fn over(nodes: Seq<NodeView>, key: Seq<char>) -> bool {
    index_of(nodes, key) < nodes.len() && ended(nodes[index_of(nodes, key)].phase)
}

/// Every dependency of the node at `i` is done, whichever node started its
/// task.
pub open spec fn all_done(nodes: Seq<NodeView>, i: int) -> bool {
    forall|d: int| 0 <= d < deps_of(nodes, i).len() ==> done(nodes, #[trigger] deps_of(nodes, i)[d])
}

/// Every dependency of the node at `i` has ended.
pub open spec fn all_over(nodes: Seq<NodeView>, i: int) -> bool {
    forall|d: int| 0 <= d < deps_of(nodes, i).len() ==> over(nodes, #[trigger] deps_of(nodes, i)[d])
}

/// The node at `i` waits for its dependencies and all of them have ended:
/// it is time to decide what becomes of it.
pub open spec fn ripe(nodes: Seq<NodeView>, i: int) -> bool {
    nodes[i].phase == Phase::WaitingDependencies && all_over(nodes, i)
}

/// The index of the first ripe node from `from` on, or the number of nodes
/// where there is none.
pub open spec fn first_ripe(nodes: Seq<NodeView>, from: int) -> int
    decreases nodes.len() - from,
{
    if from < 0 || from >= nodes.len() {
        nodes.len() as int
    } else if ripe(nodes, from) {
        from
    } else {
        first_ripe(nodes, from + 1)
    }
}

/// `error` is kept as the failure of the run, unless an earlier one is.
pub open spec fn recorded(failure: Option<ErrorView>, error: ErrorView) -> Option<ErrorView> {
    if failure is Some {
        failure
    } else {
        Some(error)
    }
}

/// The node at `i` is built in the local store: the fallback for a remote
/// build that failed or could not be asked for.
pub open spec fn fall_back(c: ClientView, i: int) -> (ClientView, Seq<ActionView>) {
    (
        ClientView {
            nodes: c.nodes.update(
                i,
                NodeView { phase: Phase::BuildingLocally, built_locally: true, ..c.nodes[i] },
            ),
            ..c
        },
        seq![ActionView::Realize { key: c.nodes[i].key }],
    )
}

/// The build of the node at `i` is requested from the relay: a request for
/// its key is recorded as pending and the frame with its payload is to be
/// written. Where the connection does not take the request (the channel is
/// not up, the key holds a space, or a request for the key is pending) the
/// node is built locally instead.
pub open spec fn submit(c: ClientView, i: int) -> (ClientView, Seq<ActionView>) {
    let key = c.nodes[i].key;
    if accepts(c.server, key) {
        (
            ClientView {
                nodes: c.nodes.update(
                    i,
                    NodeView { phase: Phase::AwaitingRemote, requested: true, ..c.nodes[i] },
                ),
                server: ServerConnectionView { waiters: c.server.waiters.push(key), ..c.server },
                ..c
            },
            seq![
                ActionView::Send {
                    key,
                    frame: job_frame(key, c.nodes[i].derivation->0.derivation_binary),
                },
            ],
        )
    } else {
        fall_back(c, i)
    }
}

/// The node at `i` has failed. The failure of the root is the failure of
/// the invocation.
pub open spec fn failed(c: ClientView, i: int) -> ClientView {
    ClientView {
        nodes: with_phase(c.nodes, i, Phase::Failed),
        stage: if i == 0 {
            Stage::Failed
        } else {
            c.stage
        },
        ..c
    }
}

/// What becomes of the ripe node at `i`: with every dependency done its
/// build is requested; with a dependency that failed it fails.
pub open spec fn examine(c: ClientView, i: int) -> (ClientView, Seq<ActionView>) {
    if all_done(c.nodes, i) {
        submit(c, i)
    } else {
        (failed(c, i), Seq::empty())
    }
}

/// Ripe nodes are examined, the first one first, until none is left, the
/// invocation has failed, or `rounds` of them were examined. A node that
/// fails may make its dependents ripe in turn.
pub open spec fn sweep(c: ClientView, rounds: nat) -> (ClientView, Seq<ActionView>)
    decreases rounds,
{
    if rounds == 0 || c.stage != Stage::Building || first_ripe(c.nodes, 0) >= c.nodes.len() {
        idle(c)
    } else {
        let one = examine(c, first_ripe(c.nodes, 0));
        let rest = sweep(one.0, (rounds - 1) as nat);
        (rest.0, one.1 + rest.1)
    }
}

/// Every node that has become ripe is examined: one round for each node is
/// enough, since a node is examined once.
pub open spec fn settle(c: ClientView) -> (ClientView, Seq<ActionView>) {
    sweep(c, c.nodes.len())
}

/// The node at `i` fails with `error`, which is kept as the failure of the
/// run unless an earlier one is. The nodes that waited only for this one are
/// then ripe and fail in turn; those that still wait for others go on
/// waiting.
pub open spec fn fail(c: ClientView, i: int, error: ErrorView) -> (ClientView, Seq<ActionView>) {
    settle(failed(ClientView { failure: recorded(c.failure, error), ..c }, i))
}

/// The node at `i` ends well. The root ending well ends the build: a channel
/// that is up is to be closed, and else the command is launched. Any other
/// node ending well may have been the last that others waited for.
pub open spec fn finish(c: ClientView, i: int) -> (ClientView, Seq<ActionView>) {
    let nodes = with_phase(c.nodes, i, Phase::Done);
    let done = ClientView { nodes, ..c };
    if i != 0 {
        settle(done)
    } else if c.server.state == ConnectionState::Disconnected {
        (ClientView { stage: Stage::Launching, ..done }, seq![ActionView::Launch])
    } else {
        (ClientView { stage: Stage::Disconnecting, ..done }, seq![ActionView::Disconnect])
    }
}

/// The entry of a dependency that has just been claimed.
pub open spec fn claimed(key: Seq<char>) -> NodeView {
    NodeView {
        key,
        derivation: None,
        phase: Phase::Resolving,
        requested: false,
        built_locally: false,
    }
}

/// The node set after each of `deps` that was not in the set has been
/// claimed, in order: one new entry for each, at the end.
pub open spec fn fan_out(nodes: Seq<NodeView>, deps: Seq<Seq<char>>) -> Seq<NodeView>
    decreases deps.len(),
{
    if deps.len() == 0 {
        nodes
    } else {
        let before = fan_out(nodes, deps.drop_last());
        if index_of(before, deps.last()) < before.len() {
            before
        } else {
            before.push(claimed(deps.last()))
        }
    }
}

/// One request to the resolver for each node from index `from` on.
pub open spec fn resolves(nodes: Seq<NodeView>, from: int) -> Seq<ActionView> {
    Seq::new(
        (nodes.len() - from) as nat,
        |j: int| ActionView::Resolve { target: nodes[from + j].key },
    )
}

/// The node at `i` is in neither store: it waits for all of its
/// dependencies, and those that are not in the node set yet are claimed.
/// Where all of them have ended already, it is examined at once.
pub open spec fn fan(c: ClientView, i: int) -> (ClientView, Seq<ActionView>) {
    let grown = fan_out(with_phase(c.nodes, i, Phase::WaitingDependencies), deps_of(c.nodes, i));
    let waiting = ClientView { nodes: grown, ..c };
    (settle(waiting).0, resolves(grown, c.nodes.len() as int) + settle(waiting).1)
}

/// Whether the resolver's answer `node`, given under `key`, describes the
/// node that was asked for as `target`.
pub open spec fn describes(target: Seq<char>, key: Seq<char>, node: DerivationView) -> bool {
    key == target && node.primary_output() is Some && node.wf()
}

/// The resolver answered for a dependency.
pub open spec fn on_resolved(
    c: ClientView,
    target: Seq<char>,
    result: Result<(Seq<char>, DerivationView), ErrorView>,
) -> (ClientView, Seq<ActionView>) {
    let i = index_of(c.nodes, target);
    if i < c.nodes.len() && c.nodes[i].phase == Phase::Resolving {
        match result {
            Ok((key, node)) => if describes(target, key, node) {
                (
                    ClientView {
                        nodes: c.nodes.update(
                            i,
                            NodeView {
                                derivation: Some(node),
                                phase: Phase::CheckingLocal,
                                ..c.nodes[i]
                            },
                        ),
                        ..c
                    },
                    seq![ActionView::CheckLocal { key: target, path: node.primary_output()->0 }],
                )
            } else {
                fail(c, i, ErrorView::Resolution(shape_message()))
            },
            Err(e) => fail(c, i, e),
        }
    } else {
        idle(c)
    }
}

/// The local store said whether the primary output exists.
pub open spec fn on_local_checked(c: ClientView, key: Seq<char>, exists: bool) -> (
    ClientView,
    Seq<ActionView>,
) {
    let i = index_of(c.nodes, key);
    if i < c.nodes.len() && c.nodes[i].phase == Phase::CheckingLocal {
        if exists {
            (
                ClientView {
                    nodes: with_phase(
                        with_flags(c.nodes, i, true, false),
                        i,
                        Phase::UploadingLocal,
                    ),
                    ..c
                },
                seq![ActionView::Upload { key }],
            )
        } else {
            (
                ClientView { nodes: with_phase(c.nodes, i, Phase::CheckingRemote), ..c },
                seq![ActionView::Pull { key }],
            )
        }
    } else {
        idle(c)
    }
}

/// A copy to the remote cache ended. However it ended, the node ends well.
pub open spec fn on_uploaded(c: ClientView, key: Seq<char>, ok: bool) -> (
    ClientView,
    Seq<ActionView>,
) {
    let i = index_of(c.nodes, key);
    if i < c.nodes.len() && c.nodes[i].phase == Phase::UploadingLocal {
        finish(ClientView { nodes: with_flags(c.nodes, i, false, ok), ..c }, i)
    } else if i < c.nodes.len() && c.nodes[i].phase == Phase::UploadingBuilt {
        finish(c, i)
    } else {
        idle(c)
    }
}

/// A handshake with the relay is asked for, and one attempt is used up.
pub open spec fn attempt(c: ClientView) -> (ClientView, Seq<ActionView>) {
    (
        ClientView {
            server: ServerConnectionView {
                state: ConnectionState::Connecting,
                waiters: Seq::empty(),
            },
            attempts_left: if c.attempts_left > 0 {
                (c.attempts_left - 1) as u8
            } else {
                0
            },
            ..c
        },
        seq![ActionView::Connect { url: client_channel_url(c.config.server_url) }],
    )
}

/// A copy from the remote cache ended. As the check for remote existence, a
/// copy that succeeded ends the node well. One that failed shows that the
/// node must be built: the root then has the relay reached, which nothing
/// needed before, and any other node goes on to its dependencies. As the
/// fetch of a remote build the copy ends the node well however it ended.
pub open spec fn on_pulled(c: ClientView, key: Seq<char>, ok: bool) -> (
    ClientView,
    Seq<ActionView>,
) {
    let i = index_of(c.nodes, key);
    if i < c.nodes.len() && c.nodes[i].phase == Phase::CheckingRemote {
        if ok {
            finish(ClientView { nodes: with_flags(c.nodes, i, true, true), ..c }, i)
        } else if i == 0 {
            attempt(
                ClientView {
                    stage: Stage::Connecting,
                    nodes: with_phase(c.nodes, 0, Phase::Queued),
                    ..c
                },
            )
        } else {
            fan(c, i)
        }
    } else if i < c.nodes.len() && c.nodes[i].phase == Phase::Fetching {
        finish(c, i)
    } else {
        idle(c)
    }
}

/// The remote build of `key` ended with `success`. After a success the
/// artifact is fetched; after a failure the node is built locally.
pub open spec fn on_outcome(c: ClientView, key: Seq<char>, success: bool) -> (
    ClientView,
    Seq<ActionView>,
) {
    let i = index_of(c.nodes, key);
    if i < c.nodes.len() && c.nodes[i].phase == Phase::AwaitingRemote {
        if success {
            (
                ClientView { nodes: with_phase(c.nodes, i, Phase::Fetching), ..c },
                seq![ActionView::Pull { key }],
            )
        } else {
            fall_back(c, i)
        }
    } else {
        idle(c)
    }
}

/// Each of `keys`, in order, ends as a failed remote build.
pub open spec fn cancel_all(c: ClientView, keys: Seq<Seq<char>>) -> (ClientView, Seq<ActionView>)
    decreases keys.len(),
{
    if keys.len() == 0 {
        idle(c)
    } else {
        let before = cancel_all(c, keys.drop_last());
        let after = on_outcome(before.0, keys.last(), false);
        (after.0, before.1 + after.1)
    }
}

/// The receive loop read a message.
pub open spec fn on_message(c: ClientView, message: IncomingView) -> (
    ClientView,
    Seq<ActionView>,
) {
    let heard = ClientView { server: received(c.server, message).0, ..c };
    match received(c.server, message).1 {
        ReceivedView::Delivered { key, success } => on_outcome(heard, key, success),
        ReceivedView::Dropped => idle(heard),
        ReceivedView::Stopped { cancelled } => cancel_all(heard, cancelled),
    }
}

/// The transport rejected the build request for `key`: the request is
/// withdrawn and the node is built locally.
pub open spec fn on_send_failed(c: ClientView, key: Seq<char>) -> (ClientView, Seq<ActionView>) {
    let i = index_of(c.nodes, key);
    if i < c.nodes.len() && c.nodes[i].phase == Phase::AwaitingRemote {
        fall_back(
            ClientView {
                server: ServerConnectionView {
                    waiters: without(c.server.waiters, key),
                    ..c.server
                },
                ..c
            },
            i,
        )
    } else {
        idle(c)
    }
}

/// The local build of `key` ended. A build that succeeded is copied to the
/// remote cache; one that failed fails the node.
pub open spec fn on_realized(c: ClientView, key: Seq<char>, result: Result<(), Seq<char>>) -> (
    ClientView,
    Seq<ActionView>,
) {
    let i = index_of(c.nodes, key);
    if i < c.nodes.len() && c.nodes[i].phase == Phase::BuildingLocally {
        match result {
            Ok(()) => (
                ClientView { nodes: with_phase(c.nodes, i, Phase::UploadingBuilt), ..c },
                seq![ActionView::Upload { key }],
            ),
            Err(text) => fail(c, i, ErrorView::LocalBuild(text)),
        }
    } else {
        idle(c)
    }
}

/// What an event does while the graph is being built.
pub open spec fn built(c: ClientView, event: EventView) -> (ClientView, Seq<ActionView>) {
    match event {
        EventView::Resolved { target, result } => on_resolved(c, target, result),
        EventView::LocalChecked { key, exists } => on_local_checked(c, key, exists),
        EventView::Uploaded { key, ok } => on_uploaded(c, key, ok),
        EventView::Pulled { key, ok } => on_pulled(c, key, ok),
        EventView::SendFailed { key } => on_send_failed(c, key),
        EventView::Message(message) => on_message(c, message),
        EventView::Realized { key, outcome } => on_realized(c, key, outcome),
        _ => idle(c),
    }
}

/// The invocation fails with `error`.
pub open spec fn fail_run(c: ClientView, error: ErrorView) -> (ClientView, Seq<ActionView>) {
    (
        ClientView { stage: Stage::Failed, failure: recorded(c.failure, error), ..c },
        Seq::empty(),
    )
}

/// The resolver answered for the reference that the user gave. The root
/// enters the node set and is looked for in the local store; an answer that
/// is no node fails the invocation. The relay is not needed yet.
pub open spec fn on_root_resolved(
    c: ClientView,
    result: Result<(Seq<char>, DerivationView), ErrorView>,
) -> (ClientView, Seq<ActionView>) {
    match result {
        Ok((key, node)) => if describes(key, key, node) {
            (
                ClientView {
                    stage: Stage::Building,
                    nodes: seq![
                        NodeView {
                            key,
                            derivation: Some(node),
                            phase: Phase::CheckingLocal,
                            requested: false,
                            built_locally: false,
                        },
                    ],
                    ..c
                },
                seq![ActionView::CheckLocal { key, path: node.primary_output()->0 }],
            )
        } else {
            fail_run(c, ErrorView::Resolution(shape_message()))
        },
        Err(e) => fail_run(c, e),
    }
}

/// The handshake ended. Once the relay is reached the root claims its
/// dependencies. A refused handshake is tried again after a pause while
/// attempts are left, and fails the invocation when none is, with a message
/// that names the address and what the transport said.
pub open spec fn on_connected(c: ClientView, outcome: Result<(), Seq<char>>) -> (
    ClientView,
    Seq<ActionView>,
) {
    if c.server.state != ConnectionState::Connecting {
        idle(c)
    } else if outcome is Ok {
        fan(
            ClientView {
                stage: Stage::Building,
                server: ServerConnectionView { state: ConnectionState::Connected, ..c.server },
                ..c
            },
            0,
        )
    } else {
        let down = ClientView {
            server: ServerConnectionView { state: ConnectionState::Disconnected, ..c.server },
            ..c
        };
        if c.attempts_left > 0 {
            (down, seq![ActionView::Wait { seconds: BACKOFF_SECONDS }])
        } else {
            fail_run(
                down,
                ErrorView::Connect(refusal(client_channel_url(c.config.server_url), outcome)),
            )
        }
    }
}

/// The first step of an invocation. To enter a development environment the
/// reference is resolved first; the other commands are launched at once.
pub open spec fn started(c: ClientView) -> (ClientView, Seq<ActionView>) {
    if c.stage != Stage::Idle {
        idle(c)
    } else {
        match c.command {
            CommandsView::Develop { flake_ref } => (
                ClientView { stage: Stage::ResolvingRoot, ..c },
                seq![ActionView::Resolve { target: flake_ref }],
            ),
            _ => (ClientView { stage: Stage::Launching, ..c }, seq![ActionView::Launch]),
        }
    }
}

/// What an event does to a client: the client afterwards and the work it
/// asks for, in order. An event that the stage does not expect changes
/// nothing.
pub open spec fn stepped(c: ClientView, event: EventView) -> (ClientView, Seq<ActionView>) {
    match c.stage {
        Stage::ResolvingRoot => match event {
            EventView::Resolved { target, result } => on_root_resolved(c, result),
            _ => idle(c),
        },
        Stage::Connecting => match event {
            EventView::Connected { outcome } => on_connected(c, outcome),
            EventView::BackoffElapsed => if c.server.state == ConnectionState::Disconnected {
                attempt(c)
            } else {
                idle(c)
            },
            _ => idle(c),
        },
        Stage::Building => built(c, event),
        Stage::Disconnecting => match event {
            EventView::Disconnected => (
                ClientView {
                    stage: Stage::Launching,
                    server: ServerConnectionView {
                        state: ConnectionState::Disconnected,
                        waiters: Seq::empty(),
                    },
                    ..c
                },
                seq![ActionView::Launch],
            ),
            _ => idle(c),
        },
        Stage::Launching => match event {
            EventView::Exited => (ClientView { stage: Stage::Finished, ..c }, Seq::empty()),
            _ => idle(c),
        },
        _ => idle(c),
    }
}

/// Claiming dependencies only adds entries at the end of the node set.
pub proof fn lemma_fan_out_grows(nodes: Seq<NodeView>, deps: Seq<Seq<char>>)
    ensures
        fan_out(nodes, deps).len() >= nodes.len(),
        fan_out(nodes, deps).take(nodes.len() as int) == nodes,
    decreases deps.len(),
{
    if deps.len() == 0 {
        assert(nodes.take(nodes.len() as int) =~= nodes);
    } else {
        lemma_fan_out_grows(nodes, deps.drop_last());
        let before = fan_out(nodes, deps.drop_last());
        assert(fan_out(nodes, deps).take(nodes.len() as int) =~= before.take(
            nodes.len() as int,
        ));
    }
}

} // verus!
