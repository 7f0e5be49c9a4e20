//! What holds of every run of the client, whatever the outside world
//! reports and in whatever order.

use crate::cli::CommandsView;
use crate::config::ConfigView;
use crate::frame::parsed_completion;
use crate::orchestrator::{
    all_over, cancel_all, deps_of, done, examine, first_ripe, idle, index_of, initial,
    over, ripe, started, stepped, sweep, ClientView, NodeView, Phase, Stage,
};
use crate::safety::{
    described_node, failed_on_dependency, inv, joined_at, lemma_cancel_all, lemma_index_of,
    lemma_index_of_own, lemma_initial_steady, lemma_orderly_then, lemma_started,
    lemma_started_steady, lemma_stepped, lemma_stepped_steady, linked_at, newly_requested,
    orderly, realized_key, sent_key, settled_at, steady,
};
use crate::search::lemma_without;
use crate::server::{received, ConnectionState, IncomingView};
use crate::step::{ActionView, EventView};
use vstd::prelude::*;

verus! {

/// The client after a run of events, each handled in the state that the
/// events before it left, and the actions asked for along the way, in order.
pub open spec fn run(c: ClientView, events: Seq<EventView>) -> (ClientView, Seq<ActionView>)
    decreases events.len(),
{
    if events.len() == 0 {
        idle(c)
    } else {
        let before = run(c, events.drop_last());
        let after = stepped(before.0, events.last());
        (after.0, before.1 + after.1)
    }
}

/// One invocation from its start: a new client is started and then handles
/// `events`.
pub open spec fn invocation(config: ConfigView, command: CommandsView, events: Seq<EventView>) -> (
    ClientView,
    Seq<ActionView>,
) {
    let first = started(initial(config, command));
    let rest = run(first.0, events);
    (rest.0, first.1 + rest.1)
}

/// The build of the node with this key may be requested: the node is in
/// the node set, and every one of its dependencies is in the node set and
/// done, whichever node started the dependency's task.
pub open spec fn ready(nodes: Seq<NodeView>, key: Seq<char>) -> bool {
    &&& index_of(nodes, key) < nodes.len()
    &&& nodes[index_of(nodes, key)].derivation is Some
    &&& forall|d: int|
        0 <= d < deps_of(nodes, index_of(nodes, key)).len() ==> index_of(
            nodes,
            #[trigger] deps_of(nodes, index_of(nodes, key))[d],
        ) < nodes.len() && nodes[index_of(nodes, deps_of(nodes, index_of(nodes, key))[d])].phase
            == Phase::Done
}

/// Every build request among `actions` is for a node that is ready in
/// `nodes`.
pub open spec fn joined(nodes: Seq<NodeView>, actions: Seq<ActionView>) -> bool {
    forall|m: int|
        0 <= m < actions.len() && sent_key(#[trigger] actions[m]) is Some ==> ready(
            nodes,
            sent_key(actions[m])->0,
        )
}

/// A run from a steady state ends in a steady state, and its actions are
/// orderly.
pub proof fn lemma_run(c: ClientView, events: Seq<EventView>)
    requires
        steady(c),
    ensures
        steady(run(c, events).0),
        orderly(c.nodes, run(c, events).0.nodes, run(c, events).1),
    decreases events.len(),
{
    if events.len() > 0 {
        let before = run(c, events.drop_last());
        lemma_run(c, events.drop_last());
        lemma_stepped_steady(before.0, events.last());
        let after = stepped(before.0, events.last());
        lemma_orderly_then(c.nodes, before.0.nodes, after.0.nodes, before.1, after.1);
    } else {
        crate::safety::lemma_orderly_still(c.nodes);
    }
}

/// Every state that an invocation reaches is steady, and so satisfies the
/// invariant, and the actions of the invocation are orderly.
pub proof fn lemma_invocation(config: ConfigView, command: CommandsView, events: Seq<EventView>)
    ensures
        steady(invocation(config, command, events).0),
        inv(invocation(config, command, events).0),
        orderly(
            initial(config, command).nodes,
            invocation(config, command, events).0.nodes,
            invocation(config, command, events).1,
        ),
{
    let start = initial(config, command);
    lemma_initial_steady(config, command);
    lemma_started_steady(start);
    lemma_started(start);
    let first = started(start);
    lemma_run(first.0, events);
    let rest = run(first.0, events);
    lemma_orderly_then(start.nodes, first.0.nodes, rest.0.nodes, first.1, rest.1);
}

/// No key is submitted as a remote build request more than once in an
/// invocation: whatever events arrive, in whatever order, and by however
/// many paths the graph reaches a node, no two build requests among the
/// actions of the invocation carry the same key.
pub proof fn law_no_key_requested_twice(
    config: ConfigView,
    command: CommandsView,
    events: Seq<EventView>,
)
    ensures
        forall|m: int, n: int|
            0 <= m < n < invocation(config, command, events).1.len() && sent_key(
                #[trigger] invocation(config, command, events).1[m],
            ) is Some && sent_key(#[trigger] invocation(config, command, events).1[n]) is Some
                ==> sent_key(invocation(config, command, events).1[m]) != sent_key(
                invocation(config, command, events).1[n],
            ),
{
    lemma_invocation(config, command, events);
}

/// No node is built locally more than once in an invocation: no two local
/// builds among the actions of the invocation are for the same key.
pub proof fn law_no_key_built_locally_twice(
    config: ConfigView,
    command: CommandsView,
    events: Seq<EventView>,
)
    ensures
        forall|m: int, n: int|
            0 <= m < n < invocation(config, command, events).1.len() && realized_key(
                #[trigger] invocation(config, command, events).1[m],
            ) is Some && realized_key(#[trigger] invocation(config, command, events).1[n]) is Some
                ==> realized_key(invocation(config, command, events).1[m]) != realized_key(
                invocation(config, command, events).1[n],
            ),
{
    lemma_invocation(config, command, events);
}

/// Fan-in. In every state that a run can reach, a step asks for the build
/// of a node only when every one of its dependencies is in the node set and
/// done. That holds also of a dependency whose task another node started:
/// being in the node set already spares it a second resolution and a second
/// request, not the wait.
pub proof fn law_fan_in(c: ClientView, event: EventView)
    requires
        inv(c),
    ensures
        joined(stepped(c, event).0.nodes, stepped(c, event).1),
{
    lemma_stepped(c, event);
    let after = stepped(c, event).0.nodes;
    let actions = stepped(c, event).1;
    assert forall|m: int|
        0 <= m < actions.len() && sent_key(#[trigger] actions[m]) is Some implies ready(
        after,
        sent_key(actions[m])->0,
    ) by {
        let key = sent_key(actions[m])->0;
        assert(newly_requested(c.nodes, after, key));
        let j = choose|j: int|
            0 <= j < after.len() && (#[trigger] after[j]).key == key && after[j].requested && (j
                < c.nodes.len() ==> !c.nodes[j].requested);
        lemma_index_of_own(after, j);
        assert(settled_at(after, j));
        assert forall|d: int| 0 <= d < deps_of(after, j).len() implies index_of(
            after,
            #[trigger] deps_of(after, j)[d],
        ) < after.len() && after[index_of(after, deps_of(after, j)[d])].phase == Phase::Done by {
            assert(done(after, deps_of(after, j)[d]));
        }
    }
}

/// What a build was requested on stays built. In every state that a run
/// can reach, each dependency of a node whose build has been requested is
/// done, whatever became of the node afterwards.
pub proof fn law_requested_after_its_dependencies(c: ClientView, j: int, d: int)
    requires
        inv(c),
        0 <= j < c.nodes.len(),
        c.nodes[j].requested,
        0 <= d < deps_of(c.nodes, j).len(),
    ensures
        index_of(c.nodes, deps_of(c.nodes, j)[d]) < c.nodes.len(),
        c.nodes[index_of(c.nodes, deps_of(c.nodes, j)[d])].phase == Phase::Done,
{
    assert(settled_at(c.nodes, j));
    assert(done(c.nodes, deps_of(c.nodes, j)[d]));
}

/// A failed dependency does not cut off the others. In every state that a
/// run can reach, a node that has failed because a dependency failed has
/// every one of its dependencies ended: the tasks of the others ran to
/// their own end before the node failed. The build of such a node was never
/// requested, and it was never built locally.
pub proof fn law_failure_waits_for_the_others(c: ClientView, j: int, d: int)
    requires
        inv(c),
        0 <= j < c.nodes.len(),
        failed_on_dependency(c.nodes[j]),
        0 <= d < deps_of(c.nodes, j).len(),
    ensures
        index_of(c.nodes, deps_of(c.nodes, j)[d]) < c.nodes.len(),
        c.nodes[index_of(c.nodes, deps_of(c.nodes, j)[d])].phase == Phase::Done
            || c.nodes[index_of(c.nodes, deps_of(c.nodes, j)[d])].phase == Phase::Failed,
        !c.nodes[j].requested,
        !c.nodes[j].built_locally,
{
    assert(joined_at(c.nodes, j));
    assert(over(c.nodes, deps_of(c.nodes, j)[d]));
    assert(crate::safety::unflagged_node(c.nodes[j]));
}

/// No node waits for nothing. Between two steps, every node that waits for
/// its dependencies has a dependency whose task has not ended: as soon as
/// the last of them ends, in the same step, the node's build is requested
/// or the node fails.
pub proof fn law_no_node_waits_for_nothing(c: ClientView, j: int)
    requires
        steady(c),
        c.stage == Stage::Building,
        0 <= j < c.nodes.len(),
        c.nodes[j].phase == Phase::WaitingDependencies,
    ensures
        !all_over(c.nodes, j),
{
    assert(!ripe(c.nodes, j));
}

/// What a node carries is well formed. In every state that a run can
/// reach, the inputs of a resolved node are a mapping, and so are its
/// outputs: no dependency is listed twice.
pub proof fn law_nodes_are_well_formed(c: ClientView, j: int)
    requires
        inv(c),
        0 <= j < c.nodes.len(),
        c.nodes[j].derivation is Some,
    ensures
        c.nodes[j].derivation->0.wf(),
        deps_of(c.nodes, j).no_duplicates(),
{
    assert(described_node(c.nodes[j]));
}

/// The invocation fails only with its root. While the graph is being built
/// the root has not failed, so that the events of every task in flight are
/// still handled; and once the invocation has failed for a dependency, every
/// dependency of the root has ended.
pub proof fn law_invocation_fails_with_the_root(c: ClientView)
    requires
        inv(c),
        c.nodes.len() > 0,
    ensures
        c.stage == Stage::Building ==> c.nodes[0].phase != Phase::Failed,
        c.stage == Stage::Failed ==> c.nodes[0].phase == Phase::Failed || c.nodes[0].phase
            == Phase::Queued,
        c.stage == Stage::Failed && failed_on_dependency(c.nodes[0]) ==> all_over(c.nodes, 0),
{
    assert(joined_at(c.nodes, 0));
}

/// An invocation that has failed has its failure: the text to show is
/// kept, be it the resolver's or the local store's diagnostic or the
/// transport's refusal.
pub proof fn law_failed_invocation_has_its_failure(c: ClientView)
    requires
        inv(c),
        c.stage == Stage::Failed,
    ensures
        c.failure is Some,
{
}

/// At most one request is pending for a key at a time, and none for a node
/// whose build is yet to be requested: in every state that a run can reach
/// while the graph is being built, no key stands twice among the pending
/// requests, and the keys that stand there are those of the nodes that
/// await a remote outcome.
pub proof fn law_one_pending_request_per_key(c: ClientView, i: int)
    requires
        inv(c),
        c.stage == Stage::Building,
        0 <= i < c.nodes.len(),
    ensures
        c.server.waiters.no_duplicates(),
        c.server.waiters.contains(c.nodes[i].key) <==> c.nodes[i].phase == Phase::AwaitingRemote,
{
    assert(linked_at(c, i));
}

/// Fallback. While a node awaits the outcome of its remote build, a
/// completion frame that reports failure for its key starts the local build
/// of that node, and nothing else: the one action asked for is that build,
/// the node is being built locally, and no request for its key is pending
/// any more, so that a second frame for the key is dropped. (By
/// `law_no_key_requested_twice` the build is never requested from the relay
/// again, and by `law_no_key_built_locally_twice` never built locally
/// again.)
pub proof fn law_fallback(c: ClientView, frame: Seq<char>, key: Seq<char>)
    requires
        inv(c),
        c.stage == Stage::Building,
        parsed_completion(frame) == Some((key, false)),
        index_of(c.nodes, key) < c.nodes.len(),
        c.nodes[index_of(c.nodes, key)].phase == Phase::AwaitingRemote,
    ensures
        stepped(c, EventView::Message(IncomingView::Text(frame))).1 == seq![
            ActionView::Realize { key },
        ],
        stepped(c, EventView::Message(IncomingView::Text(frame))).0.nodes[index_of(
            c.nodes,
            key,
        )].phase == Phase::BuildingLocally,
        !stepped(c, EventView::Message(IncomingView::Text(frame))).0.server.waiters.contains(key),
        stepped(c, EventView::Message(IncomingView::Text(frame))).0.stage == Stage::Building,
{
    let i = index_of(c.nodes, key);
    lemma_index_of(c.nodes, key);
    assert(linked_at(c, i));
    assert(c.server.waiters.len() > 0);
    assert(c.server.state == ConnectionState::Connected);
    lemma_without(c.server.waiters, key);
}

/// Disconnect drains the pending requests. When the connection is lost
/// while the graph is being built, every node that awaited the outcome of
/// its remote build observes a failure: it is built locally, on an action
/// of its own; the channel is down and no request stays pending.
pub proof fn law_disconnect_drains(c: ClientView, message: IncomingView)
    requires
        inv(c),
        c.stage == Stage::Building,
        c.server.state == ConnectionState::Connected,
        message == IncomingView::Close || message == IncomingView::Failure,
    ensures
        stepped(c, EventView::Message(message)).0.server.state == ConnectionState::Disconnected,
        stepped(c, EventView::Message(message)).0.server.waiters.len() == 0,
        stepped(c, EventView::Message(message)).0.nodes.len() == c.nodes.len(),
        forall|j: int|
            0 <= j < c.nodes.len() && (#[trigger] c.nodes[j]).phase == Phase::AwaitingRemote
                ==> stepped(c, EventView::Message(message)).0.nodes[j].phase
                == Phase::BuildingLocally && stepped(c, EventView::Message(message)).1.contains(
                ActionView::Realize { key: c.nodes[j].key },
            ),
        forall|j: int|
            0 <= j < c.nodes.len() && (#[trigger] c.nodes[j]).phase != Phase::AwaitingRemote
                ==> stepped(c, EventView::Message(message)).0.nodes[j] == c.nodes[j],
{
    let heard = ClientView { server: received(c.server, message).0, ..c };
    let cancelled = c.server.waiters;
    assert forall|j: int| 0 <= j < c.nodes.len() implies ((#[trigger] heard.nodes[j]).phase
        == Phase::AwaitingRemote <==> cancelled.contains(heard.nodes[j].key)) by {
        assert(linked_at(c, j));
    }
    lemma_cancel_all(heard, cancelled, cancelled.len() as int);
    assert(cancelled.take(cancelled.len() as int) =~= cancelled);
    let after = cancel_all(heard, cancelled);
    assert forall|j: int|
        0 <= j < c.nodes.len() && (#[trigger] c.nodes[j]).phase
            == Phase::AwaitingRemote implies after.0.nodes[j].phase == Phase::BuildingLocally
        && after.1.contains(ActionView::Realize { key: c.nodes[j].key }) by {
        assert(linked_at(c, j));
        assert(heard.nodes[j] == c.nodes[j]);
    }
    assert forall|j: int|
        0 <= j < c.nodes.len() && (#[trigger] c.nodes[j]).phase
            != Phase::AwaitingRemote implies after.0.nodes[j] == c.nodes[j] by {
        assert(heard.nodes[j] == c.nodes[j]);
    }
}

/// None of `actions` asks for a handshake with the relay.
pub open spec fn walks(actions: Seq<ActionView>) -> bool {
    forall|m: int| 0 <= m < actions.len() ==> !(#[trigger] actions[m] is Connect)
}

/// Examining ripe nodes asks for no handshake.
proof fn lemma_sweep_walks(c: ClientView, rounds: nat)
    ensures
        walks(sweep(c, rounds).1),
    decreases rounds,
{
    if rounds == 0 || c.stage != Stage::Building || first_ripe(c.nodes, 0) >= c.nodes.len() {
    } else {
        let one = examine(c, first_ripe(c.nodes, 0));
        lemma_sweep_walks(one.0, (rounds - 1) as nat);
        let rest = sweep(one.0, (rounds - 1) as nat);
        assert forall|m: int| 0 <= m < (one.1 + rest.1).len() implies !(#[trigger] (one.1
            + rest.1)[m] is Connect) by {
            if m < one.1.len() {
                assert((one.1 + rest.1)[m] == one.1[m]);
            } else {
                assert((one.1 + rest.1)[m] == rest.1[m - one.1.len()]);
            }
        }
    }
}

/// Cancelling requests asks for no handshake.
proof fn lemma_cancel_walks(c: ClientView, keys: Seq<Seq<char>>)
    ensures
        walks(cancel_all(c, keys).1),
    decreases keys.len(),
{
    if keys.len() > 0 {
        lemma_cancel_walks(c, keys.drop_last());
        let before = cancel_all(c, keys.drop_last());
        let after = crate::orchestrator::on_outcome(before.0, keys.last(), false);
        assert forall|m: int| 0 <= m < (before.1 + after.1).len() implies !(#[trigger] (before.1
            + after.1)[m] is Connect) by {
            if m < before.1.len() {
                assert((before.1 + after.1)[m] == before.1[m]);
            } else {
                assert((before.1 + after.1)[m] == after.1[m - before.1.len()]);
            }
        }
    }
}

/// A node that ends, well or in failure, asks for no handshake, and
/// neither does a node that claims its dependencies.
proof fn lemma_ends_walk(c: ClientView, i: int, error: crate::error::ErrorView)
    ensures
        walks(crate::orchestrator::finish(c, i).1),
        walks(crate::orchestrator::fail(c, i, error).1),
        walks(crate::orchestrator::fan(c, i).1),
{
    let done = ClientView { nodes: crate::orchestrator::with_phase(c.nodes, i, Phase::Done), ..c };
    lemma_sweep_walks(done, done.nodes.len());
    let down = crate::orchestrator::failed(
        ClientView { failure: crate::orchestrator::recorded(c.failure, error), ..c },
        i,
    );
    lemma_sweep_walks(down, down.nodes.len());
    let grown = crate::orchestrator::fan_out(
        crate::orchestrator::with_phase(c.nodes, i, Phase::WaitingDependencies),
        deps_of(c.nodes, i),
    );
    let waiting = ClientView { nodes: grown, ..c };
    lemma_sweep_walks(waiting, waiting.nodes.len());
    let asked = crate::orchestrator::resolves(grown, c.nodes.len() as int);
    let rest = crate::orchestrator::settle(waiting).1;
    assert forall|m: int| 0 <= m < (asked + rest).len() implies !(#[trigger] (asked
        + rest)[m] is Connect) by {
        if m < asked.len() {
            assert((asked + rest)[m] == asked[m]);
        } else {
            assert((asked + rest)[m] == rest[m - asked.len()]);
        }
    }
}

/// The relay is reached only when it is needed. A step asks for a
/// handshake only for a root that was found in neither store, when the copy
/// from the remote cache has just failed for it, or to try a refused
/// handshake again. A root that is in the local store or in the remote
/// cache is done without the relay.
pub proof fn law_relay_only_when_needed(c: ClientView, event: EventView, m: int)
    requires
        inv(c),
        0 <= m < stepped(c, event).1.len(),
        stepped(c, event).1[m] is Connect,
    ensures
        c.stage == Stage::Connecting || (c.stage == Stage::Building && c.nodes[0].phase
            == Phase::CheckingRemote && event == (EventView::Pulled {
            key: c.nodes[0].key,
            ok: false,
        })),
{
    let witness = crate::error::ErrorView::Send;
    if c.stage == Stage::Building {
        match event {
            EventView::Resolved { target, result } => {
                let i = index_of(c.nodes, target);
                match result {
                    Ok(_) => {
                        lemma_ends_walk(
                            c,
                            i,
                            crate::error::ErrorView::Resolution(
                                crate::orchestrator::shape_message(),
                            ),
                        );
                    },
                    Err(e) => {
                        lemma_ends_walk(c, i, e);
                    },
                }
            },
            EventView::Uploaded { key, ok } => {
                let i = index_of(c.nodes, key);
                lemma_ends_walk(c, i, witness);
                lemma_ends_walk(
                    ClientView {
                        nodes: crate::orchestrator::with_flags(c.nodes, i, false, ok),
                        ..c
                    },
                    i,
                    witness,
                );
            },
            EventView::Pulled { key, ok } => {
                let i = index_of(c.nodes, key);
                lemma_index_of(c.nodes, key);
                lemma_ends_walk(c, i, witness);
                lemma_ends_walk(
                    ClientView {
                        nodes: crate::orchestrator::with_flags(c.nodes, i, true, true),
                        ..c
                    },
                    i,
                    witness,
                );
            },
            EventView::Message(message) => {
                let heard = ClientView { server: received(c.server, message).0, ..c };
                match received(c.server, message).1 {
                    crate::server::ReceivedView::Stopped { cancelled } => {
                        lemma_cancel_walks(heard, cancelled);
                    },
                    _ => {},
                }
            },
            EventView::Realized { key, outcome } => {
                let i = index_of(c.nodes, key);
                match outcome {
                    Err(text) => {
                        lemma_ends_walk(c, i, crate::error::ErrorView::LocalBuild(text));
                    },
                    Ok(()) => {},
                }
            },
            _ => {},
        }
    }
}

} // verus!
