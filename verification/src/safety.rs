//! What holds of a client in every state that a run can reach, and what
//! every step keeps.

use crate::error::ErrorView;
use crate::model::DerivationView;
use crate::orchestrator::{
    all_done, all_over, built, cancel_all, claimed, deps_of, done, ended, examine, fail, failed,
    fall_back, fan, fan_out, finish, first_ripe, index_of, initial, keys, on_local_checked,
    on_message, on_outcome, on_pulled, on_realized, on_resolved, on_root_resolved,
    on_send_failed, on_uploaded, over, recorded, ripe, settle, started, stepped, submit, sweep,
    with_flags, with_phase, ClientView, NodeView, Phase, Stage,
};
use crate::search::{lemma_position_bounds, lemma_without, without};
use crate::server::{
    accepts, received, ConnectionState, IncomingView, ReceivedView, ServerConnectionView,
};
use crate::step::{ActionView, EventView};
use vstd::prelude::*;

verus! {

/// Whether a node in this phase has not yet had its build requested.
pub open spec fn before_request(phase: Phase) -> bool {
    phase == Phase::Queued || phase == Phase::Resolving || phase == Phase::CheckingLocal || phase
        == Phase::UploadingLocal || phase == Phase::CheckingRemote || phase
        == Phase::WaitingDependencies
}

/// A node whose task is under way carries what the resolver said of it,
/// with a primary output; a node that is being resolved carries nothing
/// yet. What a node carries is well formed: its inputs and its outputs are
/// mappings.
pub open spec fn described_node(node: NodeView) -> bool {
    &&& node.phase != Phase::Resolving && node.phase != Phase::Failed ==> node.derivation is Some
        && node.derivation->0.primary_output() is Some
    &&& node.phase == Phase::Resolving ==> node.derivation is None
    &&& node.derivation is Some ==> node.derivation->0.wf()
}

/// Every node whose task is under way carries what the resolver said of it.
pub open spec fn described(nodes: Seq<NodeView>) -> bool {
    forall|j: int| 0 <= j < nodes.len() ==> described_node(#[trigger] nodes[j])
}

/// Every node that waits for its dependencies carries what the resolver said
/// of it.
pub open spec fn waiting_described(nodes: Seq<NodeView>) -> bool {
    forall|j: int|
        0 <= j < nodes.len() && (#[trigger] nodes[j]).phase == Phase::WaitingDependencies
            ==> nodes[j].derivation is Some
}

/// Where every node under way is described, every waiting node is, also
/// after what was observed of a node is recorded.
pub proof fn lemma_waiting_described(nodes: Seq<NodeView>, i: int, local: bool, remote: bool)
    requires
        described(nodes),
    ensures
        waiting_described(nodes),
        0 <= i < nodes.len() ==> waiting_described(with_flags(nodes, i, local, remote)),
{
    assert forall|j: int|
        0 <= j < nodes.len() && (#[trigger] nodes[j]).phase
            == Phase::WaitingDependencies implies nodes[j].derivation is Some by {
        assert(described_node(nodes[j]));
    }
    if 0 <= i < nodes.len() {
        let seen = with_flags(nodes, i, local, remote);
        assert forall|j: int|
            0 <= j < seen.len() && (#[trigger] seen[j]).phase
                == Phase::WaitingDependencies implies seen[j].derivation is Some by {
            assert(described_node(nodes[j]));
            if j != i {
                assert(seen[j] == nodes[j]);
            }
        }
    }
}

/// Every entry that claiming adds is a claim: a node that is being
/// resolved.
pub proof fn lemma_fan_out_claims(nodes: Seq<NodeView>, deps: Seq<Seq<char>>, j: int)
    requires
        nodes.len() <= j < fan_out(nodes, deps).len(),
    ensures
        fan_out(nodes, deps)[j] == claimed(fan_out(nodes, deps)[j].key),
    decreases deps.len(),
{
    if deps.len() > 0 {
        let before = fan_out(nodes, deps.drop_last());
        crate::orchestrator::lemma_fan_out_grows(nodes, deps.drop_last());
        if j < before.len() {
            lemma_fan_out_claims(nodes, deps.drop_last(), j);
        }
    }
}

/// The marks of a node agree with its phase: before its build is requested
/// it is marked neither as requested nor as built locally; while it awaits
/// the remote outcome it is not marked as built locally; while it is built
/// locally it is marked so; and a node that failed for a dependency was
/// never requested.
pub open spec fn unflagged_node(node: NodeView) -> bool {
    &&& before_request(node.phase) ==> !node.requested && !node.built_locally
    &&& node.phase == Phase::AwaitingRemote ==> !node.built_locally
    &&& node.phase == Phase::BuildingLocally ==> node.built_locally
    &&& node.phase == Phase::Failed && node.derivation is Some && !node.built_locally
        ==> !node.requested
}

/// The marks of every node agree with its phase.
pub open spec fn unflagged(nodes: Seq<NodeView>) -> bool {
    forall|j: int| 0 <= j < nodes.len() ==> unflagged_node(#[trigger] nodes[j])
}

/// The node has failed because a dependency failed: it was resolved, and it
/// was not the local build of the node itself that failed.
pub open spec fn failed_on_dependency(node: NodeView) -> bool {
    node.phase == Phase::Failed && node.derivation is Some && !node.built_locally
}

/// The node at `j`, if its build was requested, has every dependency done.
pub open spec fn settled_at(nodes: Seq<NodeView>, j: int) -> bool {
    nodes[j].requested ==> nodes[j].derivation is Some && all_done(nodes, j)
}

/// Every node whose build was requested has every one of its dependencies
/// done, whichever node started the dependency's task: what a build was
/// requested on is built, and stays so.
pub open spec fn settled(nodes: Seq<NodeView>) -> bool {
    forall|j: int| 0 <= j < nodes.len() ==> #[trigger] settled_at(nodes, j)
}

/// The node at `j`, if it failed because a dependency failed, has every
/// dependency ended.
pub open spec fn joined_at(nodes: Seq<NodeView>, j: int) -> bool {
    failed_on_dependency(nodes[j]) ==> all_over(nodes, j)
}

/// A node fails for a dependency only once every one of its dependencies
/// has ended: the tasks of the other dependencies run to their own end
/// first.
pub open spec fn joined(nodes: Seq<NodeView>) -> bool {
    forall|j: int| 0 <= j < nodes.len() ==> #[trigger] joined_at(nodes, j)
}

/// The node set has the shape that its stage gives it: empty before the root
/// is resolved, never empty afterwards, and while the relay is being
/// reached the root alone, holding. The invocation has failed exactly when
/// the root has, or when the relay could not be reached for it.
pub open spec fn staged(c: ClientView) -> bool {
    &&& c.stage == Stage::Idle || c.stage == Stage::ResolvingRoot ==> c.nodes.len() == 0
    &&& c.stage == Stage::Connecting ==> c.nodes.len() == 1 && c.nodes[0].phase == Phase::Queued
    &&& c.stage == Stage::Building ==> c.nodes.len() > 0 && c.nodes[0].phase != Phase::Resolving
        && (c.nodes.len() > 1 ==> !lone(c.nodes[0].phase))
    &&& c.stage == Stage::Failed && c.nodes.len() > 0 ==> c.nodes[0].phase == Phase::Failed
        || c.nodes[0].phase == Phase::Queued
    &&& c.stage == Stage::Building ==> c.nodes[0].phase != Phase::Failed
}

/// Whether the root, in this phase, is still the only node: it has not
/// claimed its dependencies yet.
pub open spec fn lone(phase: Phase) -> bool {
    phase == Phase::CheckingLocal || phase == Phase::UploadingLocal || phase
        == Phase::CheckingRemote || phase == Phase::Queued
}

/// The node at `j` awaits a remote outcome exactly if a request for its key
/// is pending.
pub open spec fn linked_at(c: ClientView, j: int) -> bool {
    c.nodes[j].phase == Phase::AwaitingRemote <==> c.server.waiters.contains(c.nodes[j].key)
}

/// While the graph is being built, the nodes that await a remote outcome are
/// those with a request pending.
pub open spec fn linked(c: ClientView) -> bool {
    c.stage == Stage::Building ==> forall|j: int|
        0 <= j < c.nodes.len() ==> #[trigger] linked_at(c, j)
}

/// What holds of the connection of every client.
pub open spec fn served(c: ClientView) -> bool {
    &&& c.server.waiters.no_duplicates()
    &&& forall|w: int|
        0 <= w < c.server.waiters.len() ==> keys(c.nodes).contains(#[trigger] c.server.waiters[w])
    &&& c.server.state != ConnectionState::Connected ==> c.server.waiters.len() == 0
}

/// What holds of the node set of every client.
pub open spec fn sound(nodes: Seq<NodeView>) -> bool {
    &&& keys(nodes).no_duplicates()
    &&& described(nodes)
    &&& unflagged(nodes)
    &&& settled(nodes)
    &&& joined(nodes)
}

/// Every failure is accounted for: once a node has failed, or the
/// invocation has, the failure of the run is kept.
pub open spec fn noted(c: ClientView) -> bool {
    &&& c.stage == Stage::Failed ==> c.failure is Some
    &&& forall|j: int|
        0 <= j < c.nodes.len() && (#[trigger] c.nodes[j]).phase == Phase::Failed
            ==> c.failure is Some
}

/// What holds of every client apart from the link between the nodes that
/// await an outcome and the pending requests.
pub open spec fn inv_base(c: ClientView) -> bool {
    sound(c.nodes) && staged(c) && served(c) && noted(c)
}

/// What holds of a client in every state that a run can reach.
pub open spec fn inv(c: ClientView) -> bool {
    inv_base(c) && linked(c)
}

/// `after` holds the nodes of `before` under the same keys, followed by new
/// ones. No request and no local build was taken back, no task that had
/// ended has moved, and no node has lost or changed its dependencies.
pub open spec fn grows(before: Seq<NodeView>, after: Seq<NodeView>) -> bool {
    &&& before.len() <= after.len()
    &&& forall|j: int|
        0 <= j < before.len() ==> {
            &&& (#[trigger] after[j]).key == before[j].key
            &&& before[j].requested ==> after[j].requested
            &&& before[j].built_locally ==> after[j].built_locally
            &&& ended(before[j].phase) ==> after[j].phase == before[j].phase
            &&& before[j].derivation is Some ==> after[j].derivation is Some && deps_of(after, j)
                == deps_of(before, j)
        }
}

/// Between `before` and `after` the build of `key` was requested: its node
/// is marked as requested and was not before.
pub open spec fn newly_requested(
    before: Seq<NodeView>,
    after: Seq<NodeView>,
    key: Seq<char>,
) -> bool {
    exists|j: int|
        0 <= j < after.len() && (#[trigger] after[j]).key == key && after[j].requested && (j
            < before.len() ==> !before[j].requested)
}

/// Between `before` and `after` the local build of `key` was started: its
/// node is marked as built locally and was not before.
pub open spec fn newly_built(before: Seq<NodeView>, after: Seq<NodeView>, key: Seq<char>) -> bool {
    exists|j: int|
        0 <= j < after.len() && (#[trigger] after[j]).key == key && after[j].built_locally && (j
            < before.len() ==> !before[j].built_locally)
}

/// The key of a build request, where the action is one.
pub open spec fn sent_key(action: ActionView) -> Option<Seq<char>> {
    match action {
        ActionView::Send { key, frame } => Some(key),
        _ => None,
    }
}

/// The key of a local build, where the action is one.
pub open spec fn realized_key(action: ActionView) -> Option<Seq<char>> {
    match action {
        ActionView::Realize { key } => Some(key),
        _ => None,
    }
}

/// The actions that led from `before` to `after` are orderly: the node set
/// only grew; each build request among them is the first for its node, and
/// no two are for the same key; and likewise each local build.
pub open spec fn orderly(
    before: Seq<NodeView>,
    after: Seq<NodeView>,
    actions: Seq<ActionView>,
) -> bool {
    &&& grows(before, after)
    &&& forall|m: int|
        0 <= m < actions.len() && sent_key(#[trigger] actions[m]) is Some ==> newly_requested(
            before,
            after,
            sent_key(actions[m])->0,
        )
    &&& forall|m: int, n: int|
        0 <= m < n < actions.len() && sent_key(#[trigger] actions[m]) is Some && sent_key(
            #[trigger] actions[n],
        ) is Some ==> sent_key(actions[m]) != sent_key(actions[n])
    &&& forall|m: int|
        0 <= m < actions.len() && realized_key(#[trigger] actions[m]) is Some ==> newly_built(
            before,
            after,
            realized_key(actions[m])->0,
        )
    &&& forall|m: int, n: int|
        0 <= m < n < actions.len() && realized_key(#[trigger] actions[m]) is Some && realized_key(
            #[trigger] actions[n],
        ) is Some ==> realized_key(actions[m]) != realized_key(actions[n])
}

/// A key is the key of the node at its index, and of no node before it.
pub proof fn lemma_index_of(nodes: Seq<NodeView>, key: Seq<char>)
    ensures
        0 <= index_of(nodes, key) <= nodes.len(),
        index_of(nodes, key) < nodes.len() ==> nodes[index_of(nodes, key)].key == key,
        index_of(nodes, key) < nodes.len() <==> keys(nodes).contains(key),
        forall|j: int| 0 <= j < index_of(nodes, key) ==> (#[trigger] nodes[j]).key != key,
{
    lemma_position_bounds(keys(nodes), key);
    assert forall|j: int| 0 <= j < index_of(nodes, key) implies (#[trigger] nodes[j]).key
        != key by {
        assert(keys(nodes)[j] == nodes[j].key);
    }
}

/// Where no key stands twice, a node's key is found at the node's index.
pub proof fn lemma_index_of_own(nodes: Seq<NodeView>, j: int)
    requires
        keys(nodes).no_duplicates(),
        0 <= j < nodes.len(),
    ensures
        index_of(nodes, nodes[j].key) == j,
{
    lemma_index_of(nodes, nodes[j].key);
    let at = index_of(nodes, nodes[j].key);
    assert(keys(nodes)[j] == nodes[j].key);
    if at < nodes.len() {
        assert(keys(nodes)[at] == nodes[at].key);
    }
}

/// A key is found at the same index in a node set that has grown.
pub proof fn lemma_index_kept(before: Seq<NodeView>, after: Seq<NodeView>, key: Seq<char>)
    requires
        grows(before, after),
        keys(after).no_duplicates(),
        index_of(before, key) < before.len(),
    ensures
        index_of(after, key) == index_of(before, key),
{
    lemma_index_of(before, key);
    let at = index_of(before, key);
    assert(after[at].key == key);
    lemma_index_of_own(after, at);
}

/// A dependency that is done stays done, and one that has ended stays as it
/// ended, when the node set grows.
pub proof fn lemma_ended_kept(before: Seq<NodeView>, after: Seq<NodeView>, key: Seq<char>)
    requires
        grows(before, after),
        keys(after).no_duplicates(),
    ensures
        done(before, key) ==> done(after, key),
        over(before, key) ==> over(after, key),
{
    lemma_index_of(before, key);
    if index_of(before, key) < before.len() {
        lemma_index_kept(before, after, key);
        let at = index_of(before, key);
        assert(after[at].key == before[at].key);
    }
}

/// Where every dependency of a resolved node is done, or has ended, that
/// stays so when the node set grows.
pub proof fn lemma_all_kept(before: Seq<NodeView>, after: Seq<NodeView>, i: int)
    requires
        grows(before, after),
        keys(after).no_duplicates(),
        0 <= i < before.len(),
        before[i].derivation is Some,
    ensures
        all_done(before, i) ==> all_done(after, i),
        all_over(before, i) ==> all_over(after, i),
{
    assert(after[i].key == before[i].key);
    assert(deps_of(after, i) == deps_of(before, i));
    if all_done(before, i) {
        assert forall|d: int| 0 <= d < deps_of(after, i).len() implies done(
            after,
            #[trigger] deps_of(after, i)[d],
        ) by {
            assert(done(before, deps_of(before, i)[d]));
            lemma_ended_kept(before, after, deps_of(before, i)[d]);
        }
    }
    if all_over(before, i) {
        assert forall|d: int| 0 <= d < deps_of(after, i).len() implies over(
            after,
            #[trigger] deps_of(after, i)[d],
        ) by {
            assert(over(before, deps_of(before, i)[d]));
            lemma_ended_kept(before, after, deps_of(before, i)[d]);
        }
    }
}

/// A sound node set stays sound when it grows, where the nodes that are new
/// or have changed are described and marked as their phase asks, each new
/// request is for a node whose dependencies are all done, and each new
/// failure for a dependency is of a node whose dependencies have all ended.
pub proof fn lemma_sound_kept(before: Seq<NodeView>, after: Seq<NodeView>)
    requires
        sound(before),
        grows(before, after),
        keys(after).no_duplicates(),
        described(after),
        unflagged(after),
        forall|j: int|
            0 <= j < after.len() && (#[trigger] after[j]).requested && !(j < before.len()
                && before[j].requested) ==> after[j].derivation is Some && all_done(after, j),
        forall|j: int|
            0 <= j < after.len() && failed_on_dependency(#[trigger] after[j]) && !(j < before.len()
                && failed_on_dependency(before[j])) ==> all_over(after, j),
    ensures
        sound(after),
{
    assert forall|j: int| 0 <= j < after.len() implies #[trigger] settled_at(after, j) by {
        if after[j].requested && j < before.len() && before[j].requested {
            assert(settled_at(before, j));
            lemma_all_kept(before, after, j);
        }
    }
    assert forall|j: int| 0 <= j < after.len() implies #[trigger] joined_at(after, j) by {
        if failed_on_dependency(after[j]) && j < before.len() && failed_on_dependency(before[j]) {
            assert(joined_at(before, j));
            lemma_all_kept(before, after, j);
        }
    }
}

/// One node of a sound client changes, in a way that takes nothing back:
/// the client stays as every reachable client is, apart from the link to
/// the pending requests.
pub proof fn lemma_update(c: ClientView, i: int, node: NodeView)
    requires
        inv_base(c),
        c.stage == Stage::Building,
        0 <= i < c.nodes.len(),
        node.key == c.nodes[i].key,
        !ended(c.nodes[i].phase),
        c.nodes[i].derivation is Some ==> node.derivation is Some
            && node.derivation->0.dependencies() == c.nodes[i].derivation->0.dependencies(),
        described_node(node),
        unflagged_node(node),
        c.nodes[i].requested ==> node.requested,
        c.nodes[i].built_locally ==> node.built_locally,
        node.requested && !c.nodes[i].requested ==> node.derivation is Some
            && c.nodes[i].derivation is Some && all_done(c.nodes, i),
        failed_on_dependency(node) ==> c.nodes[i].derivation is Some && all_over(c.nodes, i),
        i == 0 && c.nodes.len() > 1 ==> !lone(node.phase),
        i == 0 ==> node.phase != Phase::Resolving,
        node.phase == Phase::Failed ==> c.failure is Some,
    ensures
        inv_base(
            ClientView {
                nodes: c.nodes.update(i, node),
                stage: if i == 0 && node.phase == Phase::Failed {
                    Stage::Failed
                } else {
                    c.stage
                },
                ..c
            },
        ),
        grows(c.nodes, c.nodes.update(i, node)),
        keys(c.nodes.update(i, node)) == keys(c.nodes),
{
    let nodes = c.nodes.update(i, node);
    assert(keys(nodes) =~= keys(c.nodes));
    assert forall|j: int| 0 <= j < c.nodes.len() implies {
        &&& (#[trigger] nodes[j]).key == c.nodes[j].key
        &&& c.nodes[j].requested ==> nodes[j].requested
        &&& c.nodes[j].built_locally ==> nodes[j].built_locally
        &&& ended(c.nodes[j].phase) ==> nodes[j].phase == c.nodes[j].phase
        &&& c.nodes[j].derivation is Some ==> nodes[j].derivation is Some && deps_of(nodes, j)
            == deps_of(c.nodes, j)
    } by {}
    assert(grows(c.nodes, nodes));
    assert forall|j: int| 0 <= j < nodes.len() implies described_node(#[trigger] nodes[j]) by {
        if j != i {
            assert(described_node(c.nodes[j]));
        }
    }
    assert forall|j: int| 0 <= j < nodes.len() implies unflagged_node(#[trigger] nodes[j]) by {
        if j != i {
            assert(unflagged_node(c.nodes[j]));
        }
    }
    assert forall|j: int|
        0 <= j < nodes.len() && (#[trigger] nodes[j]).requested && !(j < c.nodes.len()
            && c.nodes[j].requested) implies nodes[j].derivation is Some && all_done(nodes, j) by {
        assert(j == i);
        lemma_all_kept(c.nodes, nodes, i);
    }
    assert forall|j: int|
        0 <= j < nodes.len() && failed_on_dependency(#[trigger] nodes[j]) && !(j < c.nodes.len()
            && failed_on_dependency(c.nodes[j])) implies all_over(nodes, j) by {
        assert(j == i);
        lemma_all_kept(c.nodes, nodes, i);
    }
    lemma_sound_kept(c.nodes, nodes);
}

/// A change of one node that neither starts nor ends its wait for a remote
/// outcome keeps the link to the pending requests.
pub proof fn lemma_update_linked(c: ClientView, i: int, node: NodeView)
    requires
        linked(c),
        0 <= i < c.nodes.len(),
        node.key == c.nodes[i].key,
        (node.phase == Phase::AwaitingRemote) == (c.nodes[i].phase == Phase::AwaitingRemote),
    ensures
        linked(ClientView { nodes: c.nodes.update(i, node), ..c }),
{
    let after = ClientView { nodes: c.nodes.update(i, node), ..c };
    if c.stage == Stage::Building {
        assert forall|j: int| 0 <= j < after.nodes.len() implies #[trigger] linked_at(after, j) by {
            assert(linked_at(c, j));
        }
    }
}

/// A step that does nothing is orderly.
pub proof fn lemma_orderly_still(nodes: Seq<NodeView>)
    ensures
        orderly(nodes, nodes, Seq::<ActionView>::empty()),
{
}

/// Orderly actions followed by orderly actions are orderly, where no key
/// stands twice in the node set that they lead to.
pub proof fn lemma_orderly_then(
    first: Seq<NodeView>,
    middle: Seq<NodeView>,
    last: Seq<NodeView>,
    early: Seq<ActionView>,
    late: Seq<ActionView>,
)
    requires
        orderly(first, middle, early),
        orderly(middle, last, late),
        keys(last).no_duplicates(),
    ensures
        orderly(first, last, early + late),
{
    let all = early + late;
    assert forall|j: int| 0 <= j < first.len() implies {
        &&& (#[trigger] last[j]).key == first[j].key
        &&& first[j].requested ==> last[j].requested
        &&& first[j].built_locally ==> last[j].built_locally
        &&& ended(first[j].phase) ==> last[j].phase == first[j].phase
        &&& first[j].derivation is Some ==> last[j].derivation is Some && deps_of(last, j)
            == deps_of(first, j)
    } by {
        assert(middle[j].key == first[j].key);
        assert(first[j].derivation is Some ==> deps_of(middle, j) == deps_of(first, j));
    }
    assert forall|m: int|
        0 <= m < all.len() && sent_key(#[trigger] all[m]) is Some implies newly_requested(
        first,
        last,
        sent_key(all[m])->0,
    ) by {
        let key = sent_key(all[m])->0;
        if m < early.len() {
            assert(all[m] == early[m]);
            let j = choose|j: int|
                0 <= j < middle.len() && (#[trigger] middle[j]).key == key && middle[j].requested
                    && (j < first.len() ==> !first[j].requested);
            assert(last[j].key == middle[j].key);
        } else {
            assert(all[m] == late[m - early.len()]);
            let j = choose|j: int|
                0 <= j < last.len() && (#[trigger] last[j]).key == key && last[j].requested && (j
                    < middle.len() ==> !middle[j].requested);
            if j < first.len() {
                assert(middle[j].key == first[j].key);
            }
        }
    }
    assert forall|m: int, n: int|
        0 <= m < n < all.len() && sent_key(#[trigger] all[m]) is Some && sent_key(
            #[trigger] all[n],
        ) is Some implies sent_key(all[m]) != sent_key(all[n]) by {
        if n < early.len() {
            assert(all[m] == early[m] && all[n] == early[n]);
        } else if m >= early.len() {
            assert(all[m] == late[m - early.len()] && all[n] == late[n - early.len()]);
        } else {
            assert(all[m] == early[m] && all[n] == late[n - early.len()]);
            let key = sent_key(all[m])->0;
            if sent_key(all[n])->0 == key {
                let a = choose|j: int|
                    0 <= j < middle.len() && (#[trigger] middle[j]).key == key
                        && middle[j].requested && (j < first.len() ==> !first[j].requested);
                let b = choose|j: int|
                    0 <= j < last.len() && (#[trigger] last[j]).key == key && last[j].requested
                        && (j < middle.len() ==> !middle[j].requested);
                assert(last[a].key == middle[a].key);
                assert(keys(last)[a] == key && keys(last)[b] == key);
                assert(a == b);
            }
        }
    }
    assert forall|m: int|
        0 <= m < all.len() && realized_key(#[trigger] all[m]) is Some implies newly_built(
        first,
        last,
        realized_key(all[m])->0,
    ) by {
        let key = realized_key(all[m])->0;
        if m < early.len() {
            assert(all[m] == early[m]);
            let j = choose|j: int|
                0 <= j < middle.len() && (#[trigger] middle[j]).key == key
                    && middle[j].built_locally && (j < first.len() ==> !first[j].built_locally);
            assert(last[j].key == middle[j].key);
        } else {
            assert(all[m] == late[m - early.len()]);
            let j = choose|j: int|
                0 <= j < last.len() && (#[trigger] last[j]).key == key && last[j].built_locally
                    && (j < middle.len() ==> !middle[j].built_locally);
            if j < first.len() {
                assert(middle[j].key == first[j].key);
            }
        }
    }
    assert forall|m: int, n: int|
        0 <= m < n < all.len() && realized_key(#[trigger] all[m]) is Some && realized_key(
            #[trigger] all[n],
        ) is Some implies realized_key(all[m]) != realized_key(all[n]) by {
        if n < early.len() {
            assert(all[m] == early[m] && all[n] == early[n]);
        } else if m >= early.len() {
            assert(all[m] == late[m - early.len()] && all[n] == late[n - early.len()]);
        } else {
            assert(all[m] == early[m] && all[n] == late[n - early.len()]);
            let key = realized_key(all[m])->0;
            if realized_key(all[n])->0 == key {
                let a = choose|j: int|
                    0 <= j < middle.len() && (#[trigger] middle[j]).key == key
                        && middle[j].built_locally && (j < first.len()
                        ==> !first[j].built_locally);
                let b = choose|j: int|
                    0 <= j < last.len() && (#[trigger] last[j]).key == key
                        && last[j].built_locally && (j < middle.len()
                        ==> !middle[j].built_locally);
                assert(last[a].key == middle[a].key);
                assert(keys(last)[a] == key && keys(last)[b] == key);
                assert(a == b);
            }
        }
    }
}

/// A node that is built locally, while no request for its key is pending,
/// keeps the invariant; its local build is the first.
pub proof fn lemma_fall_back(c: ClientView, i: int)
    requires
        inv_base(c),
        c.stage == Stage::Building,
        0 <= i < c.nodes.len(),
        c.nodes[i].phase == Phase::WaitingDependencies || c.nodes[i].phase
            == Phase::AwaitingRemote,
        forall|j: int| 0 <= j < c.nodes.len() && j != i ==> #[trigger] linked_at(c, j),
        !c.server.waiters.contains(c.nodes[i].key),
    ensures
        inv(fall_back(c, i).0),
        orderly(c.nodes, fall_back(c, i).0.nodes, fall_back(c, i).1),
        fall_back(c, i).0.stage == Stage::Building,
        fall_back(c, i).0.server == c.server,
{
    let node = NodeView { phase: Phase::BuildingLocally, built_locally: true, ..c.nodes[i] };
    assert(described_node(c.nodes[i]));
    assert(unflagged_node(c.nodes[i]));
    lemma_update(c, i, node);
    let after = fall_back(c, i).0;
    assert forall|j: int| 0 <= j < after.nodes.len() implies #[trigger] linked_at(after, j) by {
        if j != i {
            assert(linked_at(c, j));
        }
    }
    assert(after.nodes[i].key == c.nodes[i].key && after.nodes[i].built_locally);
    assert(newly_built(c.nodes, after.nodes, c.nodes[i].key));
}

/// Requesting the build of a waiting node whose dependencies are all done
/// keeps the invariant; the request, or the local build that stands in for
/// it, is the first for that node.
pub proof fn lemma_submit(c: ClientView, i: int)
    requires
        inv(c),
        c.stage == Stage::Building,
        0 <= i < c.nodes.len(),
        c.nodes[i].phase == Phase::WaitingDependencies,
        all_done(c.nodes, i),
    ensures
        inv(submit(c, i).0),
        orderly(c.nodes, submit(c, i).0.nodes, submit(c, i).1),
        submit(c, i).0.stage == Stage::Building,
{
    let key = c.nodes[i].key;
    assert(linked_at(c, i));
    assert(described_node(c.nodes[i]));
    assert(unflagged_node(c.nodes[i]));
    if accepts(c.server, key) {
        let node = NodeView { phase: Phase::AwaitingRemote, requested: true, ..c.nodes[i] };
        lemma_update(c, i, node);
        let after = submit(c, i).0;
        let nodes = after.nodes;
        let waiters = after.server.waiters;
        assert(keys(c.nodes)[i] == key);
        assert forall|a: int, b: int|
            0 <= a < waiters.len() && 0 <= b < waiters.len() && a != b implies waiters[a]
            != waiters[b] by {
            if a < c.server.waiters.len() {
                assert(c.server.waiters.contains(waiters[a]));
            }
            if b < c.server.waiters.len() {
                assert(c.server.waiters.contains(waiters[b]));
            }
        }
        assert forall|w: int| 0 <= w < waiters.len() implies keys(nodes).contains(
            #[trigger] waiters[w],
        ) by {
            if w < c.server.waiters.len() {
                assert(keys(c.nodes).contains(c.server.waiters[w]));
            }
        }
        assert forall|j: int| 0 <= j < nodes.len() implies #[trigger] linked_at(after, j) by {
            assert(linked_at(c, j));
            if j != i {
                assert(keys(c.nodes)[j] == c.nodes[j].key);
                assert(c.nodes[j].key != key);
                if waiters.contains(nodes[j].key) {
                    let w = choose|w: int| 0 <= w < waiters.len() && waiters[w] == nodes[j].key;
                    assert(c.server.waiters[w] == nodes[j].key);
                }
                if c.server.waiters.contains(nodes[j].key) {
                    let w = choose|w: int|
                        0 <= w < c.server.waiters.len() && c.server.waiters[w] == nodes[j].key;
                    assert(waiters[w] == nodes[j].key);
                }
            } else {
                assert(waiters[c.server.waiters.len() as int] == key);
            }
        }
        assert(nodes[i].key == key && nodes[i].requested);
        assert(newly_requested(c.nodes, nodes, key));
    } else {
        lemma_fall_back(c, i);
    }
}

/// A node that fails keeps the invariant, apart from the stage where it is
/// the root: it was being resolved or built locally, or it waited and every
/// one of its dependencies has ended.
pub proof fn lemma_failed(c: ClientView, i: int)
    requires
        inv(c),
        c.stage == Stage::Building,
        0 <= i < c.nodes.len(),
        c.nodes[i].phase == Phase::Resolving || c.nodes[i].phase == Phase::BuildingLocally
            || ripe(c.nodes, i),
        c.failure is Some,
    ensures
        inv(failed(c, i)),
        orderly(c.nodes, failed(c, i).nodes, Seq::<ActionView>::empty()),
        failed(c, i).stage == Stage::Building || failed(c, i).stage == Stage::Failed,
{
    let node = NodeView { phase: Phase::Failed, ..c.nodes[i] };
    assert(described_node(c.nodes[i]));
    assert(unflagged_node(c.nodes[i]));
    lemma_update(c, i, node);
    lemma_update_linked(c, i, node);
    assert(failed(c, i).nodes == c.nodes.update(i, node));
}

/// Examining a ripe node keeps the invariant, and what it asks for is
/// orderly.
pub proof fn lemma_examine(c: ClientView, i: int)
    requires
        inv(c),
        c.stage == Stage::Building,
        0 <= i < c.nodes.len(),
        ripe(c.nodes, i),
    ensures
        inv(examine(c, i).0),
        orderly(c.nodes, examine(c, i).0.nodes, examine(c, i).1),
{
    if all_done(c.nodes, i) {
        lemma_submit(c, i);
    } else {
        let d = choose|d: int|
            0 <= d < deps_of(c.nodes, i).len() && !done(c.nodes, #[trigger] deps_of(c.nodes, i)[d]);
        assert(over(c.nodes, deps_of(c.nodes, i)[d]));
        lemma_index_of(c.nodes, deps_of(c.nodes, i)[d]);
        assert(c.nodes[index_of(c.nodes, deps_of(c.nodes, i)[d])].phase == Phase::Failed);
        lemma_failed(c, i);
    }
}

/// The first ripe node from `from` on is ripe, and no node between `from`
/// and it is.
pub proof fn lemma_first_ripe(nodes: Seq<NodeView>, from: int)
    requires
        0 <= from,
    ensures
        from <= first_ripe(nodes, from) || first_ripe(nodes, from) == nodes.len(),
        first_ripe(nodes, from) <= nodes.len(),
        first_ripe(nodes, from) < nodes.len() ==> ripe(nodes, first_ripe(nodes, from)),
        forall|j: int| from <= j < first_ripe(nodes, from) && j < nodes.len() ==> !ripe(nodes, j),
    decreases nodes.len() - from,
{
    if from < nodes.len() && !ripe(nodes, from) {
        lemma_first_ripe(nodes, from + 1);
    }
}

/// Examining ripe nodes, however many rounds, keeps the invariant, and what
/// it asks for is orderly.
pub proof fn lemma_sweep(c: ClientView, rounds: nat)
    requires
        inv(c),
    ensures
        inv(sweep(c, rounds).0),
        orderly(c.nodes, sweep(c, rounds).0.nodes, sweep(c, rounds).1),
    decreases rounds,
{
    lemma_first_ripe(c.nodes, 0);
    if rounds == 0 || c.stage != Stage::Building || first_ripe(c.nodes, 0) >= c.nodes.len() {
    } else {
        let i = first_ripe(c.nodes, 0);
        lemma_examine(c, i);
        let one = examine(c, i);
        lemma_sweep(one.0, (rounds - 1) as nat);
        let rest = sweep(one.0, (rounds - 1) as nat);
        lemma_orderly_then(c.nodes, one.0.nodes, rest.0.nodes, one.1, rest.1);
    }
}

/// A node that fails with an error keeps the invariant, and so does what
/// follows for the nodes that waited for it.
pub proof fn lemma_fail(c: ClientView, i: int, error: ErrorView)
    requires
        inv(c),
        c.stage == Stage::Building,
        0 <= i < c.nodes.len(),
        c.nodes[i].phase == Phase::Resolving || c.nodes[i].phase == Phase::BuildingLocally,
    ensures
        inv(fail(c, i, error).0),
        orderly(c.nodes, fail(c, i, error).0.nodes, fail(c, i, error).1),
{
    let noted = ClientView { failure: recorded(c.failure, error), ..c };
    assert(inv(noted)) by {
        if noted.stage == Stage::Building {
            assert forall|j: int| 0 <= j < noted.nodes.len() implies #[trigger] linked_at(
                noted,
                j,
            ) by {
                assert(linked_at(c, j));
            }
        }
    }
    lemma_failed(noted, i);
    let down = failed(noted, i);
    lemma_sweep(down, down.nodes.len());
    let rest = settle(down);
    lemma_orderly_then(c.nodes, down.nodes, rest.0.nodes, Seq::<ActionView>::empty(), rest.1);
    assert(Seq::<ActionView>::empty() + rest.1 =~= rest.1);
}

/// Recording what was observed of a node changes nothing that the
/// invariant speaks of.
pub proof fn lemma_with_flags(c: ClientView, i: int, local: bool, remote: bool)
    requires
        inv(c),
        c.stage == Stage::Building,
        0 <= i < c.nodes.len(),
        !ended(c.nodes[i].phase),
    ensures
        inv(ClientView { nodes: with_flags(c.nodes, i, local, remote), ..c }),
        grows(c.nodes, with_flags(c.nodes, i, local, remote)),
        with_flags(c.nodes, i, local, remote).len() == c.nodes.len(),
        with_flags(c.nodes, i, local, remote)[i].phase == c.nodes[i].phase,
        with_flags(c.nodes, i, local, remote)[i].key == c.nodes[i].key,
        with_flags(c.nodes, i, local, remote)[i].requested == c.nodes[i].requested,
        with_flags(c.nodes, i, local, remote)[i].built_locally == c.nodes[i].built_locally,
{
    match c.nodes[i].derivation {
        Some(d) => {
            let seen = DerivationView {
                is_local: d.is_local || local,
                is_on_server: d.is_on_server || remote,
                ..d
            };
            let node = NodeView { derivation: Some(seen), ..c.nodes[i] };
            assert(seen.dependencies() =~= d.dependencies());
            assert(seen.slots() =~= d.slots());
            assert(described_node(c.nodes[i]));
            assert(unflagged_node(c.nodes[i]));
            assert(settled_at(c.nodes, i));
            assert(joined_at(c.nodes, i));
            lemma_update(c, i, node);
            lemma_update_linked(c, i, node);
        },
        None => {
            assert(grows(c.nodes, c.nodes));
        },
    }
}

/// A node that moves on to a phase in which it neither waits nor has ended
/// keeps the invariant.
pub proof fn lemma_with_phase(c: ClientView, i: int, phase: Phase)
    requires
        inv(c),
        c.stage == Stage::Building,
        0 <= i < c.nodes.len(),
        !ended(c.nodes[i].phase),
        c.nodes[i].phase != Phase::AwaitingRemote,
        c.nodes[i].phase != Phase::Resolving,
        phase != Phase::AwaitingRemote,
        phase != Phase::Failed,
        phase != Phase::Resolving,
        phase != Phase::BuildingLocally || c.nodes[i].built_locally,
        before_request(phase) ==> before_request(c.nodes[i].phase),
        lone(phase) ==> lone(c.nodes[i].phase),
    ensures
        inv(ClientView { nodes: with_phase(c.nodes, i, phase), ..c }),
        grows(c.nodes, with_phase(c.nodes, i, phase)),
{
    let node = NodeView { phase, ..c.nodes[i] };
    assert(described_node(c.nodes[i]));
    assert(unflagged_node(c.nodes[i]));
    lemma_update(c, i, node);
    lemma_update_linked(c, i, node);
}

/// A node that ends well keeps the invariant, and so does what follows for
/// the nodes that waited for it.
pub proof fn lemma_finish(c: ClientView, i: int)
    requires
        inv(c),
        c.stage == Stage::Building,
        0 <= i < c.nodes.len(),
        c.nodes[i].phase == Phase::UploadingLocal || c.nodes[i].phase == Phase::UploadingBuilt
            || c.nodes[i].phase == Phase::CheckingRemote || c.nodes[i].phase == Phase::Fetching,
    ensures
        inv(finish(c, i).0),
        orderly(c.nodes, finish(c, i).0.nodes, finish(c, i).1),
{
    lemma_with_phase(c, i, Phase::Done);
    let nodes = with_phase(c.nodes, i, Phase::Done);
    let done = ClientView { nodes, ..c };
    if i != 0 {
        lemma_sweep(done, done.nodes.len());
        let rest = settle(done);
        lemma_orderly_then(c.nodes, nodes, rest.0.nodes, Seq::<ActionView>::empty(), rest.1);
        assert(Seq::<ActionView>::empty() + rest.1 =~= rest.1);
    }
}

/// What claiming dependencies does to a node set without a key twice: the
/// nodes that were there stay as they were; each new entry is a claim of one
/// of `deps` that was not there; no key stands twice; and every one of
/// `deps` is there.
pub proof fn lemma_fan_out(nodes: Seq<NodeView>, deps: Seq<Seq<char>>)
    requires
        keys(nodes).no_duplicates(),
    ensures
        fan_out(nodes, deps).len() >= nodes.len(),
        forall|j: int|
            0 <= j < nodes.len() ==> (#[trigger] fan_out(nodes, deps)[j]) == nodes[j],
        forall|j: int|
            nodes.len() <= j < fan_out(nodes, deps).len() ==> (#[trigger] fan_out(nodes, deps)[j])
                == claimed(fan_out(nodes, deps)[j].key) && deps.contains(
                fan_out(nodes, deps)[j].key,
            ) && !keys(nodes).contains(fan_out(nodes, deps)[j].key),
        keys(fan_out(nodes, deps)).no_duplicates(),
        forall|d: int|
            0 <= d < deps.len() ==> keys(fan_out(nodes, deps)).contains(#[trigger] deps[d]),
    decreases deps.len(),
{
    if deps.len() > 0 {
        let fewer = deps.drop_last();
        let before = fan_out(nodes, fewer);
        let after = fan_out(nodes, deps);
        lemma_fan_out(nodes, fewer);
        lemma_index_of(before, deps.last());
        assert forall|j: int| nodes.len() <= j < after.len() implies (#[trigger] after[j])
            == claimed(after[j].key) && deps.contains(after[j].key) && !keys(nodes).contains(
            after[j].key,
        ) by {
            if j < before.len() {
                assert(after[j] == before[j]);
                let d = choose|d: int| 0 <= d < fewer.len() && fewer[d] == before[j].key;
                assert(deps[d] == before[j].key);
            } else {
                assert(deps[deps.len() - 1] == deps.last());
                if keys(nodes).contains(deps.last()) {
                    let at = choose|at: int|
                        0 <= at < keys(nodes).len() && keys(nodes)[at] == deps.last();
                    assert(before[at] == nodes[at]);
                    assert(keys(before)[at] == deps.last());
                }
            }
        }
        assert forall|a: int, b: int|
            0 <= a < keys(after).len() && 0 <= b < keys(after).len() && a != b implies keys(
            after,
        )[a] != keys(after)[b] by {
            if a < before.len() && b < before.len() {
                assert(keys(before)[a] != keys(before)[b]);
            } else if a < before.len() {
                assert(keys(before)[a] == before[a].key);
                assert(keys(before).contains(before[a].key));
            } else if b < before.len() {
                assert(keys(before)[b] == before[b].key);
                assert(keys(before).contains(before[b].key));
            }
        }
        assert forall|d: int| 0 <= d < deps.len() implies keys(after).contains(
            #[trigger] deps[d],
        ) by {
            if d < fewer.len() {
                assert(fewer[d] == deps[d]);
                let j = choose|j: int| 0 <= j < keys(before).len() && keys(before)[j] == fewer[d];
                assert(keys(after)[j] == deps[d]);
            } else {
                if index_of(before, deps.last()) < before.len() {
                    let j = index_of(before, deps.last());
                    assert(keys(after)[j] == deps[d]);
                } else {
                    assert(keys(after)[before.len() as int] == deps[d]);
                }
            }
        }
    }
}

/// Claiming the missing ones of `deps`, once the root waits, keeps the
/// invariant.
pub proof fn lemma_claiming(c: ClientView, deps: Seq<Seq<char>>)
    requires
        inv(c),
        c.stage == Stage::Building,
        !lone(c.nodes[0].phase),
    ensures
        inv(ClientView { nodes: fan_out(c.nodes, deps), ..c }),
        grows(c.nodes, fan_out(c.nodes, deps)),
        forall|j: int|
            0 <= j < c.nodes.len() ==> (#[trigger] fan_out(c.nodes, deps)[j]) == c.nodes[j],
        fan_out(c.nodes, deps).len() >= c.nodes.len(),
        forall|j: int|
            c.nodes.len() <= j < fan_out(c.nodes, deps).len() ==> !(#[trigger] fan_out(
                c.nodes,
                deps,
            )[j]).requested && !fan_out(c.nodes, deps)[j].built_locally,
{
    let nodes = fan_out(c.nodes, deps);
    let after = ClientView { nodes, ..c };
    lemma_fan_out(c.nodes, deps);
    assert forall|j: int| 0 <= j < c.nodes.len() implies {
        &&& (#[trigger] nodes[j]).key == c.nodes[j].key
        &&& c.nodes[j].requested ==> nodes[j].requested
        &&& c.nodes[j].built_locally ==> nodes[j].built_locally
        &&& ended(c.nodes[j].phase) ==> nodes[j].phase == c.nodes[j].phase
        &&& c.nodes[j].derivation is Some ==> nodes[j].derivation is Some && deps_of(nodes, j)
            == deps_of(c.nodes, j)
    } by {
        assert(nodes[j] == c.nodes[j]);
    }
    assert forall|j: int| 0 <= j < nodes.len() implies described_node(#[trigger] nodes[j]) by {
        if j < c.nodes.len() {
            assert(nodes[j] == c.nodes[j]);
            assert(described_node(c.nodes[j]));
        } else {
            assert(nodes[j] == claimed(nodes[j].key));
        }
    }
    assert forall|j: int| 0 <= j < nodes.len() implies unflagged_node(#[trigger] nodes[j]) by {
        if j < c.nodes.len() {
            assert(nodes[j] == c.nodes[j]);
            assert(unflagged_node(c.nodes[j]));
        } else {
            assert(nodes[j] == claimed(nodes[j].key));
        }
    }
    assert forall|j: int|
        0 <= j < nodes.len() && (#[trigger] nodes[j]).requested && !(j < c.nodes.len()
            && c.nodes[j].requested) implies nodes[j].derivation is Some && all_done(nodes, j) by {
        if j < c.nodes.len() {
            assert(nodes[j] == c.nodes[j]);
        } else {
            assert(nodes[j] == claimed(nodes[j].key));
        }
    }
    assert forall|j: int|
        0 <= j < nodes.len() && failed_on_dependency(#[trigger] nodes[j]) && !(j < c.nodes.len()
            && failed_on_dependency(c.nodes[j])) implies all_over(nodes, j) by {
        if j < c.nodes.len() {
            assert(nodes[j] == c.nodes[j]);
        } else {
            assert(nodes[j] == claimed(nodes[j].key));
        }
    }
    lemma_sound_kept(c.nodes, nodes);
    assert(nodes[0] == c.nodes[0]);
    assert forall|w: int| 0 <= w < c.server.waiters.len() implies keys(nodes).contains(
        #[trigger] c.server.waiters[w],
    ) by {
        let wanted = c.server.waiters[w];
        assert(keys(c.nodes).contains(wanted));
        let at = choose|at: int| 0 <= at < keys(c.nodes).len() && keys(c.nodes)[at] == wanted;
        assert(nodes[at] == c.nodes[at]);
        assert(keys(nodes)[at] == wanted);
    }
    assert forall|j: int| 0 <= j < nodes.len() implies #[trigger] linked_at(after, j) by {
        if j < c.nodes.len() {
            assert(nodes[j] == c.nodes[j]);
            assert(linked_at(c, j));
        } else {
            assert(nodes[j] == claimed(nodes[j].key));
            if c.server.waiters.contains(nodes[j].key) {
                let w = choose|w: int|
                    0 <= w < c.server.waiters.len() && c.server.waiters[w] == nodes[j].key;
                assert(keys(c.nodes).contains(c.server.waiters[w]));
            }
        }
    }
    assert forall|j: int| c.nodes.len() <= j < nodes.len() implies !(#[trigger] nodes[j]).requested
        && !nodes[j].built_locally by {
        assert(nodes[j] == claimed(nodes[j].key));
    }
}

/// A node that waits for its dependencies and claims the missing ones keeps
/// the invariant, and so does what follows where they have all ended
/// already.
pub proof fn lemma_fan(c: ClientView, i: int)
    requires
        inv(c),
        c.stage == Stage::Building,
        0 <= i < c.nodes.len(),
        c.nodes[i].phase == Phase::CheckingRemote || c.nodes[i].phase == Phase::Queued,
    ensures
        inv(fan(c, i).0),
        orderly(c.nodes, fan(c, i).0.nodes, fan(c, i).1),
{
    let deps = deps_of(c.nodes, i);
    lemma_with_phase(c, i, Phase::WaitingDependencies);
    let held = ClientView { nodes: with_phase(c.nodes, i, Phase::WaitingDependencies), ..c };
    lemma_claiming(held, deps);
    let waiting = ClientView { nodes: fan_out(held.nodes, deps), ..c };
    let asked = crate::orchestrator::resolves(waiting.nodes, c.nodes.len() as int);
    assert(grows(c.nodes, waiting.nodes)) by {
        assert forall|j: int| 0 <= j < c.nodes.len() implies {
            &&& (#[trigger] waiting.nodes[j]).key == c.nodes[j].key
            &&& c.nodes[j].requested ==> waiting.nodes[j].requested
            &&& c.nodes[j].built_locally ==> waiting.nodes[j].built_locally
            &&& ended(c.nodes[j].phase) ==> waiting.nodes[j].phase == c.nodes[j].phase
            &&& c.nodes[j].derivation is Some ==> waiting.nodes[j].derivation is Some && deps_of(
                waiting.nodes,
                j,
            ) == deps_of(c.nodes, j)
        } by {
            assert(waiting.nodes[j] == held.nodes[j]);
        }
    }
    assert(orderly(c.nodes, waiting.nodes, asked));
    lemma_sweep(waiting, waiting.nodes.len());
    let rest = settle(waiting);
    lemma_orderly_then(c.nodes, waiting.nodes, rest.0.nodes, asked, rest.1);
}

/// An answer of the resolver for a dependency keeps the invariant.
pub proof fn lemma_on_resolved(
    c: ClientView,
    target: Seq<char>,
    result: Result<(Seq<char>, DerivationView), ErrorView>,
)
    requires
        inv(c),
        c.stage == Stage::Building,
    ensures
        inv(on_resolved(c, target, result).0),
        orderly(c.nodes, on_resolved(c, target, result).0.nodes, on_resolved(c, target, result).1),
{
    let i = index_of(c.nodes, target);
    lemma_index_of(c.nodes, target);
    if i < c.nodes.len() && c.nodes[i].phase == Phase::Resolving {
        match result {
            Ok((key, node)) => {
                if crate::orchestrator::describes(target, key, node) {
                    let entry = NodeView {
                        derivation: Some(node),
                        phase: Phase::CheckingLocal,
                        ..c.nodes[i]
                    };
                    assert(described_node(c.nodes[i]));
                    assert(unflagged_node(c.nodes[i]));
                    lemma_update(c, i, entry);
                    lemma_update_linked(c, i, entry);
                } else {
                    lemma_fail(c, i, ErrorView::Resolution(crate::orchestrator::shape_message()));
                }
            },
            Err(e) => {
                lemma_fail(c, i, e);
            },
        }
    }
}

/// The answer of the local store keeps the invariant.
pub proof fn lemma_on_local_checked(c: ClientView, key: Seq<char>, exists: bool)
    requires
        inv(c),
        c.stage == Stage::Building,
    ensures
        inv(on_local_checked(c, key, exists).0),
        orderly(
            c.nodes,
            on_local_checked(c, key, exists).0.nodes,
            on_local_checked(c, key, exists).1,
        ),
{
    let i = index_of(c.nodes, key);
    lemma_index_of(c.nodes, key);
    if i < c.nodes.len() && c.nodes[i].phase == Phase::CheckingLocal {
        if exists {
            lemma_with_flags(c, i, true, false);
            let seen = ClientView { nodes: with_flags(c.nodes, i, true, false), ..c };
            lemma_with_phase(seen, i, Phase::UploadingLocal);
            let nodes = with_phase(seen.nodes, i, Phase::UploadingLocal);
            lemma_grows_then(c.nodes, seen.nodes, nodes);
        } else {
            lemma_with_phase(c, i, Phase::CheckingRemote);
        }
    }
}

/// Growth is transitive.
pub proof fn lemma_grows_then(first: Seq<NodeView>, middle: Seq<NodeView>, last: Seq<NodeView>)
    requires
        grows(first, middle),
        grows(middle, last),
    ensures
        grows(first, last),
{
    assert forall|j: int| 0 <= j < first.len() implies {
        &&& (#[trigger] last[j]).key == first[j].key
        &&& first[j].requested ==> last[j].requested
        &&& first[j].built_locally ==> last[j].built_locally
        &&& ended(first[j].phase) ==> last[j].phase == first[j].phase
        &&& first[j].derivation is Some ==> last[j].derivation is Some && deps_of(last, j)
            == deps_of(first, j)
    } by {
        assert(middle[j].key == first[j].key);
        assert(first[j].derivation is Some ==> deps_of(middle, j) == deps_of(first, j));
    }
}

/// Actions that are orderly from a node set are orderly from an earlier
/// one that differs from it in nothing that the order speaks of.
pub proof fn lemma_orderly_after(
    first: Seq<NodeView>,
    before: Seq<NodeView>,
    after: Seq<NodeView>,
    actions: Seq<ActionView>,
)
    requires
        first.len() == before.len(),
        grows(first, before),
        forall|j: int|
            0 <= j < first.len() ==> (#[trigger] first[j]).requested == before[j].requested
                && first[j].built_locally == before[j].built_locally,
        orderly(before, after, actions),
    ensures
        orderly(first, after, actions),
{
    lemma_grows_then(first, before, after);
    assert forall|m: int|
        0 <= m < actions.len() && sent_key(#[trigger] actions[m]) is Some implies newly_requested(
        first,
        after,
        sent_key(actions[m])->0,
    ) by {
        let key = sent_key(actions[m])->0;
        let j = choose|j: int|
            0 <= j < after.len() && (#[trigger] after[j]).key == key && after[j].requested && (j
                < before.len() ==> !before[j].requested);
        if j < first.len() {
            assert(first[j].requested == before[j].requested);
        }
    }
    assert forall|m: int|
        0 <= m < actions.len() && realized_key(#[trigger] actions[m]) is Some implies newly_built(
        first,
        after,
        realized_key(actions[m])->0,
    ) by {
        let key = realized_key(actions[m])->0;
        let j = choose|j: int|
            0 <= j < after.len() && (#[trigger] after[j]).key == key && after[j].built_locally && (j
                < before.len() ==> !before[j].built_locally);
        if j < first.len() {
            assert(first[j].built_locally == before[j].built_locally);
        }
    }
}

/// A node that ends well after what was observed of it is recorded keeps
/// the invariant.
proof fn lemma_seen_finish(c: ClientView, i: int, local: bool, remote: bool)
    requires
        inv(c),
        c.stage == Stage::Building,
        0 <= i < c.nodes.len(),
        c.nodes[i].phase == Phase::UploadingLocal || c.nodes[i].phase == Phase::CheckingRemote,
    ensures
        inv(finish(ClientView { nodes: with_flags(c.nodes, i, local, remote), ..c }, i).0),
        orderly(
            c.nodes,
            finish(ClientView { nodes: with_flags(c.nodes, i, local, remote), ..c }, i).0.nodes,
            finish(ClientView { nodes: with_flags(c.nodes, i, local, remote), ..c }, i).1,
        ),
{
    lemma_with_flags(c, i, local, remote);
    let seen = ClientView { nodes: with_flags(c.nodes, i, local, remote), ..c };
    lemma_finish(seen, i);
    assert forall|j: int| 0 <= j < c.nodes.len() implies (#[trigger] c.nodes[j]).requested
        == seen.nodes[j].requested && c.nodes[j].built_locally == seen.nodes[j].built_locally by {
        if j != i {
            assert(seen.nodes[j] == c.nodes[j]);
        }
    }
    lemma_orderly_after(c.nodes, seen.nodes, finish(seen, i).0.nodes, finish(seen, i).1);
}

/// The end of a copy to the remote cache keeps the invariant.
pub proof fn lemma_on_uploaded(c: ClientView, key: Seq<char>, ok: bool)
    requires
        inv(c),
        c.stage == Stage::Building,
    ensures
        inv(on_uploaded(c, key, ok).0),
        orderly(c.nodes, on_uploaded(c, key, ok).0.nodes, on_uploaded(c, key, ok).1),
{
    let i = index_of(c.nodes, key);
    lemma_index_of(c.nodes, key);
    if i < c.nodes.len() && c.nodes[i].phase == Phase::UploadingLocal {
        lemma_seen_finish(c, i, false, ok);
    } else if i < c.nodes.len() && c.nodes[i].phase == Phase::UploadingBuilt {
        lemma_finish(c, i);
    }
}

/// The end of a copy from the remote cache keeps the invariant.
pub proof fn lemma_on_pulled(c: ClientView, key: Seq<char>, ok: bool)
    requires
        inv(c),
        c.stage == Stage::Building,
    ensures
        inv(on_pulled(c, key, ok).0),
        orderly(c.nodes, on_pulled(c, key, ok).0.nodes, on_pulled(c, key, ok).1),
{
    let i = index_of(c.nodes, key);
    lemma_index_of(c.nodes, key);
    if i < c.nodes.len() && c.nodes[i].phase == Phase::CheckingRemote {
        if ok {
            lemma_seen_finish(c, i, true, true);
        } else if i == 0 {
            lemma_with_phase(c, 0, Phase::Queued);
        } else {
            lemma_fan(c, i);
        }
    } else if i < c.nodes.len() && c.nodes[i].phase == Phase::Fetching {
        lemma_finish(c, i);
    }
}

/// The end of a local build keeps the invariant.
pub proof fn lemma_on_realized(c: ClientView, key: Seq<char>, outcome: Result<(), Seq<char>>)
    requires
        inv(c),
        c.stage == Stage::Building,
    ensures
        inv(on_realized(c, key, outcome).0),
        orderly(c.nodes, on_realized(c, key, outcome).0.nodes, on_realized(c, key, outcome).1),
{
    let i = index_of(c.nodes, key);
    lemma_index_of(c.nodes, key);
    if i < c.nodes.len() && c.nodes[i].phase == Phase::BuildingLocally {
        match outcome {
            Ok(()) => {
                lemma_with_phase(c, i, Phase::UploadingBuilt);
            },
            Err(text) => {
                lemma_fail(c, i, ErrorView::LocalBuild(text));
            },
        }
    }
}

/// Taking the pending request for `key` out of the table leaves every node
/// but the one with that key linked to the table as it was.
pub proof fn lemma_withdrawn(c: ClientView, key: Seq<char>)
    requires
        inv(c),
        c.stage == Stage::Building,
    ensures
        inv_base(
            ClientView {
                server: ServerConnectionView {
                    waiters: without(c.server.waiters, key),
                    ..c.server
                },
                ..c
            },
        ),
        forall|j: int|
            0 <= j < c.nodes.len() && c.nodes[j].key != key ==> #[trigger] linked_at(
                ClientView {
                    server: ServerConnectionView {
                        waiters: without(c.server.waiters, key),
                        ..c.server
                    },
                    ..c
                },
                j,
            ),
        !without(c.server.waiters, key).contains(key),
{
    let waiters = without(c.server.waiters, key);
    let withdrawn = ClientView { server: ServerConnectionView { waiters, ..c.server }, ..c };
    lemma_without(c.server.waiters, key);
    assert forall|w: int| 0 <= w < waiters.len() implies keys(c.nodes).contains(
        #[trigger] waiters[w],
    ) by {
        assert(waiters.contains(waiters[w]));
        assert(c.server.waiters.contains(waiters[w]));
        let v = choose|v: int| 0 <= v < c.server.waiters.len() && c.server.waiters[v] == waiters[w];
        assert(keys(c.nodes).contains(c.server.waiters[v]));
    }
    assert forall|j: int|
        0 <= j < c.nodes.len() && c.nodes[j].key != key implies #[trigger] linked_at(
        withdrawn,
        j,
    ) by {
        assert(linked_at(c, j));
    }
}

/// A build request that could not be written keeps the invariant.
pub proof fn lemma_on_send_failed(c: ClientView, key: Seq<char>)
    requires
        inv(c),
        c.stage == Stage::Building,
    ensures
        inv(on_send_failed(c, key).0),
        orderly(c.nodes, on_send_failed(c, key).0.nodes, on_send_failed(c, key).1),
{
    let i = index_of(c.nodes, key);
    lemma_index_of(c.nodes, key);
    if i < c.nodes.len() && c.nodes[i].phase == Phase::AwaitingRemote {
        let waiters = without(c.server.waiters, key);
        let withdrawn = ClientView {
            server: ServerConnectionView { waiters, ..c.server },
            ..c
        };
        lemma_withdrawn(c, key);
        assert forall|j: int| 0 <= j < c.nodes.len() && j != i implies #[trigger] linked_at(
            withdrawn,
            j,
        ) by {
            lemma_index_of_own(c.nodes, j);
        }
        lemma_fall_back(withdrawn, i);
    }
}

/// The outcome of a remote build, for a key with no request pending, keeps
/// everything but the link of the node with that key, and restores that
/// link where the node awaited the outcome.
pub proof fn lemma_on_outcome(c: ClientView, key: Seq<char>, success: bool)
    requires
        inv_base(c),
        c.stage == Stage::Building,
        !c.server.waiters.contains(key),
    ensures
        inv_base(on_outcome(c, key, success).0),
        on_outcome(c, key, success).0.stage == Stage::Building,
        on_outcome(c, key, success).0.server == c.server,
        orderly(c.nodes, on_outcome(c, key, success).0.nodes, on_outcome(c, key, success).1),
        on_outcome(c, key, success).0.nodes.len() == c.nodes.len(),
        forall|j: int|
            0 <= j < c.nodes.len() && c.nodes[j].key != key ==> (#[trigger] on_outcome(
                c,
                key,
                success,
            ).0.nodes[j]) == c.nodes[j],
        forall|j: int|
            0 <= j < c.nodes.len() && c.nodes[j].key == key ==> (#[trigger] on_outcome(
                c,
                key,
                success,
            ).0.nodes[j]).phase != Phase::AwaitingRemote && on_outcome(
                c,
                key,
                success,
            ).0.nodes[j].key == key,
        forall|j: int|
            0 <= j < c.nodes.len() && c.nodes[j].key == key && c.nodes[j].phase
                == Phase::AwaitingRemote && !success ==> (#[trigger] on_outcome(
                c,
                key,
                success,
            ).0.nodes[j]).phase == Phase::BuildingLocally && on_outcome(c, key, success).1
                == seq![ActionView::Realize { key }],
        forall|m: int|
            0 <= m < on_outcome(c, key, success).1.len() ==> sent_key(
                #[trigger] on_outcome(c, key, success).1[m],
            ) is None,
{
    let i = index_of(c.nodes, key);
    lemma_index_of(c.nodes, key);
    let after = on_outcome(c, key, success).0;
    let nodes = after.nodes;
    assert forall|j: int| 0 <= j < c.nodes.len() && c.nodes[j].key == key implies j == i by {
        lemma_index_of_own(c.nodes, j);
    }
    if i < c.nodes.len() && c.nodes[i].phase == Phase::AwaitingRemote {
        assert(described_node(c.nodes[i]));
        assert(unflagged_node(c.nodes[i]));
        if success {
            lemma_update(c, i, NodeView { phase: Phase::Fetching, ..c.nodes[i] });
        } else {
            let node = NodeView {
                phase: Phase::BuildingLocally,
                built_locally: true,
                ..c.nodes[i]
            };
            lemma_update(c, i, node);
            assert(nodes[i].key == key && nodes[i].built_locally);
            assert(newly_built(c.nodes, nodes, key));
        }
    } else {
        assert(grows(c.nodes, c.nodes));
    }
}

/// Cancelling the first `k` of the requests `all`, on a connection that has
/// gone down: each node that awaited one of them is now built locally, on an
/// action of its own; the nodes that await an outcome are those of the
/// requests not yet cancelled; no other node has changed.
pub proof fn lemma_cancel_all(c: ClientView, all: Seq<Seq<char>>, k: int)
    requires
        inv_base(c),
        c.stage == Stage::Building,
        c.server.waiters.len() == 0,
        all.no_duplicates(),
        0 <= k <= all.len(),
        forall|j: int|
            0 <= j < c.nodes.len() ==> ((#[trigger] c.nodes[j]).phase == Phase::AwaitingRemote
                <==> all.contains(c.nodes[j].key)),
    ensures
        inv_base(cancel_all(c, all.take(k)).0),
        cancel_all(c, all.take(k)).0.stage == Stage::Building,
        cancel_all(c, all.take(k)).0.server == c.server,
        cancel_all(c, all.take(k)).0.nodes.len() == c.nodes.len(),
        orderly(c.nodes, cancel_all(c, all.take(k)).0.nodes, cancel_all(c, all.take(k)).1),
        forall|j: int|
            0 <= j < c.nodes.len() ==> (#[trigger] cancel_all(c, all.take(k)).0.nodes[j]).key
                == c.nodes[j].key,
        forall|j: int|
            0 <= j < c.nodes.len() ==> ((#[trigger] cancel_all(c, all.take(k)).0.nodes[j]).phase
                == Phase::AwaitingRemote <==> all.contains(c.nodes[j].key) && !all.take(
                k,
            ).contains(c.nodes[j].key)),
        forall|j: int|
            0 <= j < c.nodes.len() && c.nodes[j].phase == Phase::AwaitingRemote && all.take(
                k,
            ).contains(c.nodes[j].key) ==> (#[trigger] cancel_all(c, all.take(k)).0.nodes[j]).phase
                == Phase::BuildingLocally && cancel_all(c, all.take(k)).1.contains(
                ActionView::Realize { key: c.nodes[j].key },
            ),
        forall|j: int|
            0 <= j < c.nodes.len() && c.nodes[j].phase != Phase::AwaitingRemote ==> (
            #[trigger] cancel_all(c, all.take(k)).0.nodes[j]) == c.nodes[j],
        forall|m: int|
            0 <= m < cancel_all(c, all.take(k)).1.len() ==> sent_key(
                #[trigger] cancel_all(c, all.take(k)).1[m],
            ) is None,
    decreases k,
{
    let done = all.take(k);
    if k == 0 {
        assert(done =~= Seq::<Seq<char>>::empty());
        assert(grows(c.nodes, c.nodes));
    } else {
        let fewer = all.take(k - 1);
        let key = all[k - 1];
        assert(done.drop_last() =~= fewer);
        assert(done.last() == key);
        lemma_cancel_all(c, all, k - 1);
        let before = cancel_all(c, fewer);
        let after = on_outcome(before.0, key, false);
        assert(cancel_all(c, done) == (after.0, before.1 + after.1));
        lemma_on_outcome(before.0, key, false);
        lemma_orderly_then(c.nodes, before.0.nodes, after.0.nodes, before.1, after.1);
        assert(!fewer.contains(key)) by {
            if fewer.contains(key) {
                let a = choose|a: int| 0 <= a < fewer.len() && fewer[a] == key;
                assert(all[a] == all[k - 1]);
            }
        }
        assert forall|x: Seq<char>| done.contains(x) <==> (fewer.contains(x) || x == key) by {
            if done.contains(x) {
                let a = choose|a: int| 0 <= a < done.len() && done[a] == x;
                if a < k - 1 {
                    assert(fewer[a] == x);
                }
            }
            if fewer.contains(x) {
                let a = choose|a: int| 0 <= a < fewer.len() && fewer[a] == x;
                assert(done[a] == x);
            }
            if x == key {
                assert(done[k - 1] == x);
            }
        }
        assert(all.contains(key)) by {
            assert(all[k - 1] == key);
        }
        assert forall|j: int| 0 <= j < c.nodes.len() implies ((#[trigger] after.0.nodes[j]).phase
            == Phase::AwaitingRemote <==> all.contains(c.nodes[j].key) && !done.contains(
            c.nodes[j].key,
        )) by {
            assert(before.0.nodes[j].key == c.nodes[j].key);
            if c.nodes[j].key != key {
                assert(after.0.nodes[j] == before.0.nodes[j]);
            }
        }
        assert forall|j: int|
            0 <= j < c.nodes.len() && c.nodes[j].phase == Phase::AwaitingRemote && done.contains(
                c.nodes[j].key,
            ) implies (#[trigger] after.0.nodes[j]).phase == Phase::BuildingLocally && (before.1
            + after.1).contains(ActionView::Realize { key: c.nodes[j].key }) by {
            assert(before.0.nodes[j].key == c.nodes[j].key);
            let wanted = ActionView::Realize { key: c.nodes[j].key };
            if c.nodes[j].key != key {
                assert(after.0.nodes[j] == before.0.nodes[j]);
                assert(fewer.contains(c.nodes[j].key));
                let a = choose|a: int| 0 <= a < before.1.len() && before.1[a] == wanted;
                assert((before.1 + after.1)[a] == wanted);
            } else {
                assert(before.0.nodes[j].phase == Phase::AwaitingRemote);
                assert(after.1 == seq![wanted]);
                assert((before.1 + after.1)[before.1.len() as int] == wanted);
            }
        }
        assert forall|j: int|
            0 <= j < c.nodes.len() && c.nodes[j].phase != Phase::AwaitingRemote implies (
        #[trigger] after.0.nodes[j]) == c.nodes[j] by {
            assert(before.0.nodes[j] == c.nodes[j]);
            assert(before.0.nodes[j].key == c.nodes[j].key);
            if c.nodes[j].key != key {
                assert(after.0.nodes[j] == before.0.nodes[j]);
            } else {
                assert(all.contains(c.nodes[j].key));
            }
        }
        assert forall|j: int| 0 <= j < c.nodes.len() implies (#[trigger] after.0.nodes[j]).key
            == c.nodes[j].key by {
            assert(before.0.nodes[j].key == c.nodes[j].key);
            if c.nodes[j].key != key {
                assert(after.0.nodes[j] == before.0.nodes[j]);
            }
        }
        assert forall|m: int| 0 <= m < (before.1 + after.1).len() implies sent_key(
            #[trigger] (before.1 + after.1)[m],
        ) is None by {
            if m < before.1.len() {
                assert((before.1 + after.1)[m] == before.1[m]);
            } else {
                assert((before.1 + after.1)[m] == after.1[m - before.1.len()]);
            }
        }
    }
}

/// A message from the receive loop keeps the invariant.
pub proof fn lemma_on_message(c: ClientView, message: IncomingView)
    requires
        inv(c),
        c.stage == Stage::Building,
    ensures
        inv(on_message(c, message).0),
        orderly(c.nodes, on_message(c, message).0.nodes, on_message(c, message).1),
{
    let heard = ClientView { server: received(c.server, message).0, ..c };
    match received(c.server, message).1 {
        ReceivedView::Delivered { key, success } => {
            assert(c.server.waiters.contains(key));
            assert(heard.server.waiters == without(c.server.waiters, key));
            lemma_withdrawn(c, key);
            lemma_on_outcome(heard, key, success);
            let after = on_outcome(heard, key, success).0;
            assert forall|j: int| 0 <= j < after.nodes.len() implies #[trigger] linked_at(
                after,
                j,
            ) by {
                if c.nodes[j].key != key {
                    assert(after.nodes[j] == heard.nodes[j]);
                    assert(linked_at(heard, j));
                }
            }
        },
        ReceivedView::Dropped => {
            assert(heard == c);
            assert(grows(c.nodes, c.nodes));
        },
        ReceivedView::Stopped { cancelled } => {
            if c.server.state != ConnectionState::Connected {
                assert(heard == c);
                assert(cancelled =~= Seq::<Seq<char>>::empty());
                assert(grows(c.nodes, c.nodes));
            } else {
                assert(cancelled == c.server.waiters);
                assert(heard.server.waiters.len() == 0);
                assert forall|j: int| 0 <= j < c.nodes.len() implies ((
                #[trigger] heard.nodes[j]).phase == Phase::AwaitingRemote <==> cancelled.contains(
                    heard.nodes[j].key,
                )) by {
                    assert(linked_at(c, j));
                }
                lemma_cancel_all(heard, cancelled, cancelled.len() as int);
                assert(cancelled.take(cancelled.len() as int) =~= cancelled);
                let after = cancel_all(heard, cancelled).0;
                assert forall|j: int| 0 <= j < after.nodes.len() implies #[trigger] linked_at(
                    after,
                    j,
                ) by {
                    assert(after.nodes[j].phase != Phase::AwaitingRemote);
                }
            }
        },
    }
}

/// Every event keeps the invariant while the graph is being built, and the
/// actions it asks for are orderly.
pub proof fn lemma_built(c: ClientView, event: EventView)
    requires
        inv(c),
        c.stage == Stage::Building,
    ensures
        inv(built(c, event).0),
        orderly(c.nodes, built(c, event).0.nodes, built(c, event).1),
{
    match event {
        EventView::Resolved { target, result } => lemma_on_resolved(c, target, result),
        EventView::LocalChecked { key, exists } => lemma_on_local_checked(c, key, exists),
        EventView::Uploaded { key, ok } => lemma_on_uploaded(c, key, ok),
        EventView::Pulled { key, ok } => lemma_on_pulled(c, key, ok),
        EventView::SendFailed { key } => lemma_on_send_failed(c, key),
        EventView::Message(message) => lemma_on_message(c, message),
        EventView::Realized { key, outcome } => lemma_on_realized(c, key, outcome),
        _ => {
            assert(grows(c.nodes, c.nodes));
        },
    }
}

/// The first step of an invocation keeps the invariant.
pub proof fn lemma_started(c: ClientView)
    requires
        inv(c),
    ensures
        inv(started(c).0),
        orderly(c.nodes, started(c).0.nodes, started(c).1),
{
    assert(grows(c.nodes, c.nodes));
}

/// Every event keeps the invariant, and the actions it asks for are orderly.
pub proof fn lemma_stepped(c: ClientView, event: EventView)
    requires
        inv(c),
    ensures
        inv(stepped(c, event).0),
        orderly(c.nodes, stepped(c, event).0.nodes, stepped(c, event).1),
{
    assert(grows(c.nodes, c.nodes));
    match c.stage {
        Stage::ResolvingRoot => {
            match event {
                EventView::Resolved { target, result } => {
                    let after = on_root_resolved(c, result).0;
                    if after.stage == Stage::Building {
                        assert(keys(after.nodes).len() == 1);
                        assert(c.server.waiters.len() == 0) by {
                            if c.server.waiters.len() > 0 {
                                assert(keys(c.nodes).contains(c.server.waiters[0]));
                            }
                        }
                        assert forall|j: int|
                            0 <= j < after.nodes.len() implies #[trigger] linked_at(after, j) by {}
                        assert(deps_of(after.nodes, 0) == deps_of(after.nodes, 0));
                    }
                },
                _ => {},
            }
        },
        Stage::Connecting => {
            match event {
                EventView::Connected { outcome } => {
                    if c.server.state == ConnectionState::Connecting && outcome is Ok {
                        let up = ClientView {
                            stage: Stage::Building,
                            server: ServerConnectionView {
                                state: ConnectionState::Connected,
                                ..c.server
                            },
                            ..c
                        };
                        assert forall|j: int| 0 <= j < up.nodes.len() implies #[trigger] linked_at(
                            up,
                            j,
                        ) by {}
                        lemma_fan(up, 0);
                    }
                },
                _ => {},
            }
        },
        Stage::Building => {
            lemma_built(c, event);
        },
        _ => {},
    }
}

/// No node is ripe: every node that waits for its dependencies has one
/// whose task has not ended. Between two steps no node is left waiting for
/// nothing.
pub open spec fn quiet(c: ClientView) -> bool {
    c.stage == Stage::Building ==> forall|j: int| 0 <= j < c.nodes.len() ==> !ripe(c.nodes, j)
}

/// What holds of a client between two steps: the invariant, and no node is
/// ripe.
pub open spec fn steady(c: ClientView) -> bool {
    inv(c) && quiet(c)
}

/// How many nodes wait for their dependencies.
pub open spec fn waiting(nodes: Seq<NodeView>) -> nat
    decreases nodes.len(),
{
    if nodes.len() == 0 {
        0
    } else {
        waiting(nodes.drop_last()) + (if nodes.last().phase == Phase::WaitingDependencies {
            1nat
        } else {
            0nat
        })
    }
}

/// There are no more waiting nodes than nodes, and where a node waits there
/// is at least one.
pub proof fn lemma_waiting_bounds(nodes: Seq<NodeView>, j: int)
    ensures
        waiting(nodes) <= nodes.len(),
        0 <= j < nodes.len() && nodes[j].phase == Phase::WaitingDependencies ==> waiting(nodes) > 0,
    decreases nodes.len(),
{
    if nodes.len() > 0 {
        lemma_waiting_bounds(nodes.drop_last(), j);
        if 0 <= j < nodes.len() - 1 {
            assert(nodes.drop_last()[j] == nodes[j]);
        }
    }
}

/// A waiting node that stops waiting leaves one waiting node fewer.
pub proof fn lemma_waiting_less(nodes: Seq<NodeView>, i: int, node: NodeView)
    requires
        0 <= i < nodes.len(),
        nodes[i].phase == Phase::WaitingDependencies,
        node.phase != Phase::WaitingDependencies,
    ensures
        waiting(nodes.update(i, node)) + 1 == waiting(nodes),
    decreases nodes.len(),
{
    let after = nodes.update(i, node);
    if i == nodes.len() - 1 {
        assert(after.drop_last() =~= nodes.drop_last());
    } else {
        assert(after.drop_last() =~= nodes.drop_last().update(i, node));
        assert(nodes.drop_last()[i] == nodes[i]);
        lemma_waiting_less(nodes.drop_last(), i, node);
        assert(after.last() == nodes.last());
    }
}

/// Examining ripe nodes for as many rounds as nodes wait leaves no node
/// ripe.
pub proof fn lemma_sweep_quiet(c: ClientView, rounds: nat)
    requires
        rounds >= waiting(c.nodes),
    ensures
        quiet(sweep(c, rounds).0),
    decreases rounds,
{
    lemma_first_ripe(c.nodes, 0);
    let i = first_ripe(c.nodes, 0);
    if c.stage != Stage::Building || i >= c.nodes.len() {
    } else if rounds == 0 {
        lemma_waiting_bounds(c.nodes, i);
    } else {
        let one = examine(c, i);
        let node = one.0.nodes[i];
        assert(one.0.nodes =~= c.nodes.update(i, node));
        lemma_waiting_less(c.nodes, i, node);
        lemma_sweep_quiet(one.0, (rounds - 1) as nat);
    }
}

/// Examining every node that has become ripe leaves no node ripe.
pub proof fn lemma_settle_quiet(c: ClientView)
    ensures
        quiet(settle(c).0),
{
    lemma_waiting_bounds(c.nodes, 0);
    lemma_sweep_quiet(c, c.nodes.len());
}

/// A node that changes without ending and without starting to wait makes
/// no node ripe.
pub proof fn lemma_update_quiet(c: ClientView, i: int, node: NodeView)
    requires
        quiet(c),
        0 <= i < c.nodes.len(),
        node.key == c.nodes[i].key,
        !ended(node.phase),
        node.phase != Phase::WaitingDependencies,
    ensures
        quiet(ClientView { nodes: c.nodes.update(i, node), ..c }),
{
    let nodes = c.nodes.update(i, node);
    assert(keys(nodes) =~= keys(c.nodes));
    if c.stage == Stage::Building {
        assert forall|j: int| 0 <= j < nodes.len() implies !ripe(nodes, j) by {
            if ripe(nodes, j) {
                assert(j != i);
                assert(nodes[j] == c.nodes[j]);
                assert forall|d: int| 0 <= d < deps_of(c.nodes, j).len() implies over(
                    c.nodes,
                    #[trigger] deps_of(c.nodes, j)[d],
                ) by {
                    let dep = deps_of(c.nodes, j)[d];
                    assert(over(nodes, deps_of(nodes, j)[d]));
                    lemma_index_of(c.nodes, dep);
                    let at = index_of(c.nodes, dep);
                    assert(index_of(nodes, dep) == at);
                    if at != i {
                        assert(nodes[at] == c.nodes[at]);
                    }
                }
                assert(ripe(c.nodes, j));
            }
        }
    }
}

/// The outcome of a remote build makes no node ripe.
pub proof fn lemma_on_outcome_quiet(c: ClientView, key: Seq<char>, success: bool)
    requires
        quiet(c),
    ensures
        quiet(on_outcome(c, key, success).0),
{
    let i = index_of(c.nodes, key);
    lemma_index_of(c.nodes, key);
    if i < c.nodes.len() && c.nodes[i].phase == Phase::AwaitingRemote {
        if success {
            lemma_update_quiet(c, i, NodeView { phase: Phase::Fetching, ..c.nodes[i] });
        } else {
            lemma_update_quiet(
                c,
                i,
                NodeView { phase: Phase::BuildingLocally, built_locally: true, ..c.nodes[i] },
            );
        }
    }
}

/// Cancelling requests makes no node ripe.
pub proof fn lemma_cancel_quiet(c: ClientView, keys: Seq<Seq<char>>)
    requires
        quiet(c),
    ensures
        quiet(cancel_all(c, keys).0),
    decreases keys.len(),
{
    if keys.len() > 0 {
        lemma_cancel_quiet(c, keys.drop_last());
        lemma_on_outcome_quiet(cancel_all(c, keys.drop_last()).0, keys.last(), false);
    }
}

/// A change of the connection alone makes no node ripe.
pub proof fn lemma_served_quiet(c: ClientView, server: ServerConnectionView)
    requires
        quiet(c),
    ensures
        quiet(ClientView { server, ..c }),
{
}

/// This event leaves no node ripe.
proof fn lemma_on_resolved_quiet(
    c: ClientView,
    target: Seq<char>,
    result: Result<(Seq<char>, DerivationView), ErrorView>,
)
    requires
        steady(c),
        c.stage == Stage::Building,
    ensures
        quiet(on_resolved(c, target, result).0),
{
    let i = index_of(c.nodes, target);
    lemma_index_of(c.nodes, target);
    if i < c.nodes.len() && c.nodes[i].phase == Phase::Resolving {
        match result {
            Ok((key, node)) => {
                if crate::orchestrator::describes(target, key, node) {
                    lemma_update_quiet(
                        c,
                        i,
                        NodeView {
                            derivation: Some(node),
                            phase: Phase::CheckingLocal,
                            ..c.nodes[i]
                        },
                    );
                } else {
                    lemma_settle_quiet(
                        failed(
                            ClientView {
                                failure: recorded(
                                    c.failure,
                                    ErrorView::Resolution(
                                        crate::orchestrator::shape_message(),
                                    ),
                                ),
                                ..c
                            },
                            i,
                        ),
                    );
                }
            },
            Err(e) => {
                lemma_settle_quiet(
                    failed(ClientView { failure: recorded(c.failure, e), ..c }, i),
                );
            },
        }
    }
}

/// This event leaves no node ripe.
proof fn lemma_on_local_checked_quiet(c: ClientView, key: Seq<char>, exists: bool)
    requires
        steady(c),
        c.stage == Stage::Building,
    ensures
        quiet(on_local_checked(c, key, exists).0),
{
    let i = index_of(c.nodes, key);
    lemma_index_of(c.nodes, key);
    if i < c.nodes.len() && c.nodes[i].phase == Phase::CheckingLocal {
        if exists {
            let seen = with_flags(c.nodes, i, true, false);
            assert(described_node(c.nodes[i]));
            lemma_update_quiet(c, i, seen[i]);
            assert(seen =~= c.nodes.update(i, seen[i]));
            lemma_update_quiet(
                ClientView { nodes: seen, ..c },
                i,
                NodeView { phase: Phase::UploadingLocal, ..seen[i] },
            );
        } else {
            lemma_update_quiet(c, i, NodeView { phase: Phase::CheckingRemote, ..c.nodes[i] });
        }
    }
}

/// This event leaves no node ripe.
proof fn lemma_on_uploaded_quiet(c: ClientView, key: Seq<char>, ok: bool)
    requires
        steady(c),
        c.stage == Stage::Building,
    ensures
        quiet(on_uploaded(c, key, ok).0),
{
    let i = index_of(c.nodes, key);
    lemma_index_of(c.nodes, key);
    if i < c.nodes.len() && c.nodes[i].phase == Phase::UploadingLocal {
        let seen = ClientView { nodes: with_flags(c.nodes, i, false, ok), ..c };
        if i != 0 {
            lemma_settle_quiet(
                ClientView { nodes: with_phase(seen.nodes, i, Phase::Done), ..seen },
            );
        }
    } else if i < c.nodes.len() && c.nodes[i].phase == Phase::UploadingBuilt {
        if i != 0 {
            lemma_settle_quiet(
                ClientView { nodes: with_phase(c.nodes, i, Phase::Done), ..c },
            );
        }
    }
}

/// This event leaves no node ripe.
proof fn lemma_on_pulled_quiet(c: ClientView, key: Seq<char>, ok: bool)
    requires
        steady(c),
        c.stage == Stage::Building,
    ensures
        quiet(on_pulled(c, key, ok).0),
{
    let i = index_of(c.nodes, key);
    lemma_index_of(c.nodes, key);
    if i < c.nodes.len() && c.nodes[i].phase == Phase::CheckingRemote {
        if ok {
            let seen = ClientView { nodes: with_flags(c.nodes, i, true, true), ..c };
            if i != 0 {
                lemma_settle_quiet(
                    ClientView { nodes: with_phase(seen.nodes, i, Phase::Done), ..seen },
                );
            }
        } else if i != 0 {
            lemma_settle_quiet(
                ClientView {
                    nodes: fan_out(
                        with_phase(c.nodes, i, Phase::WaitingDependencies),
                        deps_of(c.nodes, i),
                    ),
                    ..c
                },
            );
        }
    } else if i < c.nodes.len() && c.nodes[i].phase == Phase::Fetching {
        if i != 0 {
            lemma_settle_quiet(
                ClientView { nodes: with_phase(c.nodes, i, Phase::Done), ..c },
            );
        }
    }
}

/// This event leaves no node ripe.
proof fn lemma_on_send_failed_quiet(c: ClientView, key: Seq<char>)
    requires
        steady(c),
        c.stage == Stage::Building,
    ensures
        quiet(on_send_failed(c, key).0),
{
    let i = index_of(c.nodes, key);
    lemma_index_of(c.nodes, key);
    if i < c.nodes.len() && c.nodes[i].phase == Phase::AwaitingRemote {
        let withdrawn = ClientView {
            server: ServerConnectionView {
                waiters: without(c.server.waiters, key),
                ..c.server
            },
            ..c
        };
        lemma_served_quiet(c, withdrawn.server);
        lemma_update_quiet(
            withdrawn,
            i,
            NodeView { phase: Phase::BuildingLocally, built_locally: true, ..c.nodes[i] },
        );
    }
}

/// This event leaves no node ripe.
proof fn lemma_on_message_quiet(c: ClientView, message: IncomingView)
    requires
        steady(c),
        c.stage == Stage::Building,
    ensures
        quiet(on_message(c, message).0),
{
    let heard = ClientView { server: received(c.server, message).0, ..c };
    lemma_served_quiet(c, heard.server);
    match received(c.server, message).1 {
        ReceivedView::Delivered { key, success } => {
            lemma_on_outcome_quiet(heard, key, success);
        },
        ReceivedView::Dropped => {},
        ReceivedView::Stopped { cancelled } => {
            lemma_cancel_quiet(heard, cancelled);
        },
    }
}

/// This event leaves no node ripe.
proof fn lemma_on_realized_quiet(c: ClientView, key: Seq<char>, outcome: Result<(), Seq<char>>)
    requires
        steady(c),
        c.stage == Stage::Building,
    ensures
        quiet(on_realized(c, key, outcome).0),
{
    let i = index_of(c.nodes, key);
    lemma_index_of(c.nodes, key);
    if i < c.nodes.len() && c.nodes[i].phase == Phase::BuildingLocally {
        match outcome {
            Ok(()) => {
                lemma_update_quiet(
                    c,
                    i,
                    NodeView { phase: Phase::UploadingBuilt, ..c.nodes[i] },
                );
            },
            Err(text) => {
                lemma_settle_quiet(
                    failed(
                        ClientView {
                            failure: recorded(c.failure, ErrorView::LocalBuild(text)),
                            ..c
                        },
                        i,
                    ),
                );
            },
        }
    }
}

/// While the graph is being built, every event leaves no node ripe.
pub proof fn lemma_built_quiet(c: ClientView, event: EventView)
    requires
        steady(c),
        c.stage == Stage::Building,
    ensures
        quiet(built(c, event).0),
{
    match event {
        EventView::Resolved { target, result } => lemma_on_resolved_quiet(c, target, result),
        EventView::LocalChecked { key, exists } => lemma_on_local_checked_quiet(c, key, exists),
        EventView::Uploaded { key, ok } => lemma_on_uploaded_quiet(c, key, ok),
        EventView::Pulled { key, ok } => lemma_on_pulled_quiet(c, key, ok),
        EventView::SendFailed { key } => lemma_on_send_failed_quiet(c, key),
        EventView::Message(message) => lemma_on_message_quiet(c, message),
        EventView::Realized { key, outcome } => lemma_on_realized_quiet(c, key, outcome),
        _ => {},
    }
}

/// Every event leaves a steady client steady.
pub proof fn lemma_stepped_steady(c: ClientView, event: EventView)
    requires
        steady(c),
    ensures
        steady(stepped(c, event).0),
        orderly(c.nodes, stepped(c, event).0.nodes, stepped(c, event).1),
{
    lemma_stepped(c, event);
    match c.stage {
        Stage::ResolvingRoot => {
            match event {
                EventView::Resolved { target, result } => {
                    let after = on_root_resolved(c, result).0;
                    if after.stage == Stage::Building {
                        assert(after.nodes[0].phase == Phase::CheckingLocal);
                    }
                },
                _ => {},
            }
        },
        Stage::Connecting => {
            match event {
                EventView::Connected { outcome } => {
                    if c.server.state == ConnectionState::Connecting && outcome is Ok {
                        lemma_settle_quiet(
                            ClientView {
                                stage: Stage::Building,
                                server: ServerConnectionView {
                                    state: ConnectionState::Connected,
                                    ..c.server
                                },
                                nodes: fan_out(
                                    with_phase(c.nodes, 0, Phase::WaitingDependencies),
                                    deps_of(c.nodes, 0),
                                ),
                                ..c
                            },
                        );
                    }
                },
                _ => {},
            }
        },
        Stage::Building => {
            lemma_built_quiet(c, event);
        },
        _ => {},
    }
}

/// The first step of an invocation leaves a steady client steady.
pub proof fn lemma_started_steady(c: ClientView)
    requires
        steady(c),
    ensures
        steady(started(c).0),
{
    lemma_started(c);
}

/// While the graph is being built, every event leaves a steady client
/// steady.
pub proof fn lemma_built_steady(c: ClientView, event: EventView)
    requires
        steady(c),
        c.stage == Stage::Building,
    ensures
        steady(built(c, event).0),
{
    lemma_built(c, event);
    lemma_built_quiet(c, event);
}

/// The client before anything was done is steady.
pub proof fn lemma_initial_steady(
    config: crate::config::ConfigView,
    command: crate::cli::CommandsView,
)
    ensures
        steady(initial(config, command)),
{
}

} // verus!
