//! The client: one invocation, its node set and its connection.
//!
//! A `Client` is driven by events. The caller performs the actions that the
//! client asks for (it runs the resolver, the stores and the transport) and
//! hands each result back as an event; the client answers with the actions
//! that follow.

use crate::cli::{rebuild_word, Cli, Commands, DevelopArgs, RebuildArgs, RunArgs};
use crate::command::{
    develop, develop_line, realize, realize_line, rebuild, rebuild_line, run, run_line, show,
    show_line, Invocation,
};
use crate::config::{env_view, expanded, pattern_text, Config, MissingVariable};
use crate::error::{Error, ErrorView};
use crate::model::{Derivation, DerivationView};
use crate::orchestrator::{
    all_done, all_over, attempt, built, cancel_all, claimed, deps_of, done, examine, fail,
    fail_run, failed, fall_back, fan, fan_out, finish, first_ripe, index_of, initial, keys,
    lemma_fan_out_grows, on_connected, on_local_checked, on_message, on_outcome, on_pulled,
    on_realized, on_resolved, on_root_resolved, on_send_failed, on_uploaded, over, recorded,
    resolves, ripe, settle, shape_message, started, stepped, submit, sweep, with_flags, with_phase,
    ClientView, NodeView, Phase, Stage, BACKOFF_SECONDS, CONNECT_ATTEMPTS,
};
use crate::safety::{
    described, described_node, inv, lemma_built_steady, lemma_initial_steady,
    lemma_started_steady, lemma_stepped_steady, steady, waiting_described,
};
use crate::search::lemma_position;
use crate::server::{handshake_view, ConnectionState, Incoming, Received, ServerConnection};
use crate::step::{actions_view, Action, ActionView, Event};
use vstd::prelude::*;
use vstd::string::*;

verus! {

/// One entry of the node set: a node of the graph and the state of its task.
#[derive(Debug)]
pub struct Node {
    pub key: String,
    pub derivation: Option<Derivation>,
    pub phase: Phase,
    pub requested: bool,
    pub built_locally: bool,
}

impl View for Node {
    type V = NodeView;

    open spec fn view(&self) -> NodeView {
        NodeView {
            key: self.key@,
            derivation: match self.derivation {
                Some(d) => Some(d@),
                None => None,
            },
            phase: self.phase,
            requested: self.requested,
            built_locally: self.built_locally,
        }
    }
}

/// The values of the entries of a node set, in order.
pub open spec fn nodes_view(nodes: Seq<Node>) -> Seq<NodeView> {
    Seq::new(nodes.len(), |i: int| nodes[i]@)
}

/// One invocation of the client.
#[derive(Debug)]
pub struct Client {
    config: Config,
    cli: Cli,
    derivations: Vec<Node>,
    server: ServerConnection,
    stage: Stage,
    failure: Option<Error>,
    attempts_left: u8,
}

impl View for Client {
    type V = ClientView;

    closed spec fn view(&self) -> ClientView {
        ClientView {
            config: self.config@,
            command: self.cli@,
            stage: self.stage,
            nodes: nodes_view(self.derivations@),
            server: self.server@,
            failure: match self.failure {
                Some(e) => Some(e@),
                None => None,
            },
            attempts_left: self.attempts_left,
        }
    }
}

impl Client {
    /// The invariant of a client. `new` establishes it and every method
    /// keeps it.
    pub closed spec fn wf(&self) -> bool {
        self.server.wf() && steady(self@)
    }

    /// A well-formed client is in a state that a run can reach: what the
    /// laws state of such states holds of it.
    pub proof fn law_well_formed(&self)
        requires
            self.wf(),
        ensures
            steady(self@),
            inv(self@),
    {
    }

    /// A client for one invocation: nothing resolved, the channel down.
    pub fn new(config: Config, cli: Cli) -> (client: Self)
        ensures
            client@ == initial(config@, cli@),
            client.wf(),
    {
        let client = Client {
            config,
            cli,
            derivations: Vec::new(),
            server: ServerConnection::new(),
            stage: Stage::Idle,
            failure: None,
            attempts_left: CONNECT_ATTEMPTS,
        };
        assert(client@.nodes =~= Seq::<NodeView>::empty());
        assert(client@.server.waiters =~= Seq::<Seq<char>>::empty());
        proof {
            lemma_initial_steady(config@, cli@);
        }
        client
    }

    /// Where the invocation stands.
    pub fn stage(&self) -> (stage: Stage)
        ensures
            stage == self@.stage,
    {
        self.stage
    }

    /// Whether the invocation has ended, well or in failure.
    pub fn is_over(&self) -> (over: bool)
        ensures
            over == (self@.stage == Stage::Finished || self@.stage == Stage::Failed),
    {
        self.stage == Stage::Finished || self.stage == Stage::Failed
    }

    /// The text to show for the failure of the invocation, once it has
    /// failed: that of the first failure of the run. None while the
    /// invocation has not failed, whatever has failed within it.
    pub fn failure_message(&self) -> (text: Option<String>)
        ensures
            text is Some <==> self@.stage == Stage::Failed && self@.failure is Some,
            text is Some ==> text->0@ == crate::error::fixed_message(self@.failure->0),
    {
        if self.stage != Stage::Failed {
            return None;
        }
        match &self.failure {
            Some(e) => Some(e.message()),
            None => None,
        }
    }

    /// How many nodes are in the node set.
    pub fn len(&self) -> (n: usize)
        ensures
            n == self@.nodes.len(),
    {
        self.derivations.len()
    }

    /// The phase of the node with this key; none where the key is not in
    /// the node set.
    pub fn phase_of(&self, key: &str) -> (phase: Option<Phase>)
        ensures
            phase is Some <==> index_of(self@.nodes, key@) < self@.nodes.len(),
            phase is Some ==> phase->0 == self@.nodes[index_of(self@.nodes, key@)].phase,
    {
        let i = self.find(key);
        if i < self.derivations.len() {
            Some(self.derivations[i].phase)
        } else {
            None
        }
    }

    /// What was observed of the node with this key: whether it is in the
    /// local store and whether it is in the remote cache. None where the
    /// key is not in the node set or the node is not resolved yet.
    pub fn observed(&self, key: &str) -> (flags: Option<(bool, bool)>)
        ensures
            flags is Some <==> index_of(self@.nodes, key@) < self@.nodes.len()
                && self@.nodes[index_of(self@.nodes, key@)].derivation is Some,
            flags is Some ==> flags->0 == (
                self@.nodes[index_of(self@.nodes, key@)].derivation->0.is_local,
                self@.nodes[index_of(self@.nodes, key@)].derivation->0.is_on_server,
            ),
    {
        let i = self.find(key);
        if i < self.derivations.len() {
            match &self.derivations[i].derivation {
                Some(d) => Some((d.is_local, d.is_on_server)),
                None => None,
            }
        } else {
            None
        }
    }

    /// The connection to the relay.
    pub fn server(&self) -> (server: &ServerConnection)
        ensures
            server@ == self@.server,
    {
        &self.server
    }

    /// The configuration that the client was made with.
    pub fn config(&self) -> (config: &Config)
        ensures
            config@ == self@.config,
    {
        &self.config
    }

    /// The command that the client was made for.
    pub fn cli(&self) -> (cli: &Cli)
        ensures
            cli@ == self@.command,
    {
        &self.cli
    }

    /// Starts the invocation. To enter a development environment the
    /// reference is to be resolved first; any other command is to be
    /// launched at once. On a client that was started before, nothing
    /// happens.
    pub fn run(&mut self) -> (actions: Vec<Action>)
        requires
            old(self).wf(),
        ensures
            final(self).wf(),
            final(self)@ == started(old(self)@).0,
            actions_view(actions@) == started(old(self)@).1,
    {
        proof {
            lemma_started_steady(self@);
        }
        if self.stage != Stage::Idle {
            return Self::nothing();
        }
        match &self.cli.command {
            Commands::Develop(args) => {
                let target = args.flake_ref.clone();
                self.stage = Stage::ResolvingRoot;
                Self::only(Action::Resolve { target })
            },
            _ => {
                self.stage = Stage::Launching;
                Self::only(Action::Launch)
            },
        }
    }

    /// Reacts to one event: the client afterwards and the actions that it
    /// asks for are those that `stepped` gives. An event that the stage of
    /// the invocation does not expect changes nothing.
    pub fn step(&mut self, event: Event) -> (actions: Vec<Action>)
        requires
            old(self).wf(),
        ensures
            final(self).wf(),
            final(self)@ == stepped(old(self)@, event@).0,
            actions_view(actions@) == stepped(old(self)@, event@).1,
    {
        proof {
            lemma_stepped_steady(self@, event@);
        }
        match self.stage {
            Stage::ResolvingRoot => match event {
                Event::Resolved { target, result } => self.on_root_resolved(result),
                _ => Self::nothing(),
            },
            Stage::Connecting => match event {
                Event::Connected { outcome } => self.on_connected(outcome),
                Event::BackoffElapsed => {
                    match self.server.state() {
                        ConnectionState::Disconnected => self.connect_to_server(),
                        _ => Self::nothing(),
                    }
                },
                _ => Self::nothing(),
            },
            Stage::Building => self.build(event),
            Stage::Disconnecting => match event {
                Event::Disconnected => {
                    self.server.disconnect();
                    self.stage = Stage::Launching;
                    assert(self@.server.waiters =~= Seq::<Seq<char>>::empty());
                    Self::only(Action::Launch)
                },
                _ => Self::nothing(),
            },
            Stage::Launching => match event {
                Event::Exited => {
                    self.stage = Stage::Finished;
                    Self::nothing()
                },
                _ => Self::nothing(),
            },
            _ => Self::nothing(),
        }
    }

    /// Reacts to one event while the graph is being built: the part of
    /// `step` that walks the graph. The node that the event speaks of moves
    /// on: from the local check to the remote check, from there to the wait
    /// for its dependencies, and once every one of them is done to the
    /// request of its build; on a failed remote build to the local build.
    /// In any other stage nothing happens.
    pub fn build(&mut self, event: Event) -> (actions: Vec<Action>)
        requires
            old(self).wf(),
        ensures
            final(self).wf(),
            old(self)@.stage == Stage::Building ==> final(self)@ == built(old(self)@, event@).0
                && actions_view(actions@) == built(old(self)@, event@).1,
            old(self)@.stage != Stage::Building ==> final(self)@ == old(self)@ && actions@.len()
                == 0,
    {
        if self.stage != Stage::Building {
            return Vec::new();
        }
        proof {
            lemma_built_steady(self@, event@);
            crate::safety::lemma_waiting_described(self@.nodes, 0, false, false);
        }
        match event {
            Event::Resolved { target, result } => self.on_resolved(target, result),
            Event::LocalChecked { key, exists } => self.on_local_checked(key, exists),
            Event::Uploaded { key, ok } => self.on_uploaded(key, ok),
            Event::Pulled { key, ok } => self.on_pulled(key, ok),
            Event::SendFailed { key } => self.on_send_failed(key),
            Event::Message(message) => self.on_message(message),
            Event::Realized { key, outcome } => self.on_realized(key, outcome),
            _ => Self::nothing(),
        }
    }

    /// Asks for a handshake with the relay.
    fn connect_to_server(&mut self) -> (actions: Vec<Action>)
        requires
            old(self).server.wf(),
        ensures
            final(self)@ == attempt(old(self)@).0,
            actions_view(actions@) == attempt(old(self)@).1,
            final(self).server.wf(),
    {
        self.server.connect();
        if self.attempts_left > 0 {
            self.attempts_left = self.attempts_left - 1;
        }
        assert(self@.server.waiters =~= Seq::<Seq<char>>::empty());
        Self::only(Action::Connect { url: self.config.websocket_url() })
    }

    /// Keeps `error` as the failure of the run, unless an earlier one is
    /// kept.
    fn record(&mut self, error: Error)
        ensures
            final(self)@ == (ClientView {
                failure: recorded(old(self)@.failure, error@),
                ..old(self)@
            }),
            final(self).server == old(self).server,
            final(self).derivations == old(self).derivations,
    {
        if self.failure.is_none() {
            self.failure = Some(error);
        }
    }

    /// The invocation fails with `error`.
    fn fail_run(&mut self, error: Error) -> (actions: Vec<Action>)
        ensures
            final(self)@ == fail_run(old(self)@, error@).0,
            actions_view(actions@) == fail_run(old(self)@, error@).1,
            final(self).server == old(self).server,
    {
        self.record(error);
        self.stage = Stage::Failed;
        Self::nothing()
    }

    /// The resolver answered for the reference that the user gave.
    fn on_root_resolved(&mut self, result: Result<(String, Derivation), Error>) -> (actions: Vec<
        Action,
    >)
        requires
            old(self).server.wf(),
            old(self)@.nodes.len() == 0,
        ensures
            final(self)@ == on_root_resolved(old(self)@, resolution_view(result)).0,
            actions_view(actions@) == on_root_resolved(old(self)@, resolution_view(result)).1,
            final(self).server.wf(),
    {
        match result {
            Ok((key, node)) => {
                let path = if node.is_well_formed() {
                    node.primary_output()
                } else {
                    None
                };
                match path {
                    Some(path) => {
                        let ghost root = NodeView {
                            key: key@,
                            derivation: Some(node@),
                            phase: Phase::CheckingLocal,
                            requested: false,
                            built_locally: false,
                        };
                        let asked = key.clone();
                        self.stage = Stage::Building;
                        self.derivations.push(
                            Node {
                                key,
                                derivation: Some(node),
                                phase: Phase::CheckingLocal,
                                requested: false,
                                built_locally: false,
                            },
                        );
                        assert(self@.nodes =~= seq![root]);
                        Self::only(Action::CheckLocal { key: asked, path })
                    },
                    None => self.fail_run(Error::Resolution(shape_text())),
                }
            },
            Err(e) => self.fail_run(e),
        }
    }

    /// The handshake ended.
    fn on_connected(&mut self, outcome: Result<(), String>) -> (actions: Vec<Action>)
        requires
            old(self).wf(),
            old(self)@.stage == Stage::Connecting,
        ensures
            final(self)@ == on_connected(old(self)@, handshake_view(outcome)).0,
            actions_view(actions@) == on_connected(old(self)@, handshake_view(outcome)).1,
            final(self).server.wf(),
    {
        match self.server.state() {
            ConnectionState::Connecting => {},
            _ => {
                return Self::nothing();
            },
        }
        let url = self.config.websocket_url();
        match self.server.handshake_done(url.as_str(), outcome) {
            Ok(()) => {
                self.stage = Stage::Building;
                assert(described_node(self@.nodes[0]));
                self.fan(0)
            },
            Err(error) => {
                if self.attempts_left > 0 {
                    Self::only(Action::Wait { seconds: BACKOFF_SECONDS })
                } else {
                    self.fail_run(error)
                }
            },
        }
    }

    /// The command that runs the executable of a flake, with the extra
    /// arguments of the configuration expanded in `env`.
    pub fn handle_run(&self, args: &RunArgs, env: &Vec<(String, String)>) -> (result: Result<
        Invocation,
        MissingVariable,
    >)
        ensures
            match result {
                Ok(invocation) => expanded(pattern_text(), self@.config.run_args, env_view(env@))
                    is Ok && invocation@ == run_line(
                    args.flake_ref@,
                    expanded(pattern_text(), self@.config.run_args, env_view(env@))->Ok_0,
                ),
                Err(missing) => expanded(pattern_text(), self@.config.run_args, env_view(env@))
                    == Err::<Seq<Seq<char>>, Seq<char>>(missing.name@),
            },
    {
        match self.config.run_args(env) {
            Ok(extra) => Ok(run(args.flake_ref.as_str(), &extra)),
            Err(missing) => Err(missing),
        }
    }

    /// The command that enters the development environment of a flake once
    /// what it needs is built, with the extra arguments of the configuration
    /// expanded in `env`.
    pub fn handle_develop(&self, args: &DevelopArgs, env: &Vec<(String, String)>) -> (result:
        Result<Invocation, MissingVariable>)
        ensures
            match result {
                Ok(invocation) => expanded(
                    pattern_text(),
                    self@.config.develop_args,
                    env_view(env@),
                ) is Ok && invocation@ == develop_line(
                    args.flake_ref@,
                    expanded(pattern_text(), self@.config.develop_args, env_view(env@))->Ok_0,
                ),
                Err(missing) => expanded(pattern_text(), self@.config.develop_args, env_view(env@))
                    == Err::<Seq<Seq<char>>, Seq<char>>(missing.name@),
            },
    {
        match self.config.develop_args(env) {
            Ok(extra) => Ok(develop(args.flake_ref.as_str(), &extra)),
            Err(missing) => Err(missing),
        }
    }

    /// The command that rebuilds the system configuration.
    pub fn handle_rebuild(&self, args: &RebuildArgs) -> (invocation: Invocation)
        ensures
            invocation@ == rebuild_line(rebuild_word(args.rebuild_type), args.flake_ref@),
    {
        let word = args.rebuild_type.into();
        rebuild(word.as_str(), args.flake_ref.as_str())
    }

    /// The command that builds `derivation` in the local store.
    pub fn build_derivation(derivation: &str) -> (invocation: Invocation)
        ensures
            invocation@ == realize_line(derivation@, false),
    {
        realize(derivation, false)
    }

    /// The command that asks the resolver for the node that a flake
    /// reference names.
    pub fn get_derivation_from_flake(flake_ref: &str) -> (invocation: Invocation)
        ensures
            invocation@ == show_line(flake_ref@),
    {
        show(flake_ref)
    }

    /// The command that asks the resolver for the node with this key.
    pub fn get_derivation(derivation: &str) -> (invocation: Invocation)
        ensures
            invocation@ == show_line(derivation@),
    {
        show(derivation)
    }

    /// The failure of the resolver on `target`, with `diagnostic`, the text
    /// that it printed.
    pub fn resolution_failure(target: &str, from_flake: bool, diagnostic: &str) -> (error: Error)
        ensures
            error@ == ErrorView::Resolution(failure_text(target@, from_flake, diagnostic@)),
    {
        let mut text = String::from_str("Failed to get derivation for ");
        if from_flake {
            text.append("flake ");
        }
        text.append("'");
        text.append(target);
        text.append("':\n");
        text.append(diagnostic);
        proof {
            assert(text@ =~= failure_text(target@, from_flake, diagnostic@));
        }
        Error::Resolution(text)
    }

    /// What the resolver's run on `target` amounts to. A run that failed is
    /// a resolution error whose message holds `diagnostic`, what the resolver
    /// printed about it. After a run that succeeded, `parsed` is what was
    /// read from the printed bytes `derivation_raw`: the entries of the
    /// mapping, or why the bytes are no such mapping, which is a resolution
    /// error with that text. The entries are then taken as `parse_derivation`
    /// takes them.
    pub fn resolved(
        target: &str,
        from_flake: bool,
        succeeded: bool,
        diagnostic: &str,
        parsed: Result<Vec<(String, Derivation)>, String>,
        derivation_raw: Vec<u8>,
    ) -> (result: Result<(String, Derivation), Error>)
        ensures
            !succeeded ==> result is Err && result->Err_0@ == ErrorView::Resolution(
                failure_text(target@, from_flake, diagnostic@),
            ),
            succeeded && parsed is Err ==> result is Err && result->Err_0@
                == ErrorView::Resolution(parsed->Err_0@),
            succeeded && parsed is Ok ==> (result is Ok <==> parsed->Ok_0.len() == 1
                && parsed->Ok_0[0].1@.wf()),
            succeeded && parsed is Ok && result is Ok ==> result->Ok_0.0@ == parsed->Ok_0[0].0@
                && result->Ok_0.1@ == (DerivationView {
                derivation_binary: derivation_raw@,
                is_local: false,
                is_on_server: false,
                ..parsed->Ok_0[0].1@
            }),
            succeeded && parsed is Ok && result is Err ==> result->Err_0@
                == ErrorView::Resolution(shape_message()),
    {
        if !succeeded {
            return Err(Self::resolution_failure(target, from_flake, diagnostic));
        }
        match parsed {
            Ok(entries) => Self::parse_derivation(entries, derivation_raw),
            Err(text) => Err(Error::Resolution(text)),
        }
    }

    /// Takes the node out of what the resolver printed. `entries` are the
    /// entries of the mapping that was printed, `derivation_raw` the printed
    /// bytes themselves. The mapping must hold exactly one entry, whose
    /// inputs and outputs are mappings themselves: its key is the identity
    /// of the node, and the node keeps the printed bytes as they are. The
    /// node is fresh: nothing has been observed of it, whatever the printed
    /// record says. Any other mapping is a resolution error.
    pub fn parse_derivation(entries: Vec<(String, Derivation)>, derivation_raw: Vec<u8>) -> (result:
        Result<(String, Derivation), Error>)
        ensures
            result is Ok <==> entries.len() == 1 && entries[0].1@.wf(),
            result is Ok ==> result->Ok_0.0@ == entries[0].0@,
            result is Ok ==> result->Ok_0.1@ == (DerivationView {
                derivation_binary: derivation_raw@,
                is_local: false,
                is_on_server: false,
                ..entries[0].1@
            }),
            result is Ok ==> result->Ok_0.1@.wf(),
            result is Err ==> result->Err_0@ == ErrorView::Resolution(shape_message()),
    {
        let mut entries = entries;
        if entries.len() != 1 {
            return Err(Error::Resolution(shape_text()));
        }
        match entries.pop() {
            Some((key, node)) => {
                if !node.is_well_formed() {
                    return Err(Error::Resolution(shape_text()));
                }
                let mut node = node;
                let ghost before = node@;
                node.derivation_binary = derivation_raw;
                node.is_local = false;
                node.is_on_server = false;
                assert(node@.input_drvs =~= before.input_drvs);
                assert(node@.outputs =~= before.outputs);
                assert(node@.dependencies() =~= before.dependencies());
                assert(node@.slots() =~= before.slots());
                Ok((key, node))
            },
            None => Err(Error::Resolution(shape_text())),
        }
    }

    /// The index of the node with this key, or the number of nodes where
    /// there is none.
    fn find(&self, key: &str) -> (at: usize)
        ensures
            at == index_of(self@.nodes, key@),
            at <= self.derivations.len(),
    {
        let wanted = String::from_str(key);
        let mut at: usize = 0;
        while at < self.derivations.len()
            invariant
                at <= self.derivations.len(),
                wanted@ == key@,
                forall|j: int| 0 <= j < at ==> keys(self@.nodes)[j] != key@,
            decreases self.derivations.len() - at,
        {
            if self.derivations[at].key == wanted {
                proof {
                    lemma_position(keys(self@.nodes), key@, at as int);
                }
                return at;
            }
            at += 1;
        }
        proof {
            lemma_position(keys(self@.nodes), key@, at as int);
        }
        at
    }

    /// No action.
    fn nothing() -> (actions: Vec<Action>)
        ensures
            actions_view(actions@) == Seq::<ActionView>::empty(),
    {
        let actions: Vec<Action> = Vec::new();
        assert(actions_view(actions@) =~= Seq::<ActionView>::empty());
        actions
    }

    /// One action.
    fn only(action: Action) -> (actions: Vec<Action>)
        ensures
            actions_view(actions@) == seq![action@],
    {
        let mut actions: Vec<Action> = Vec::new();
        actions.push(action);
        assert(actions_view(actions@) =~= seq![action@]);
        actions
    }

    /// `first` followed by `then`.
    fn both(first: Vec<Action>, then: Vec<Action>) -> (actions: Vec<Action>)
        ensures
            actions_view(actions@) == actions_view(first@) + actions_view(then@),
    {
        let mut actions = first;
        let mut then = then;
        let ghost early = actions_view(actions@);
        let ghost late = actions_view(then@);
        actions.append(&mut then);
        assert(actions_view(actions@) =~= early + late);
        actions
    }

    /// Builds the node at `i` in the local store.
    fn fall_back(&mut self, i: usize) -> (actions: Vec<Action>)
        requires
            i < old(self).derivations.len(),
        ensures
            final(self)@ == fall_back(old(self)@, i as int).0,
            actions_view(actions@) == fall_back(old(self)@, i as int).1,
            final(self).server == old(self).server,
    {
        let ghost before = self@.nodes;
        let key = self.derivations[i].key.clone();
        self.derivations[i].phase = Phase::BuildingLocally;
        self.derivations[i].built_locally = true;
        assert(self@.nodes =~= before.update(
            i as int,
            NodeView { phase: Phase::BuildingLocally, built_locally: true, ..before[i as int] },
        ));
        Self::only(Action::Realize { key })
    }

    /// Requests the build of the node at `i` from the relay, or builds it
    /// locally where the connection does not take the request.
    fn submit(&mut self, i: usize) -> (actions: Vec<Action>)
        requires
            i < old(self).derivations.len(),
            old(self)@.nodes[i as int].derivation is Some,
            old(self).server.wf(),
        ensures
            final(self)@ == submit(old(self)@, i as int).0,
            actions_view(actions@) == submit(old(self)@, i as int).1,
            final(self).server.wf(),
    {
        let key = self.derivations[i].key.clone();
        let sent = match &self.derivations[i].derivation {
            Some(d) => self.server.send_build_request(
                self.derivations[i].key.clone(),
                &d.derivation_binary,
            ),
            None => Err(Error::Send),
        };
        match sent {
            Ok(frame) => {
                let ghost before = self@.nodes;
                self.derivations[i].phase = Phase::AwaitingRemote;
                self.derivations[i].requested = true;
                assert(self@.nodes =~= before.update(
                    i as int,
                    NodeView { phase: Phase::AwaitingRemote, requested: true, ..before[i as int] },
                ));
                Self::only(Action::Send { key, frame })
            },
            Err(_) => self.fall_back(i),
        }
    }

    /// Whether every dependency of the node at `i` has ended, and whether
    /// every one is done.
    fn dependencies_ended(&self, i: usize) -> (state: (bool, bool))
        requires
            i < self.derivations.len(),
            self@.nodes[i as int].derivation is Some,
        ensures
            state.0 == all_over(self@.nodes, i as int),
            state.1 == all_done(self@.nodes, i as int),
    {
        let ghost deps = deps_of(self@.nodes, i as int);
        let mut all_ended = true;
        let mut all_finished = true;
        match &self.derivations[i].derivation {
            Some(d) => {
                assert(deps == d@.dependencies());
                let mut k: usize = 0;
                while k < d.input_drvs.len()
                    invariant
                        k <= d.input_drvs.len(),
                        deps == d@.dependencies(),
                        deps.len() == d.input_drvs.len(),
                        all_ended == (forall|e: int|
                            0 <= e < k ==> over(self@.nodes, #[trigger] deps[e])),
                        all_finished == (forall|e: int|
                            0 <= e < k ==> done(self@.nodes, #[trigger] deps[e])),
                    decreases d.input_drvs.len() - k,
                {
                    assert(deps[k as int] == d.input_drvs[k as int].0@);
                    let at = self.find(d.input_drvs[k].0.as_str());
                    let mut is_over = false;
                    let mut is_done = false;
                    if at < self.derivations.len() {
                        match self.derivations[at].phase {
                            Phase::Done => {
                                is_over = true;
                                is_done = true;
                            },
                            Phase::Failed => {
                                is_over = true;
                            },
                            _ => {},
                        }
                    }
                    assert(is_over == over(self@.nodes, deps[k as int]));
                    assert(is_done == done(self@.nodes, deps[k as int]));
                    all_ended = all_ended && is_over;
                    all_finished = all_finished && is_done;
                    k += 1;
                }
            },
            None => {},
        }
        (all_ended, all_finished)
    }

    /// The index of the first ripe node, or the number of nodes where none
    /// is ripe.
    fn first_ripe(&self) -> (at: usize)
        requires
            waiting_described(self@.nodes),
        ensures
            at == first_ripe(self@.nodes, 0),
            at <= self.derivations.len(),
            at < self.derivations.len() ==> ripe(self@.nodes, at as int),
    {
        let mut i: usize = 0;
        while i < self.derivations.len()
            invariant
                i <= self.derivations.len(),
                waiting_described(self@.nodes),
                first_ripe(self@.nodes, 0) == first_ripe(self@.nodes, i as int),
            decreases self.derivations.len() - i,
        {
            if self.derivations[i].phase == Phase::WaitingDependencies {
                assert(self@.nodes[i as int].derivation is Some);
                let state = self.dependencies_ended(i);
                if state.0 {
                    return i;
                }
            }
            i += 1;
        }
        i
    }

    /// Decides what becomes of the ripe node at `i`.
    fn examine(&mut self, i: usize) -> (actions: Vec<Action>)
        requires
            i < old(self).derivations.len(),
            old(self)@.nodes[i as int].derivation is Some,
            old(self).server.wf(),
        ensures
            final(self)@ == examine(old(self)@, i as int).0,
            actions_view(actions@) == examine(old(self)@, i as int).1,
            final(self).server.wf(),
    {
        let state = self.dependencies_ended(i);
        if state.1 {
            self.submit(i)
        } else {
            self.failed(i);
            Self::nothing()
        }
    }

    /// Marks the node at `i` as failed.
    fn failed(&mut self, i: usize)
        requires
            i < old(self).derivations.len(),
        ensures
            final(self)@ == failed(old(self)@, i as int),
            final(self).server == old(self).server,
    {
        let ghost before = self@.nodes;
        self.derivations[i].phase = Phase::Failed;
        assert(self@.nodes =~= with_phase(before, i as int, Phase::Failed));
        if i == 0 {
            self.stage = Stage::Failed;
        }
    }

    /// Examines the nodes that have become ripe.
    fn settle(&mut self) -> (actions: Vec<Action>)
        requires
            old(self).server.wf(),
            waiting_described(old(self)@.nodes),
        ensures
            final(self)@ == settle(old(self)@).0,
            actions_view(actions@) == settle(old(self)@).1,
            final(self).server.wf(),
    {
        let mut actions: Vec<Action> = Vec::new();
        let mut rounds: usize = self.derivations.len();
        let mut going = true;
        assert(actions_view(actions@) =~= Seq::<ActionView>::empty());
        assert(Seq::<ActionView>::empty() + settle(self@).1 =~= settle(self@).1);
        while going && rounds > 0
            invariant
                self.server.wf(),
                waiting_described(self@.nodes),
                settle(old(self)@).0 == sweep(self@, if going { rounds as nat } else { 0 }).0,
                settle(old(self)@).1 == actions_view(actions@) + sweep(
                    self@,
                    if going { rounds as nat } else { 0 },
                ).1,
            decreases (if going { 1int } else { 0int }) + rounds,
        {
            let ghost here = self@;
            let ghost asked = actions_view(actions@);
            if self.stage != Stage::Building {
                going = false;
            } else {
                let i = self.first_ripe();
                if i >= self.derivations.len() {
                    going = false;
                } else {
                    assert(here.nodes[i as int].derivation is Some);
                    let more = self.examine(i);
                    let ghost one = actions_view(more@);
                    actions = Self::both(actions, more);
                    rounds = rounds - 1;
                    proof {
                        let rest = sweep(self@, rounds as nat);
                        assert(sweep(here, (rounds + 1) as nat) == (rest.0, one + rest.1));
                        assert(asked + (one + rest.1) =~= (asked + one) + rest.1);
                        assert(waiting_described(self@.nodes)) by {
                            assert forall|j: int|
                                0 <= j < self@.nodes.len() && (#[trigger] self@.nodes[j]).phase
                                    == Phase::WaitingDependencies implies self@.nodes[
                                j
                            ].derivation is Some by {
                                if j != i {
                                    assert(self@.nodes[j] == here.nodes[j]);
                                }
                            }
                        }
                    }
                }
            }
        }
        proof {
            assert(actions_view(actions@) + Seq::<ActionView>::empty() =~= actions_view(actions@));
        }
        actions
    }

    /// The node at `i` fails with `error`.
    fn fail(&mut self, i: usize, error: Error) -> (actions: Vec<Action>)
        requires
            i < old(self).derivations.len(),
            old(self).server.wf(),
            waiting_described(old(self)@.nodes),
        ensures
            final(self)@ == fail(old(self)@, i as int, error@).0,
            actions_view(actions@) == fail(old(self)@, i as int, error@).1,
            final(self).server.wf(),
    {
        self.record(error);
        self.failed(i);
        self.settle()
    }

    /// The node at `i` ends well.
    fn finish(&mut self, i: usize) -> (actions: Vec<Action>)
        requires
            i < old(self).derivations.len(),
            old(self).server.wf(),
            waiting_described(old(self)@.nodes),
        ensures
            final(self)@ == finish(old(self)@, i as int).0,
            actions_view(actions@) == finish(old(self)@, i as int).1,
            final(self).server.wf(),
    {
        let ghost before = self@.nodes;
        self.derivations[i].phase = Phase::Done;
        assert(self@.nodes =~= with_phase(before, i as int, Phase::Done));
        if i != 0 {
            self.settle()
        } else {
            match self.server.state() {
                ConnectionState::Disconnected => {
                    self.stage = Stage::Launching;
                    Self::only(Action::Launch)
                },
                _ => {
                    self.stage = Stage::Disconnecting;
                    Self::only(Action::Disconnect)
                },
            }
        }
    }

    /// The node at `i` waits for its dependencies and claims the missing
    /// ones.
    fn fan(&mut self, i: usize) -> (actions: Vec<Action>)
        requires
            i < old(self).derivations.len(),
            old(self)@.nodes[i as int].derivation is Some,
            old(self).server.wf(),
            waiting_described(old(self)@.nodes),
        ensures
            final(self)@ == fan(old(self)@, i as int).0,
            actions_view(actions@) == fan(old(self)@, i as int).1,
            final(self).server.wf(),
    {
        let deps = match &self.derivations[i].derivation {
            Some(d) => d.get_dependencies(),
            None => Vec::new(),
        };
        let ghost wanted = deps_of(old(self)@.nodes, i as int);
        assert(deps.deep_view() == wanted);
        let start = self.derivations.len();
        self.derivations[i].phase = Phase::WaitingDependencies;
        let ghost held = self@.nodes;
        assert(held =~= with_phase(old(self)@.nodes, i as int, Phase::WaitingDependencies));
        let mut actions: Vec<Action> = Vec::new();
        let mut k: usize = 0;
        assert(wanted.take(0) =~= Seq::<Seq<char>>::empty());
        assert(actions_view(actions@) =~= resolves(self@.nodes, start as int));
        while k < deps.len()
            invariant
                k <= deps.len(),
                deps.deep_view() == wanted,
                start == old(self).derivations.len(),
                i < start,
                self.derivations.len() >= start,
                self@.nodes == fan_out(held, wanted.take(k as int)),
                actions_view(actions@) == resolves(self@.nodes, start as int),
                self.config == old(self).config,
                self.cli == old(self).cli,
                self.server == old(self).server,
                self.stage == old(self).stage,
                self.failure == old(self).failure,
                self.attempts_left == old(self).attempts_left,
            decreases deps.len() - k,
        {
            let ghost before = self@.nodes;
            let ghost asked = actions_view(actions@);
            proof {
                assert(wanted.take(k + 1).drop_last() =~= wanted.take(k as int));
                assert(wanted.take(k + 1).last() == deps[k as int]@);
            }
            let at = self.find(deps[k].as_str());
            if at == self.derivations.len() {
                self.derivations.push(
                    Node {
                        key: deps[k].clone(),
                        derivation: None,
                        phase: Phase::Resolving,
                        requested: false,
                        built_locally: false,
                    },
                );
                actions.push(Action::Resolve { target: deps[k].clone() });
                proof {
                    assert(self@.nodes =~= before.push(claimed(deps[k as int]@)));
                    assert(actions_view(actions@) =~= asked.push(
                        ActionView::Resolve { target: deps[k as int]@ },
                    ));
                    assert(actions_view(actions@) =~= resolves(self@.nodes, start as int));
                }
            }
            k += 1;
        }
        proof {
            assert(wanted.take(deps.len() as int) =~= wanted);
            lemma_fan_out_grows(held, wanted);
            assert forall|j: int|
                0 <= j < self@.nodes.len() && (#[trigger] self@.nodes[j]).phase
                    == Phase::WaitingDependencies implies self@.nodes[j].derivation is Some by {
                if j < start {
                    assert(self@.nodes.take(start as int)[j] == held[j]);
                    if j != i {
                        assert(held[j] == old(self)@.nodes[j]);
                    }
                } else {
                    crate::safety::lemma_fan_out_claims(held, wanted, j);
                }
            }
        }
        let more = self.settle();
        Self::both(actions, more)
    }

    /// Records what was observed of the node at `i`.
    fn observe(&mut self, i: usize, local: bool, remote: bool)
        requires
            i < old(self).derivations.len(),
        ensures
            final(self)@ == (ClientView {
                nodes: with_flags(old(self)@.nodes, i as int, local, remote),
                ..old(self)@
            }),
            final(self).server == old(self).server,
            final(self).derivations.len() == old(self).derivations.len(),
    {
        let ghost before = self@.nodes;
        match &mut self.derivations[i].derivation {
            Some(d) => {
                d.is_local = d.is_local || local;
                d.is_on_server = d.is_on_server || remote;
            },
            None => {},
        }
        assert(self@.nodes =~= with_flags(before, i as int, local, remote));
    }

    /// Moves the node at `i` to `phase`.
    fn enter(&mut self, i: usize, phase: Phase)
        requires
            i < old(self).derivations.len(),
        ensures
            final(self)@ == (ClientView {
                nodes: with_phase(old(self)@.nodes, i as int, phase),
                ..old(self)@
            }),
            final(self).server == old(self).server,
            final(self).derivations.len() == old(self).derivations.len(),
    {
        let ghost before = self@.nodes;
        self.derivations[i].phase = phase;
        assert(self@.nodes =~= with_phase(before, i as int, phase));
    }

    /// The resolver answered for a dependency.
    fn on_resolved(
        &mut self,
        target: String,
        result: Result<(String, Derivation), Error>,
    ) -> (actions: Vec<Action>)
        requires
            old(self).server.wf(),
            waiting_described(old(self)@.nodes),
        ensures
            final(self)@ == on_resolved(old(self)@, target@, resolution_view(result)).0,
            actions_view(actions@) == on_resolved(old(self)@, target@, resolution_view(result)).1,
            final(self).server.wf(),
    {
        let i = self.find(target.as_str());
        if i < self.derivations.len() && self.derivations[i].phase == Phase::Resolving {
            match result {
                Ok((key, node)) => {
                    let path = if key == target && node.is_well_formed() {
                        node.primary_output()
                    } else {
                        None
                    };
                    match path {
                        Some(path) => {
                            let ghost before = self@.nodes;
                            let ghost described = node@;
                            self.derivations[i].derivation = Some(node);
                            self.derivations[i].phase = Phase::CheckingLocal;
                            assert(self@.nodes =~= before.update(
                                i as int,
                                NodeView {
                                    derivation: Some(described),
                                    phase: Phase::CheckingLocal,
                                    ..before[i as int]
                                },
                            ));
                            Self::only(Action::CheckLocal { key: target, path })
                        },
                        None => self.fail(i, Error::Resolution(shape_text())),
                    }
                },
                Err(e) => self.fail(i, e),
            }
        } else {
            Self::nothing()
        }
    }

    /// The local store said whether the primary output exists.
    fn on_local_checked(&mut self, key: String, exists: bool) -> (actions: Vec<Action>)
        requires
            old(self).server.wf(),
        ensures
            final(self)@ == on_local_checked(old(self)@, key@, exists).0,
            actions_view(actions@) == on_local_checked(old(self)@, key@, exists).1,
            final(self).server.wf(),
    {
        let i = self.find(key.as_str());
        if i < self.derivations.len() && self.derivations[i].phase == Phase::CheckingLocal {
            if exists {
                self.observe(i, true, false);
                self.enter(i, Phase::UploadingLocal);
                Self::only(Action::Upload { key })
            } else {
                self.enter(i, Phase::CheckingRemote);
                Self::only(Action::Pull { key })
            }
        } else {
            Self::nothing()
        }
    }

    /// A copy to the remote cache ended.
    fn on_uploaded(&mut self, key: String, ok: bool) -> (actions: Vec<Action>)
        requires
            old(self).server.wf(),
            described(old(self)@.nodes),
        ensures
            final(self)@ == on_uploaded(old(self)@, key@, ok).0,
            actions_view(actions@) == on_uploaded(old(self)@, key@, ok).1,
            final(self).server.wf(),
    {
        let i = self.find(key.as_str());
        if i < self.derivations.len() && self.derivations[i].phase == Phase::UploadingLocal {
            self.observe(i, false, ok);
            proof {
                crate::safety::lemma_waiting_described(old(self)@.nodes, i as int, false, ok);
            }
            self.finish(i)
        } else if i < self.derivations.len() && self.derivations[i].phase
            == Phase::UploadingBuilt {
            proof {
                crate::safety::lemma_waiting_described(old(self)@.nodes, i as int, false, false);
            }
            self.finish(i)
        } else {
            Self::nothing()
        }
    }

    /// A copy from the remote cache ended.
    fn on_pulled(&mut self, key: String, ok: bool) -> (actions: Vec<Action>)
        requires
            old(self).server.wf(),
            described(old(self)@.nodes),
        ensures
            final(self)@ == on_pulled(old(self)@, key@, ok).0,
            actions_view(actions@) == on_pulled(old(self)@, key@, ok).1,
            final(self).server.wf(),
    {
        let i = self.find(key.as_str());
        proof {
            crate::safety::lemma_waiting_described(old(self)@.nodes, i as int, true, true);
        }
        if i < self.derivations.len() && self.derivations[i].phase == Phase::CheckingRemote {
            assert(described_node(old(self)@.nodes[i as int]));
            if ok {
                self.observe(i, true, true);
                self.finish(i)
            } else if i == 0 {
                self.enter(0, Phase::Queued);
                self.stage = Stage::Connecting;
                self.connect_to_server()
            } else {
                self.fan(i)
            }
        } else if i < self.derivations.len() && self.derivations[i].phase == Phase::Fetching {
            self.finish(i)
        } else {
            Self::nothing()
        }
    }

    /// The remote build of `key` ended with `success`.
    fn on_outcome(&mut self, key: &str, success: bool) -> (actions: Vec<Action>)
        requires
            old(self).server.wf(),
        ensures
            final(self)@ == on_outcome(old(self)@, key@, success).0,
            actions_view(actions@) == on_outcome(old(self)@, key@, success).1,
            final(self).server.wf(),
    {
        let i = self.find(key);
        if i < self.derivations.len() && self.derivations[i].phase == Phase::AwaitingRemote {
            proof {
                crate::safety::lemma_index_of(old(self)@.nodes, key@);
            }
            if success {
                self.enter(i, Phase::Fetching);
                Self::only(Action::Pull { key: String::from_str(key) })
            } else {
                self.fall_back(i)
            }
        } else {
            Self::nothing()
        }
    }

    /// The receive loop read a message.
    fn on_message(&mut self, message: Incoming) -> (actions: Vec<Action>)
        requires
            old(self).server.wf(),
        ensures
            final(self)@ == on_message(old(self)@, message@).0,
            actions_view(actions@) == on_message(old(self)@, message@).1,
            final(self).server.wf(),
    {
        match self.server.websocket_receiver(message) {
            Received::Delivered { key, success } => self.on_outcome(key.as_str(), success),
            Received::Dropped => Self::nothing(),
            Received::Stopped { cancelled } => {
                let ghost heard = self@;
                let ghost keys = cancelled.deep_view();
                let mut actions: Vec<Action> = Vec::new();
                let mut k: usize = 0;
                assert(keys.take(0) =~= Seq::<Seq<char>>::empty());
                assert(actions_view(actions@) =~= Seq::<ActionView>::empty());
                while k < cancelled.len()
                    invariant
                        k <= cancelled.len(),
                        keys == cancelled.deep_view(),
                        self.server.wf(),
                        self@ == cancel_all(heard, keys.take(k as int)).0,
                        actions_view(actions@) == cancel_all(heard, keys.take(k as int)).1,
                    decreases cancelled.len() - k,
                {
                    proof {
                        assert(keys.take(k + 1).drop_last() =~= keys.take(k as int));
                        assert(keys.take(k + 1).last() == cancelled[k as int]@);
                    }
                    let ghost asked = actions_view(actions@);
                    let mut more = self.on_outcome(cancelled[k].as_str(), false);
                    let ghost added = actions_view(more@);
                    actions.append(&mut more);
                    assert(actions_view(actions@) =~= asked + added);
                    k += 1;
                }
                assert(keys.take(cancelled.len() as int) =~= keys);
                actions
            },
        }
    }

    /// The transport rejected the build request for `key`.
    fn on_send_failed(&mut self, key: String) -> (actions: Vec<Action>)
        requires
            old(self).server.wf(),
        ensures
            final(self)@ == on_send_failed(old(self)@, key@).0,
            actions_view(actions@) == on_send_failed(old(self)@, key@).1,
            final(self).server.wf(),
    {
        let i = self.find(key.as_str());
        if i < self.derivations.len() && self.derivations[i].phase == Phase::AwaitingRemote {
            self.server.abandon(key.as_str());
            self.fall_back(i)
        } else {
            Self::nothing()
        }
    }

    /// The local build of `key` ended.
    fn on_realized(&mut self, key: String, outcome: Result<(), String>) -> (actions: Vec<Action>)
        requires
            old(self).server.wf(),
            waiting_described(old(self)@.nodes),
        ensures
            final(self)@ == on_realized(old(self)@, key@, realized_view(outcome)).0,
            actions_view(actions@) == on_realized(old(self)@, key@, realized_view(outcome)).1,
            final(self).server.wf(),
    {
        let i = self.find(key.as_str());
        if i < self.derivations.len() && self.derivations[i].phase == Phase::BuildingLocally {
            match outcome {
                Ok(()) => {
                    self.enter(i, Phase::UploadingBuilt);
                    Self::only(Action::Upload { key })
                },
                Err(text) => self.fail(i, Error::LocalBuild(text)),
            }
        } else {
            Self::nothing()
        }
    }
}

/// The text of the failure of the resolver on `target`: for a flake
/// reference `Failed to get derivation for flake '<target>':`, for a key
/// `Failed to get derivation for '<target>':`, and on the next line what the
/// resolver printed.
pub open spec fn failure_text(target: Seq<char>, from_flake: bool, diagnostic: Seq<char>) -> Seq<
    char,
> {
    "Failed to get derivation for "@ + (if from_flake {
        "flake "@
    } else {
        Seq::<char>::empty()
    }) + "'"@ + target + "':\n"@ + diagnostic
}

/// The text of `shape_message`.
fn shape_text() -> (text: String)
    ensures
        text@ == shape_message(),
{
    "the resolver's answer does not describe the requested derivation".to_owned()
}

/// The value of what the resolver answered.
pub open spec fn resolution_view(result: Result<(String, Derivation), Error>) -> Result<
    (Seq<char>, DerivationView),
    ErrorView,
> {
    match result {
        Ok((key, node)) => Ok((key@, node@)),
        Err(e) => Err(e@),
    }
}

/// The value of how a local build ended.
pub open spec fn realized_view(outcome: Result<(), String>) -> Result<(), Seq<char>> {
    match outcome {
        Ok(()) => Ok(()),
        Err(text) => Err(text@),
    }
}

} // verus!
