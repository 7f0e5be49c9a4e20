use nix_relay::cli::{Cli, Commands, DevelopArgs, RebuildArgs, RebuildType, RunArgs};
use nix_relay::client::Client;
use nix_relay::config::Config;
use nix_relay::error::Error;
use nix_relay::model::{Derivation, InputDrvDetails, OutputDetails, System};
use nix_relay::orchestrator::{Phase, Stage};
use nix_relay::server::{ConnectionState, Incoming};
use nix_relay::step::{Action, Event};

fn node(name: &str, deps: &[&str]) -> Derivation {
    Derivation {
        input_drvs: deps
            .iter()
            .map(|d| {
                (
                    d.to_string(),
                    InputDrvDetails { dynamic_outputs: Vec::new(), outputs: vec!["out".to_string()] },
                )
            })
            .collect(),
        name: name.to_string(),
        outputs: vec![("out".to_string(), OutputDetails::new(format!("/nix/store/{}", name)))],
        system: System::X86_64Linux,
        derivation_binary: format!("{{\"{}\":{{}}}}", name).into_bytes(),
        is_local: false,
        is_on_server: false,
    }
}

fn develop_client() -> Client {
    let config = Config::new("relay:4000".to_string(), Vec::new(), Vec::new());
    let cli = Cli { command: Commands::Develop(DevelopArgs { flake_ref: ".".to_string() }) };
    Client::new(config, cli)
}

fn resolved(target: &str, key: &str, deps: &[&str]) -> Event {
    Event::Resolved { target: target.to_string(), result: Ok((key.to_string(), node(key, deps))) }
}

fn text(frame: &str) -> Event {
    Event::Message(Incoming::Text(frame.to_string()))
}

fn checked(key: &str, exists: bool) -> Event {
    Event::LocalChecked { key: key.to_string(), exists }
}

fn pulled(key: &str, ok: bool) -> Event {
    Event::Pulled { key: key.to_string(), ok }
}

fn uploaded(key: &str, ok: bool) -> Event {
    Event::Uploaded { key: key.to_string(), ok }
}

fn realized(key: &str, outcome: Result<(), String>) -> Event {
    Event::Realized { key: key.to_string(), outcome }
}

fn accepted() -> Event {
    Event::Connected { outcome: Ok(()) }
}

fn refused(why: &str) -> Event {
    Event::Connected { outcome: Err(why.to_string()) }
}

fn send(key: &str) -> Action {
    Action::Send { key: key.to_string(), frame: format!("job {} {{\"{}\":{{}}}}", key, key).into_bytes() }
}

fn resolve(target: &str) -> Action {
    Action::Resolve { target: target.to_string() }
}

fn pull(key: &str) -> Action {
    Action::Pull { key: key.to_string() }
}

fn upload(key: &str) -> Action {
    Action::Upload { key: key.to_string() }
}

fn realize(key: &str) -> Action {
    Action::Realize { key: key.to_string() }
}

fn check_local(key: &str) -> Action {
    Action::CheckLocal { key: key.to_string(), path: format!("/nix/store/{}", key) }
}

fn connect() -> Action {
    Action::Connect { url: "ws://relay:4000/client".to_string() }
}

/// A client whose root `R`, with these dependencies, was found in neither
/// store and asks for the relay.
fn wanting_the_relay(deps: &[&str]) -> Client {
    let mut client = develop_client();
    assert_eq!(client.run(), vec![resolve(".")]);
    assert_eq!(client.step(resolved(".", "R", deps)), vec![check_local("R")]);
    assert_eq!(client.stage(), Stage::Building);
    assert_eq!(client.step(checked("R", false)), vec![pull("R")]);
    assert_eq!(client.step(pulled("R", false)), vec![connect()]);
    assert_eq!(client.stage(), Stage::Connecting);
    assert_eq!(client.phase_of("R"), Some(Phase::Queued));
    client
}

/// A client whose root `R` has claimed these dependencies.
fn fanned_out(deps: &[&str]) -> (Client, Vec<Action>) {
    let mut client = wanting_the_relay(deps);
    let actions = client.step(accepted());
    assert_eq!(client.stage(), Stage::Building);
    (client, actions)
}

/// Takes `key` from its resolution to the point where it is in neither
/// store, and returns what it asks for then.
fn not_in_any_store(client: &mut Client, key: &str, deps: &[&str]) -> Vec<Action> {
    assert_eq!(client.step(resolved(key, key, deps)), vec![check_local(key)]);
    assert_eq!(client.step(checked(key, false)), vec![pull(key)]);
    client.step(pulled(key, false))
}

/// Takes the leaf `key` from its resolution to its build request.
fn request_leaf(client: &mut Client, key: &str) {
    assert_eq!(not_in_any_store(client, key, &[]), vec![send(key)]);
}

/// Takes `key` from the relay's success to the end of its task, and returns
/// what follows.
fn built_remotely(client: &mut Client, key: &str) -> Vec<Action> {
    assert_eq!(client.step(text(&format!("{} true", key))), vec![pull(key)]);
    client.step(pulled(key, true))
}

#[test]
fn root_with_two_leaves_is_requested_after_both() {
    let (mut client, actions) = fanned_out(&["A", "B"]);
    assert_eq!(actions, vec![resolve("A"), resolve("B")]);
    assert_eq!(client.phase_of("R"), Some(Phase::WaitingDependencies));
    request_leaf(&mut client, "A");
    request_leaf(&mut client, "B");
    assert_eq!(built_remotely(&mut client, "B"), Vec::new());
    assert_eq!(client.phase_of("R"), Some(Phase::WaitingDependencies));
    assert_eq!(built_remotely(&mut client, "A"), vec![send("R")]);
    assert_eq!(client.phase_of("R"), Some(Phase::AwaitingRemote));
    assert_eq!(built_remotely(&mut client, "R"), vec![Action::Disconnect]);
    assert_eq!(client.stage(), Stage::Disconnecting);
    assert_eq!(client.step(Event::Disconnected), vec![Action::Launch]);
    assert_eq!(client.step(Event::Exited), Vec::new());
    assert_eq!(client.stage(), Stage::Finished);
    assert!(client.is_over());
    assert_eq!(client.failure_message(), None);
}

#[test]
fn node_present_locally_is_uploaded_and_not_walked() {
    let mut client = develop_client();
    client.run();
    assert_eq!(client.step(resolved(".", "X", &["A", "B"])), vec![check_local("X")]);
    assert_eq!(client.step(checked("X", true)), vec![upload("X")]);
    assert_eq!(client.phase_of("X"), Some(Phase::UploadingLocal));
    assert_eq!(client.observed("X"), Some((true, false)));
    assert_eq!(client.step(uploaded("X", false)), vec![Action::Launch]);
    assert_eq!(client.phase_of("X"), Some(Phase::Done));
    assert_eq!(client.observed("X"), Some((true, false)));
    assert_eq!(client.len(), 1);
    assert_eq!(client.phase_of("A"), None);
    assert_eq!(client.server().pending(), 0);
}

#[test]
fn local_root_needs_no_relay() {
    let mut client = develop_client();
    let mut asked = client.run();
    asked.extend(client.step(resolved(".", "X", &["A"])));
    asked.extend(client.step(checked("X", true)));
    asked.extend(client.step(uploaded("X", true)));
    asked.extend(client.step(Event::Exited));
    assert_eq!(asked, vec![resolve("."), check_local("X"), upload("X"), Action::Launch]);
    assert_eq!(client.server().state(), ConnectionState::Disconnected);
    assert_eq!(client.stage(), Stage::Finished);
    assert_eq!(client.observed("X"), Some((true, true)));
}

#[test]
fn root_in_the_remote_cache_needs_no_relay() {
    let mut client = develop_client();
    client.run();
    client.step(resolved(".", "X", &["A"]));
    assert_eq!(client.step(checked("X", false)), vec![pull("X")]);
    assert_eq!(client.step(pulled("X", true)), vec![Action::Launch]);
    assert_eq!(client.observed("X"), Some((true, true)));
    assert_eq!(client.len(), 1);
    assert_eq!(client.server().state(), ConnectionState::Disconnected);
}

#[test]
fn node_in_the_remote_cache_is_not_walked() {
    let (mut client, _) = fanned_out(&["A"]);
    assert_eq!(client.step(resolved("A", "A", &["B"])), vec![check_local("A")]);
    client.step(checked("A", false));
    assert_eq!(client.step(pulled("A", true)), vec![send("R")]);
    assert_eq!(client.observed("A"), Some((true, true)));
    assert_eq!(client.phase_of("B"), None);
}

#[test]
fn failed_remote_build_of_a_leaf_falls_back_to_a_local_build() {
    let (mut client, _) = fanned_out(&["L"]);
    request_leaf(&mut client, "L");
    assert_eq!(client.step(text("L false")), vec![realize("L")]);
    assert_eq!(client.phase_of("L"), Some(Phase::BuildingLocally));
    assert!(!client.server().is_pending("L"));
    assert_eq!(client.step(realized("L", Ok(()))), vec![upload("L")]);
    assert_eq!(client.step(uploaded("L", false)), vec![send("R")]);
    assert_eq!(client.phase_of("L"), Some(Phase::Done));
    assert_eq!(client.step(text("L false")), Vec::new());
    assert_eq!(client.step(text("L true")), Vec::new());
    assert_eq!(client.phase_of("L"), Some(Phase::Done));
}

#[test]
fn failed_local_build_fails_the_node_and_its_dependents() {
    let (mut client, _) = fanned_out(&["L"]);
    request_leaf(&mut client, "L");
    client.step(text("L false"));
    assert_eq!(client.step(realized("L", Err("boom".to_string()))), Vec::new());
    assert_eq!(client.phase_of("L"), Some(Phase::Failed));
    assert_eq!(client.phase_of("R"), Some(Phase::Failed));
    assert_eq!(client.stage(), Stage::Failed);
    assert_eq!(client.failure_message(), Some("boom".to_string()));
    assert_eq!(client.step(text("R true")), Vec::new());
}

#[test]
fn shared_dependency_is_waited_for_by_every_dependent() {
    let (mut client, actions) = fanned_out(&["A", "B"]);
    assert_eq!(actions, vec![resolve("A"), resolve("B")]);
    assert_eq!(not_in_any_store(&mut client, "A", &["C"]), vec![resolve("C")]);
    assert_eq!(not_in_any_store(&mut client, "B", &["C"]), Vec::new());
    assert_eq!(client.phase_of("B"), Some(Phase::WaitingDependencies));
    assert_eq!(client.len(), 4);
    request_leaf(&mut client, "C");
    assert_eq!(client.phase_of("A"), Some(Phase::WaitingDependencies));
    assert_eq!(client.phase_of("B"), Some(Phase::WaitingDependencies));
    assert_eq!(built_remotely(&mut client, "C"), vec![send("A"), send("B")]);
    assert_eq!(built_remotely(&mut client, "A"), Vec::new());
    assert_eq!(built_remotely(&mut client, "B"), vec![send("R")]);
    assert_eq!(client.step(text("C true")), Vec::new());
}

#[test]
fn dependency_that_is_done_already_is_not_waited_for() {
    let (mut client, _) = fanned_out(&["A", "B"]);
    request_leaf(&mut client, "A");
    assert_eq!(built_remotely(&mut client, "A"), Vec::new());
    assert_eq!(not_in_any_store(&mut client, "B", &["A"]), vec![send("B")]);
    assert_eq!(client.len(), 3);
}

#[test]
fn dependency_listed_twice_is_no_node() {
    let mut client = develop_client();
    client.run();
    assert_eq!(client.step(resolved(".", "R", &["A", "A"])), Vec::new());
    assert_eq!(client.stage(), Stage::Failed);
    assert_eq!(
        client.failure_message(),
        Some("the resolver's answer does not describe the requested derivation".to_string())
    );
}

#[test]
fn leaf_root_is_requested_once_the_relay_is_reached() {
    let (client, actions) = fanned_out(&[]);
    assert_eq!(actions, vec![send("R")]);
    assert!(client.server().is_pending("R"));
}

#[test]
fn lost_connection_fails_every_pending_request() {
    let (mut client, _) = fanned_out(&["A", "B", "C"]);
    request_leaf(&mut client, "A");
    request_leaf(&mut client, "B");
    assert_eq!(client.step(resolved("C", "C", &[])), vec![check_local("C")]);
    let actions = client.step(Event::Message(Incoming::Close));
    assert_eq!(actions, vec![realize("A"), realize("B")]);
    assert_eq!(client.phase_of("A"), Some(Phase::BuildingLocally));
    assert_eq!(client.phase_of("B"), Some(Phase::BuildingLocally));
    assert_eq!(client.phase_of("C"), Some(Phase::CheckingLocal));
    assert_eq!(client.server().state(), ConnectionState::Disconnected);
    assert_eq!(client.server().pending(), 0);
}

#[test]
fn node_is_built_locally_when_the_connection_is_lost() {
    let (mut client, _) = fanned_out(&["A"]);
    client.step(resolved("A", "A", &[]));
    client.step(checked("A", false));
    client.step(Event::Message(Incoming::Failure));
    assert_eq!(client.step(pulled("A", false)), vec![realize("A")]);
    assert_eq!(client.phase_of("A"), Some(Phase::BuildingLocally));
    assert_eq!(client.stage(), Stage::Building);
    assert_eq!(client.step(realized("A", Ok(()))), vec![upload("A")]);
    assert_eq!(client.step(uploaded("A", true)), vec![realize("R")]);
    assert_eq!(client.step(realized("R", Ok(()))), vec![upload("R")]);
    assert_eq!(client.step(uploaded("R", false)), vec![Action::Launch]);
}

#[test]
fn rejected_write_withdraws_the_request_and_builds_locally() {
    let (mut client, _) = fanned_out(&["A"]);
    request_leaf(&mut client, "A");
    assert!(client.server().is_pending("A"));
    assert_eq!(client.step(Event::SendFailed { key: "A".to_string() }), vec![realize("A")]);
    assert!(!client.server().is_pending("A"));
    assert_eq!(client.phase_of("A"), Some(Phase::BuildingLocally));
    assert_eq!(client.phase_of("R"), Some(Phase::WaitingDependencies));
    assert_eq!(client.stage(), Stage::Building);
    assert_eq!(client.step(Event::SendFailed { key: "A".to_string() }), Vec::new());
}

#[test]
fn key_with_a_space_is_built_locally() {
    let (mut client, _) = fanned_out(&["a b"]);
    assert_eq!(not_in_any_store(&mut client, "a b", &[]), vec![realize("a b")]);
    assert_eq!(client.server().pending(), 0);
    assert_eq!(client.phase_of("a b"), Some(Phase::BuildingLocally));
}

#[test]
fn failed_dependency_lets_its_siblings_run_to_their_end() {
    let (mut client, _) = fanned_out(&["A", "B"]);
    request_leaf(&mut client, "B");
    let failed = Event::Resolved {
        target: "A".to_string(),
        result: Err(Error::Resolution("no such derivation".to_string())),
    };
    assert_eq!(client.step(failed), Vec::new());
    assert_eq!(client.phase_of("A"), Some(Phase::Failed));
    assert_eq!(client.phase_of("R"), Some(Phase::WaitingDependencies));
    assert_eq!(client.phase_of("B"), Some(Phase::AwaitingRemote));
    assert_eq!(client.stage(), Stage::Building);
    assert_eq!(client.failure_message(), None);
    assert_eq!(client.step(text("B true")), vec![pull("B")]);
    assert_eq!(client.step(pulled("B", true)), Vec::new());
    assert_eq!(client.phase_of("B"), Some(Phase::Done));
    assert_eq!(client.phase_of("R"), Some(Phase::Failed));
    assert_eq!(client.stage(), Stage::Failed);
    assert_eq!(client.failure_message(), Some("no such derivation".to_string()));
    assert_eq!(client.server().pending(), 0);
}

#[test]
fn failure_passes_up_through_every_dependent_that_has_nothing_left_to_wait_for() {
    let (mut client, _) = fanned_out(&["A", "B"]);
    assert_eq!(not_in_any_store(&mut client, "A", &["C"]), vec![resolve("C")]);
    assert_eq!(not_in_any_store(&mut client, "B", &["C"]), Vec::new());
    let failed = Event::Resolved {
        target: "C".to_string(),
        result: Err(Error::Resolution("gone".to_string())),
    };
    assert_eq!(client.step(failed), Vec::new());
    assert_eq!(client.phase_of("C"), Some(Phase::Failed));
    assert_eq!(client.phase_of("A"), Some(Phase::Failed));
    assert_eq!(client.phase_of("B"), Some(Phase::Failed));
    assert_eq!(client.phase_of("R"), Some(Phase::Failed));
    assert_eq!(client.stage(), Stage::Failed);
    assert_eq!(client.failure_message(), Some("gone".to_string()));
}

#[test]
fn answer_for_another_key_is_a_resolution_error() {
    let (mut client, _) = fanned_out(&["A"]);
    assert_eq!(client.step(resolved("A", "Z", &[])), Vec::new());
    assert_eq!(client.phase_of("A"), Some(Phase::Failed));
    assert_eq!(client.stage(), Stage::Failed);
    assert_eq!(
        client.failure_message(),
        Some("the resolver's answer does not describe the requested derivation".to_string())
    );
}

#[test]
fn node_without_primary_output_is_a_resolution_error() {
    let mut client = develop_client();
    client.run();
    let mut bare = node("R", &[]);
    bare.outputs = vec![("dev".to_string(), OutputDetails::new("/nix/store/dev".to_string()))];
    let actions =
        client.step(Event::Resolved { target: ".".to_string(), result: Ok(("R".to_string(), bare)) });
    assert_eq!(actions, Vec::new());
    assert_eq!(client.stage(), Stage::Failed);
}

#[test]
fn root_that_does_not_resolve_fails_the_invocation() {
    let mut client = develop_client();
    client.run();
    let error = Client::resolution_failure(".", true, "error: no flake");
    assert_eq!(
        error,
        Error::Resolution("Failed to get derivation for flake '.':\nerror: no flake".to_string())
    );
    assert_eq!(
        client.step(Event::Resolved { target: ".".to_string(), result: Err(error) }),
        Vec::new()
    );
    assert_eq!(client.stage(), Stage::Failed);
    assert_eq!(
        client.failure_message(),
        Some("Failed to get derivation for flake '.':\nerror: no flake".to_string())
    );
}

#[test]
fn resolution_failure_for_a_key() {
    assert_eq!(
        Client::resolution_failure("/nix/store/a.drv", false, "gone"),
        Error::Resolution("Failed to get derivation for '/nix/store/a.drv':\ngone".to_string())
    );
}

#[test]
fn refused_handshake_is_retried_and_then_fails() {
    let mut client = wanting_the_relay(&[]);
    let wait = vec![Action::Wait { seconds: 2 }];
    assert_eq!(client.step(Event::BackoffElapsed), Vec::new());
    assert_eq!(client.step(refused("timed out")), wait);
    assert_eq!(client.step(accepted()), Vec::new());
    assert_eq!(client.step(Event::BackoffElapsed), vec![connect()]);
    assert_eq!(client.step(refused("timed out")), wait);
    assert_eq!(client.step(Event::BackoffElapsed), vec![connect()]);
    assert_eq!(client.step(refused("connection refused")), Vec::new());
    assert_eq!(client.stage(), Stage::Failed);
    assert_eq!(
        client.failure_message(),
        Some("Failed to connect to server ws://relay:4000/client: connection refused".to_string())
    );
}

#[test]
fn handshake_that_succeeds_on_a_retry_starts_the_walk() {
    let mut client = wanting_the_relay(&["A"]);
    client.step(refused("busy"));
    client.step(Event::BackoffElapsed);
    assert_eq!(client.step(accepted()), vec![resolve("A")]);
    assert_eq!(client.stage(), Stage::Building);
    assert_eq!(client.phase_of("R"), Some(Phase::WaitingDependencies));
}

#[test]
fn events_that_the_stage_does_not_expect_change_nothing() {
    let mut client = develop_client();
    assert_eq!(client.step(checked("R", true)), Vec::new());
    assert_eq!(client.stage(), Stage::Idle);
    client.run();
    assert_eq!(client.run(), Vec::new());
    assert_eq!(client.step(accepted()), Vec::new());
    assert_eq!(client.stage(), Stage::ResolvingRoot);
    let (mut building, _) = fanned_out(&["A"]);
    assert_eq!(building.step(checked("A", true)), Vec::new());
    assert_eq!(building.step(checked("nobody", true)), Vec::new());
    assert_eq!(building.step(uploaded("R", true)), Vec::new());
    assert_eq!(building.step(accepted()), Vec::new());
    assert_eq!(building.step(Event::Exited), Vec::new());
    assert_eq!(building.phase_of("A"), Some(Phase::Resolving));
    assert_eq!(building.phase_of("R"), Some(Phase::WaitingDependencies));
}

#[test]
fn other_commands_are_launched_at_once() {
    let config = Config::new("relay".to_string(), Vec::new(), vec!["--fast".to_string()]);
    let cli = Cli { command: Commands::Run(RunArgs { flake_ref: ".#app".to_string() }) };
    let mut client = Client::new(config, cli);
    assert_eq!(client.run(), vec![Action::Launch]);
    assert_eq!(client.stage(), Stage::Launching);
    let line = client.handle_run(&RunArgs { flake_ref: ".#app".to_string() }, &Vec::new()).unwrap();
    assert_eq!(line.program, "nix");
    assert_eq!(line.args, vec!["run", ".#app", "--fast"]);
    assert_eq!(client.step(Event::Exited), Vec::new());
    assert_eq!(client.stage(), Stage::Finished);
}

#[test]
fn command_lines_of_the_client() {
    let config = Config::new("relay".to_string(), vec!["--impure".to_string()], Vec::new());
    let cli = Cli {
        command: Commands::Rebuild(RebuildArgs {
            rebuild_type: RebuildType::DryBuild,
            flake_ref: ".#host".to_string(),
        }),
    };
    let client = Client::new(config, cli);
    let rebuild = client.handle_rebuild(&RebuildArgs {
        rebuild_type: RebuildType::DryBuild,
        flake_ref: ".#host".to_string(),
    });
    assert_eq!(rebuild.program, "nixos-rebuild");
    assert_eq!(rebuild.args, vec!["dry-build", "--flake", ".#host"]);
    let develop =
        client.handle_develop(&DevelopArgs { flake_ref: ".".to_string() }, &Vec::new()).unwrap();
    assert_eq!(develop.program, "nix");
    assert_eq!(develop.args, vec!["develop", ".", "-j", "0", "--impure"]);
    let build = Client::build_derivation("/nix/store/a.drv");
    assert_eq!(build.program, "nix-store");
    assert_eq!(build.args, vec!["--realize", "/nix/store/a.drv"]);
    assert_eq!(
        Client::get_derivation("/nix/store/a.drv").args,
        vec!["derivation", "show", "/nix/store/a.drv"]
    );
    assert_eq!(Client::get_derivation_from_flake(".#x").args, vec!["derivation", "show", ".#x"]);
}

#[test]
fn parse_derivation_takes_the_single_entry_and_keeps_the_bytes() {
    let raw = b"{ \"R\" : {} }".to_vec();
    let (key, parsed) =
        Client::parse_derivation(vec![("R".to_string(), node("R", &["A"]))], raw.clone()).unwrap();
    assert_eq!(key, "R");
    assert_eq!(parsed.derivation_binary, raw);
    assert_eq!(parsed.get_dependencies(), vec!["A".to_string()]);
    assert_eq!(parsed.name, "R");
}

#[test]
fn freshly_resolved_node_carries_no_observation() {
    let mut flagged = node("R", &[]);
    flagged.is_local = true;
    flagged.is_on_server = true;
    let (_, parsed) =
        Client::parse_derivation(vec![("R".to_string(), flagged)], Vec::new()).unwrap();
    assert!(!parsed.is_local);
    assert!(!parsed.is_on_server);
}

#[test]
fn parse_derivation_refuses_any_other_mapping() {
    let shape = || {
        Error::Resolution(
            "the resolver's answer does not describe the requested derivation".to_string(),
        )
    };
    assert_eq!(Client::parse_derivation(Vec::new(), Vec::new()), Err(shape()));
    let two = vec![("A".to_string(), node("A", &[])), ("B".to_string(), node("B", &[]))];
    assert_eq!(Client::parse_derivation(two, Vec::new()), Err(shape()));
    let twice = vec![("A".to_string(), node("A", &["B", "C", "B"]))];
    assert_eq!(Client::parse_derivation(twice, Vec::new()), Err(shape()));
    let mut slots = node("A", &[]);
    slots.outputs.push(("out".to_string(), OutputDetails::new("/nix/store/other".to_string())));
    assert_eq!(Client::parse_derivation(vec![("A".to_string(), slots)], Vec::new()), Err(shape()));
}

#[test]
fn resolver_run_that_failed_is_a_resolution_error() {
    let result =
        Client::resolved("/nix/store/a.drv", false, false, "gone", Ok(Vec::new()), Vec::new());
    assert_eq!(
        result,
        Err(Error::Resolution("Failed to get derivation for '/nix/store/a.drv':\ngone".to_string()))
    );
}

#[test]
fn resolver_output_that_does_not_parse_is_a_resolution_error() {
    let result = Client::resolved(
        ".",
        true,
        true,
        "",
        Err("expected value at line 1".to_string()),
        b"x".to_vec(),
    );
    assert_eq!(result, Err(Error::Resolution("expected value at line 1".to_string())));
}

#[test]
fn resolver_output_with_one_entry_is_the_node() {
    let raw = b"{\"R\":{}}".to_vec();
    let result = Client::resolved(
        ".",
        true,
        true,
        "warning: dirty tree",
        Ok(vec![("R".to_string(), node("R", &[]))]),
        raw.clone(),
    );
    let (key, parsed) = result.unwrap();
    assert_eq!(key, "R");
    assert_eq!(parsed.derivation_binary, raw);
}

#[test]
fn build_walks_the_graph_only_while_it_is_being_built() {
    let mut idle = develop_client();
    assert_eq!(idle.build(checked("R", true)), Vec::new());
    assert_eq!(idle.stage(), Stage::Idle);
    let (mut client, _) = fanned_out(&["A"]);
    assert_eq!(client.build(resolved("A", "A", &[])), vec![check_local("A")]);
    assert_eq!(client.build(checked("A", true)), vec![upload("A")]);
    assert_eq!(client.build(uploaded("A", true)), vec![send("R")]);
}
