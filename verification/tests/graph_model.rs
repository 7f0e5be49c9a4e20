use nix_relay::command::{
    add, build_outcome, develop, download, realize, rebuild, run, show, upload, verify_path,
};
use nix_relay::error::Error;
use nix_relay::model::{Derivation, InputDrvDetails, OutputDetails, System};
use nix_relay::websocket::Websocket;

fn sample() -> Derivation {
    Derivation {
        input_drvs: vec![
            (
                "/nix/store/b.drv".to_string(),
                InputDrvDetails { dynamic_outputs: Vec::new(), outputs: vec!["out".to_string()] },
            ),
            (
                "/nix/store/a.drv".to_string(),
                InputDrvDetails { dynamic_outputs: Vec::new(), outputs: vec!["dev".to_string()] },
            ),
        ],
        name: "hello".to_string(),
        outputs: vec![
            ("dev".to_string(), OutputDetails::new("/nix/store/hello-dev".to_string())),
            ("out".to_string(), OutputDetails::new("/nix/store/hello".to_string())),
        ],
        system: System::Builtin,
        derivation_binary: Vec::new(),
        is_local: false,
        is_on_server: false,
    }
}

#[test]
fn dependencies_in_listed_order() {
    assert_eq!(
        sample().get_dependencies(),
        vec!["/nix/store/b.drv".to_string(), "/nix/store/a.drv".to_string()]
    );
    let mut leaf = sample();
    leaf.input_drvs.clear();
    assert!(leaf.get_dependencies().is_empty());
}

#[test]
fn primary_output_is_the_slot_named_out() {
    assert_eq!(sample().primary_output(), Some("/nix/store/hello".to_string()));
    let mut bare = sample();
    bare.outputs.truncate(1);
    assert_eq!(bare.primary_output(), None);
    bare.outputs.clear();
    assert_eq!(bare.primary_output(), None);
}

#[test]
fn local_probe_checks_the_primary_output() {
    let probe = sample().derivation_exists_locally().unwrap();
    assert_eq!(probe.program, "nix-store");
    assert_eq!(probe.args, vec!["--verify-path", "/nix/store/hello"]);
    let mut bare = sample();
    bare.outputs.clear();
    assert_eq!(bare.derivation_exists_locally(), None);
}

#[test]
fn remote_probe_copies_from_the_cache() {
    let probe = sample().download_derivation("http://relay", "/nix/store/hello.drv");
    assert_eq!(probe, download("http://relay", "/nix/store/hello.drv"));
    assert_eq!(
        probe.args,
        vec!["copy", "--from", "http://relay", "/nix/store/hello.drv", "--refresh", "--repair", "--derivation", "-v"]
    );
}

#[test]
fn command_lines() {
    assert_eq!(upload("u", "k").args, vec!["copy", "--to", "u", "k", "--refresh", "--repair", "--derivation", "-v"]);
    assert_eq!(show("k").program, "nix");
    assert_eq!(show("k").args, vec!["derivation", "show", "k"]);
    assert_eq!(add().args, vec!["derivation", "add"]);
    assert_eq!(verify_path("/p").args, vec!["--verify-path", "/p"]);
    assert_eq!(realize("k", false).args, vec!["--realize", "k"]);
    assert_eq!(realize("k", true).args, vec!["--realize", "k", "-v"]);
    assert_eq!(realize("k", true).program, "nix-store");
    assert_eq!(run(".", &vec!["x".to_string(), "y".to_string()]).args, vec!["run", ".", "x", "y"]);
    assert_eq!(develop(".", &Vec::new()).args, vec!["develop", ".", "-j", "0"]);
    assert_eq!(rebuild("switch", ".").program, "nixos-rebuild");
    assert_eq!(rebuild("switch", ".").args, vec!["switch", "--flake", "."]);
}

#[test]
fn error_messages() {
    assert_eq!(Error::Resolution("why".to_string()).message(), "why");
    assert_eq!(Error::LocalBuild("log".to_string()).message(), "log");
    assert_eq!(Error::Connect("no route".to_string()).message(), "no route");
    assert_eq!(Error::Send.message(), "failed to send a frame to the relay");
    assert_eq!(Error::Transfer.message(), "failed to transfer an artifact");
    assert_eq!(Error::DuplicateKey.message(), "a request for this derivation is already pending");
    assert_eq!(Error::Protocol.message(), "malformed frame");
}

#[test]
fn bare_channel_opens_and_closes() {
    let refused = || Err(Error::Connect("Failed to connect to server u: refused".to_string()));
    let mut socket = Websocket::new();
    assert_eq!(socket.disconnect(), Err(Error::Send));
    assert_eq!(socket.connect("u", Err("refused".to_string())), refused());
    assert_eq!(socket.disconnect(), Err(Error::Send));
    assert_eq!(socket.connect("u", Ok(())), Ok(()));
    assert_eq!(socket.connect("u", Err("refused".to_string())), refused());
    assert_eq!(socket.disconnect(), Ok(()));
    assert_eq!(socket.disconnect(), Err(Error::Send));
}

#[test]
fn inputs_and_outputs_are_mappings() {
    assert!(sample().is_well_formed());
    let mut twice = sample();
    twice.outputs.push(("out".to_string(), OutputDetails::new("/nix/store/shadowed".to_string())));
    assert!(!twice.is_well_formed());
    assert_eq!(twice.primary_output(), Some("/nix/store/hello".to_string()));
    let mut again = sample();
    let first = again.input_drvs[0].clone();
    again.input_drvs.push(first);
    assert!(!again.is_well_formed());
    let mut empty = sample();
    empty.input_drvs.clear();
    empty.outputs.clear();
    assert!(empty.is_well_formed());
}

#[test]
fn build_outcome_from_exit_status_and_diagnostic() {
    assert_eq!(build_outcome(true, "warning: ignored"), Ok(()));
    assert_eq!(build_outcome(false, "error: builder failed"), Err("error: builder failed".to_string()));
    assert_eq!(build_outcome(false, ""), Err(String::new()));
}
