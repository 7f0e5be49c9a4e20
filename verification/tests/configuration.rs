use nix_relay::cli::RebuildType;
use nix_relay::config::{first_missing, value_of, value_or_empty, variable_pattern, Config, MissingVariable};

fn env_of(pairs: &[(&str, &str)]) -> Vec<(String, String)> {
    pairs.iter().map(|(name, value)| (name.to_string(), value.to_string())).collect()
}

fn strings(items: &[&str]) -> Vec<String> {
    items.iter().map(|item| item.to_string()).collect()
}

#[test]
fn client_urls() {
    let config = Config::new("relay.example:4000".to_string(), Vec::new(), Vec::new());
    assert_eq!(config.websocket_url(), "ws://relay.example:4000/client");
    assert_eq!(config.cache_url(), "http://relay.example:4000");
}

#[test]
fn default_configuration_is_empty() {
    let config = Config::default();
    assert_eq!(config.websocket_url(), "ws:///client");
    assert_eq!(config.develop_args(&Vec::new()), Ok(Vec::new()));
    assert_eq!(config.run_args(&Vec::new()), Ok(Vec::new()));
}

#[test]
fn configuration_without_an_address_is_refused() {
    let refused = Config::load(Config::default());
    assert_eq!(
        refused.err(),
        Some(
            "`server_url` is undefined in the configuration. Please set it in ~/.config/nix-relay/nixr.toml."
                .to_string()
        )
    );
    let accepted = Config::load(Config::new("relay".to_string(), Vec::new(), Vec::new())).unwrap();
    assert_eq!(accepted.cache_url(), "http://relay");
}

#[test]
fn variables_in_arguments_are_expanded() {
    let config = Config::new(
        "relay".to_string(),
        strings(&["--option", "$HOME/x", "a$USER-b$HOME", "plain"]),
        strings(&["$USER"]),
    );
    let env = env_of(&[("HOME", "/home/me"), ("USER", "me")]);
    assert_eq!(
        config.develop_args(&env),
        Ok(strings(&["--option", "/home/me/x", "ame-b/home/me", "plain"]))
    );
    assert_eq!(config.run_args(&env), Ok(strings(&["me"])));
}

#[test]
fn expansion_takes_the_longest_name_and_leaves_a_lone_dollar() {
    let env = env_of(&[("A", "1"), ("AB", "2"), ("A_B9", "3")]);
    assert_eq!(
        Config::expand_env_vars(&strings(&["$AB", "$A_B9!", "$ $A", "cost: 5$"]), &env),
        Ok(strings(&["2", "3!", "$ 1", "cost: 5$"]))
    );
}

#[test]
fn variable_that_is_not_defined_is_an_error() {
    let env = env_of(&[("HOME", "/home/me")]);
    assert_eq!(
        Config::expand_env_vars(&strings(&["$HOME", "$NOPE/$ALSO_NOPE", "$THIRD"]), &env),
        Err(MissingVariable { name: "NOPE".to_string() })
    );
}

#[test]
fn the_first_definition_of_a_name_counts() {
    let env = env_of(&[("X", "first"), ("X", "second"), ("Y", "")]);
    assert_eq!(value_of(&env, "X"), Some("first".to_string()));
    assert_eq!(value_of(&env, "Y"), Some(String::new()));
    assert_eq!(value_of(&env, "Z"), None);
    assert_eq!(value_or_empty(&env, "Z"), "");
    assert_eq!(value_or_empty(&env, "X"), "first");
    assert_eq!(Config::expand_env_vars(&strings(&["[$Y]"]), &env), Ok(strings(&["[]"])));
}

#[test]
fn first_missing_name() {
    let env = env_of(&[("A", "1"), ("B", "2")]);
    assert_eq!(first_missing(&strings(&["A", "B"]), &env), None);
    assert_eq!(first_missing(&strings(&["A", "C", "D"]), &env), Some("C".to_string()));
    assert_eq!(first_missing(&Vec::new(), &env), None);
}

#[test]
fn pattern_of_a_variable() {
    assert_eq!(variable_pattern(), "\\$(\\w+)");
}

#[test]
fn rebuild_words() {
    let words = [
        (RebuildType::Switch, "switch"),
        (RebuildType::Boot, "boot"),
        (RebuildType::Test, "test"),
        (RebuildType::Build, "build"),
        (RebuildType::DryBuild, "dry-build"),
        (RebuildType::DryActivate, "dry-activate"),
        (RebuildType::Edit, "edit"),
        (RebuildType::Repl, "repl"),
        (RebuildType::BuildVM, "build-vm"),
        (RebuildType::BuildVMWithBootloader, "build-vm-with-bootloader"),
        (RebuildType::BuildImage, "build-image"),
        (RebuildType::ListGenerations, "list-generations"),
    ];
    for (kind, word) in words {
        assert_eq!(kind.into(), word);
    }
}
