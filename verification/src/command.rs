//! The command lines of the external tools: the resolver, the local store
//! and the artifact transfer. The library only says what is to be run; the
//! caller runs it.

use vstd::prelude::*;
use vstd::string::*;

verus! {

/// A program and its arguments.
#[derive(Debug, PartialEq, Eq)]
pub struct Invocation {
    pub program: String,
    pub args: Vec<String>,
}

/// The mathematical value of an [`Invocation`].
pub struct InvocationView {
    pub program: Seq<char>,
    pub args: Seq<Seq<char>>,
}

impl View for Invocation {
    type V = InvocationView;

    open spec fn view(&self) -> InvocationView {
        InvocationView { program: self.program@, args: self.args.deep_view() }
    }
}

/// The flags that every copy between stores is run with.
pub open spec fn copy_flags() -> Seq<Seq<char>> {
    seq!["--refresh"@, "--repair"@, "--derivation"@, "-v"@]
}

/// `nix copy --from <cache_url> <derivation>` and the copy flags.
pub open spec fn download_line(cache_url: Seq<char>, derivation: Seq<char>) -> InvocationView {
    InvocationView {
        program: "nix"@,
        args: seq!["copy"@, "--from"@, cache_url, derivation] + copy_flags(),
    }
}

/// `nix copy --to <cache_url> <derivation>` and the copy flags.
pub open spec fn upload_line(cache_url: Seq<char>, derivation: Seq<char>) -> InvocationView {
    InvocationView {
        program: "nix"@,
        args: seq!["copy"@, "--to"@, cache_url, derivation] + copy_flags(),
    }
}

/// `nix derivation show <target>`.
pub open spec fn show_line(target: Seq<char>) -> InvocationView {
    InvocationView { program: "nix"@, args: seq!["derivation"@, "show"@, target] }
}

/// `nix derivation add`, which reads the object from its input.
pub open spec fn add_line() -> InvocationView {
    InvocationView { program: "nix"@, args: seq!["derivation"@, "add"@] }
}

/// `nix-store --verify-path <path>`.
pub open spec fn verify_line(path: Seq<char>) -> InvocationView {
    InvocationView { program: "nix-store"@, args: seq!["--verify-path"@, path] }
}

/// `nix-store --realize <derivation>`, with `-v` where `verbose`.
pub open spec fn realize_line(derivation: Seq<char>, verbose: bool) -> InvocationView {
    InvocationView {
        program: "nix-store"@,
        args: if verbose {
            seq!["--realize"@, derivation, "-v"@]
        } else {
            seq!["--realize"@, derivation]
        },
    }
}

/// `nix run <flake_ref>` and the extra arguments.
pub open spec fn run_line(flake_ref: Seq<char>, extra: Seq<Seq<char>>) -> InvocationView {
    InvocationView { program: "nix"@, args: seq!["run"@, flake_ref] + extra }
}

/// `nix develop <flake_ref> -j 0` and the extra arguments: the environment
/// is entered without building anything locally.
pub open spec fn develop_line(flake_ref: Seq<char>, extra: Seq<Seq<char>>) -> InvocationView {
    InvocationView { program: "nix"@, args: seq!["develop"@, flake_ref, "-j"@, "0"@] + extra }
}

/// `nixos-rebuild <word> --flake <flake_ref>`.
pub open spec fn rebuild_line(word: Seq<char>, flake_ref: Seq<char>) -> InvocationView {
    InvocationView { program: "nixos-rebuild"@, args: seq![word, "--flake"@, flake_ref] }
}

/// How a build by the local store ended: well where the tool succeeded, and
/// else in failure with `diagnostic`, what the tool printed about it.
pub open spec fn build_result(succeeded: bool, diagnostic: Seq<char>) -> Result<(), Seq<char>> {
    if succeeded {
        Ok(())
    } else {
        Err(diagnostic)
    }
}

/// How a build by the local store ended, from whether the tool succeeded and
/// what it printed about a failure.
pub fn build_outcome(succeeded: bool, diagnostic: &str) -> (outcome: Result<(), String>)
    ensures
        outcome is Ok <==> succeeded,
        match outcome {
            Ok(()) => build_result(succeeded, diagnostic@) == Ok::<(), Seq<char>>(()),
            Err(text) => build_result(succeeded, diagnostic@) == Err::<(), Seq<char>>(text@),
        },
{
    if succeeded {
        Ok(())
    } else {
        Err(String::from_str(diagnostic))
    }
}

/// A command line made of a program and its arguments.
pub fn line(program: &str, args: Vec<String>) -> (invocation: Invocation)
    ensures
        invocation@ == (InvocationView { program: program@, args: args.deep_view() }),
{
    Invocation { program: String::from_str(program), args }
}

/// `args` followed by copies of `extra`.
pub fn extended(args: Vec<String>, extra: &Vec<String>) -> (all: Vec<String>)
    ensures
        all.deep_view() == args.deep_view() + extra.deep_view(),
{
    let mut all = args;
    let ghost first = all.deep_view();
    let mut i: usize = 0;
    while i < extra.len()
        invariant
            i <= extra.len(),
            all.deep_view() == first + extra.deep_view().take(i as int),
        decreases extra.len() - i,
    {
        let ghost before = all.deep_view();
        all.push(extra[i].clone());
        assert(all.deep_view() =~= before.push(extra[i as int]@));
        assert(extra.deep_view().take(i + 1) =~= extra.deep_view().take(i as int).push(
            extra[i as int]@,
        ));
        i += 1;
    }
    assert(extra.deep_view().take(extra.len() as int) =~= extra.deep_view());
    all
}

/// The words of a command line, each copied into a string of its own.
fn words4(a: &str, b: &str, c: &str, d: &str) -> (args: Vec<String>)
    ensures
        args.deep_view() == seq![a@, b@, c@, d@],
{
    let mut args: Vec<String> = Vec::new();
    args.push(String::from_str(a));
    args.push(String::from_str(b));
    args.push(String::from_str(c));
    args.push(String::from_str(d));
    assert(args.deep_view() =~= seq![a@, b@, c@, d@]);
    args
}

/// The words of a command line, each copied into a string of its own.
fn words3(a: &str, b: &str, c: &str) -> (args: Vec<String>)
    ensures
        args.deep_view() == seq![a@, b@, c@],
{
    let mut args: Vec<String> = Vec::new();
    args.push(String::from_str(a));
    args.push(String::from_str(b));
    args.push(String::from_str(c));
    assert(args.deep_view() =~= seq![a@, b@, c@]);
    args
}

/// The words of a command line, each copied into a string of its own.
fn words2(a: &str, b: &str) -> (args: Vec<String>)
    ensures
        args.deep_view() == seq![a@, b@],
{
    let mut args: Vec<String> = Vec::new();
    args.push(String::from_str(a));
    args.push(String::from_str(b));
    assert(args.deep_view() =~= seq![a@, b@]);
    args
}

/// The command that copies `derivation` from the cache at `cache_url`.
pub fn download(cache_url: &str, derivation: &str) -> (invocation: Invocation)
    ensures
        invocation@ == download_line(cache_url@, derivation@),
{
    let flags = words4("--refresh", "--repair", "--derivation", "-v");
    line("nix", extended(words4("copy", "--from", cache_url, derivation), &flags))
}

/// The command that copies `derivation` to the cache at `cache_url`.
pub fn upload(cache_url: &str, derivation: &str) -> (invocation: Invocation)
    ensures
        invocation@ == upload_line(cache_url@, derivation@),
{
    let flags = words4("--refresh", "--repair", "--derivation", "-v");
    line("nix", extended(words4("copy", "--to", cache_url, derivation), &flags))
}

/// The command that asks the resolver for `target`, a build reference or an
/// identity key.
pub fn show(target: &str) -> (invocation: Invocation)
    ensures
        invocation@ == show_line(target@),
{
    line("nix", words3("derivation", "show", target))
}

/// The command that adds one object, read from its input, to the local
/// store.
pub fn add() -> (invocation: Invocation)
    ensures
        invocation@ == add_line(),
{
    line("nix", words2("derivation", "add"))
}

/// The command that asks the local store whether `path` exists.
pub fn verify_path(path: &str) -> (invocation: Invocation)
    ensures
        invocation@ == verify_line(path@),
{
    line("nix-store", words2("--verify-path", path))
}

/// The command that builds `derivation` in the local store.
pub fn realize(derivation: &str, verbose: bool) -> (invocation: Invocation)
    ensures
        invocation@ == realize_line(derivation@, verbose),
{
    if verbose {
        line("nix-store", words3("--realize", derivation, "-v"))
    } else {
        line("nix-store", words2("--realize", derivation))
    }
}

/// The command that runs an executable from a flake output.
pub fn run(flake_ref: &str, extra: &Vec<String>) -> (invocation: Invocation)
    ensures
        invocation@ == run_line(flake_ref@, extra.deep_view()),
{
    line("nix", extended(words2("run", flake_ref), extra))
}

/// The command that enters the development environment of a flake.
pub fn develop(flake_ref: &str, extra: &Vec<String>) -> (invocation: Invocation)
    ensures
        invocation@ == develop_line(flake_ref@, extra.deep_view()),
{
    line("nix", extended(words4("develop", flake_ref, "-j", "0"), extra))
}

/// The command that rebuilds the system configuration.
pub fn rebuild(word: &str, flake_ref: &str) -> (invocation: Invocation)
    ensures
        invocation@ == rebuild_line(word@, flake_ref@),
{
    line("nixos-rebuild", words3(word, "--flake", flake_ref))
}

} // verus!
