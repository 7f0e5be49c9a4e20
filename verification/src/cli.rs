//! What the user asked for on the command line, as plain values.

use vstd::prelude::*;
use vstd::string::*;

verus! {

/// One invocation of the client.
#[derive(Clone, Debug)]
pub struct Cli {
    pub command: Commands,
}

/// The subcommands of the client.
#[derive(Clone, Debug)]
pub enum Commands {
    /// Runs an executable from a flake output.
    Run(RunArgs),
    /// Enters a development environment, after building what it needs.
    Develop(DevelopArgs),
    /// Rebuilds the system configuration.
    Rebuild(RebuildArgs),
}

#[derive(Clone, Debug)]
pub struct DevelopArgs {
    pub flake_ref: String,
}

#[derive(Clone, Debug)]
pub struct RunArgs {
    pub flake_ref: String,
}

#[derive(Clone, Debug)]
pub struct RebuildArgs {
    pub rebuild_type: RebuildType,
    pub flake_ref: String,
}

/// The kinds of system rebuild.
#[derive(Clone, Copy, Debug, PartialEq, Eq, Structural)]
pub enum RebuildType {
    Switch,
    Boot,
    Test,
    Build,
    DryBuild,
    DryActivate,
    Edit,
    Repl,
    BuildVM,
    BuildVMWithBootloader,
    BuildImage,
    ListGenerations,
}

/// The mathematical value of a [`Commands`].
pub enum CommandsView {
    Run { flake_ref: Seq<char> },
    Develop { flake_ref: Seq<char> },
    Rebuild { rebuild_type: RebuildType, flake_ref: Seq<char> },
}

impl View for Commands {
    type V = CommandsView;

    open spec fn view(&self) -> CommandsView {
        match self {
            Commands::Run(args) => CommandsView::Run { flake_ref: args.flake_ref@ },
            Commands::Develop(args) => CommandsView::Develop { flake_ref: args.flake_ref@ },
            Commands::Rebuild(args) => CommandsView::Rebuild {
                rebuild_type: args.rebuild_type,
                flake_ref: args.flake_ref@,
            },
        }
    }
}

impl View for Cli {
    type V = CommandsView;

    open spec fn view(&self) -> CommandsView {
        self.command@
    }
}

/// The word by which the rebuild tool knows each kind of rebuild.
pub open spec fn rebuild_word(kind: RebuildType) -> Seq<char> {
    match kind {
        RebuildType::Switch => "switch"@,
        RebuildType::Boot => "boot"@,
        RebuildType::Test => "test"@,
        RebuildType::Build => "build"@,
        RebuildType::DryBuild => "dry-build"@,
        RebuildType::DryActivate => "dry-activate"@,
        RebuildType::Edit => "edit"@,
        RebuildType::Repl => "repl"@,
        RebuildType::BuildVM => "build-vm"@,
        RebuildType::BuildVMWithBootloader => "build-vm-with-bootloader"@,
        RebuildType::BuildImage => "build-image"@,
        RebuildType::ListGenerations => "list-generations"@,
    }
}

impl RebuildType {
    /// The word by which the rebuild tool knows this kind of rebuild.
    pub fn into(self) -> (word: String)
        ensures
            word@ == rebuild_word(self),
    {
        match self {
            RebuildType::Switch => "switch".to_owned(),
            RebuildType::Boot => "boot".to_owned(),
            RebuildType::Test => "test".to_owned(),
            RebuildType::Build => "build".to_owned(),
            RebuildType::DryBuild => "dry-build".to_owned(),
            RebuildType::DryActivate => "dry-activate".to_owned(),
            RebuildType::Edit => "edit".to_owned(),
            RebuildType::Repl => "repl".to_owned(),
            RebuildType::BuildVM => "build-vm".to_owned(),
            RebuildType::BuildVMWithBootloader => "build-vm-with-bootloader".to_owned(),
            RebuildType::BuildImage => "build-image".to_owned(),
            RebuildType::ListGenerations => "list-generations".to_owned(),
        }
    }
}

} // verus!
