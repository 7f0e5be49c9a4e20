//! The graph model: one build node and its edges.

use crate::command::{download, download_line, verify_line, verify_path, Invocation};
use crate::text::same_text;
use vstd::prelude::*;

verus! {

/// The platform a derivation is built for.
#[derive(Clone, Copy, Debug, PartialEq, Eq, Structural)]
pub enum System {
    X86_64Linux,
    Builtin,
}

/// What a derivation takes from one of its inputs.
#[derive(Clone, Debug, PartialEq, Eq)]
pub struct InputDrvDetails {
    /// Names of the outputs that are only known once the input is built.
    /// Their descriptions are not interpreted here.
    pub dynamic_outputs: Vec<String>,
    /// Names of the outputs of the input that the derivation uses.
    pub outputs: Vec<String>,
}

/// One declared output of a derivation: the store path it resolves to.
#[derive(Clone, Debug, PartialEq, Eq)]
pub struct OutputDetails {
    pub path: String,
}

/// One buildable unit: its inputs, its outputs, and the bytes that describe it.
#[derive(Clone, Debug, PartialEq, Eq)]
pub struct Derivation {
    /// The inputs, each under its identity key.
    pub input_drvs: Vec<(String, InputDrvDetails)>,
    pub name: String,
    /// The outputs, each under the name of its slot.
    pub outputs: Vec<(String, OutputDetails)>,
    pub system: System,
    /// The resolver's output for this node, byte for byte.
    pub derivation_binary: Vec<u8>,
    /// Observed during this run: the primary output is in the local store.
    pub is_local: bool,
    /// Observed during this run: the remote cache holds the artifact.
    pub is_on_server: bool,
}

/// The mathematical value of an [`InputDrvDetails`].
pub struct InputDrvDetailsView {
    pub dynamic_outputs: Seq<Seq<char>>,
    pub outputs: Seq<Seq<char>>,
}

/// The mathematical value of a [`Derivation`].
pub struct DerivationView {
    pub input_drvs: Seq<(Seq<char>, InputDrvDetailsView)>,
    pub name: Seq<char>,
    pub outputs: Seq<(Seq<char>, Seq<char>)>,
    pub system: System,
    pub derivation_binary: Seq<u8>,
    pub is_local: bool,
    pub is_on_server: bool,
}

impl View for InputDrvDetails {
    type V = InputDrvDetailsView;

    open spec fn view(&self) -> InputDrvDetailsView {
        InputDrvDetailsView {
            dynamic_outputs: self.dynamic_outputs.deep_view(),
            outputs: self.outputs.deep_view(),
        }
    }
}

impl View for OutputDetails {
    type V = Seq<char>;

    open spec fn view(&self) -> Seq<char> {
        self.path@
    }
}

impl View for Derivation {
    type V = DerivationView;

    open spec fn view(&self) -> DerivationView {
        DerivationView {
            input_drvs: Seq::new(
                self.input_drvs@.len(),
                |i: int| (self.input_drvs@[i].0@, self.input_drvs@[i].1@),
            ),
            name: self.name@,
            outputs: Seq::new(
                self.outputs@.len(),
                |i: int| (self.outputs@[i].0@, self.outputs@[i].1@),
            ),
            system: self.system,
            derivation_binary: self.derivation_binary@,
            is_local: self.is_local,
            is_on_server: self.is_on_server,
        }
    }
}

/// The path of the first output in `outputs` whose slot is named `slot`.
pub open spec fn path_of_slot(outputs: Seq<(Seq<char>, Seq<char>)>, slot: Seq<char>) -> Option<
    Seq<char>,
>
    decreases outputs.len(),
{
    if outputs.len() == 0 {
        None
    } else if outputs[0].0 == slot {
        Some(outputs[0].1)
    } else {
        path_of_slot(outputs.drop_first(), slot)
    }
}

impl DerivationView {
    /// The inputs and the outputs are mappings: no input stands twice under
    /// the same key and no output twice under the same slot.
    pub open spec fn wf(self) -> bool {
        &&& self.dependencies().no_duplicates()
        &&& self.slots().no_duplicates()
    }

    /// The names of the output slots, in order.
    pub open spec fn slots(self) -> Seq<Seq<char>> {
        Seq::new(self.outputs.len(), |i: int| self.outputs[i].0)
    }

    /// The identity keys of the nodes that must be built before this one.
    pub open spec fn dependencies(self) -> Seq<Seq<char>> {
        Seq::new(self.input_drvs.len(), |i: int| self.input_drvs[i].0)
    }

    /// The store path of the output named `out`, if the node declares one.
    pub open spec fn primary_output(self) -> Option<Seq<char>> {
        path_of_slot(self.outputs, "out"@)
    }
}

impl OutputDetails {
    /// An output that resolves to `path`.
    pub fn new(path: String) -> (out: Self)
        ensures
            out@ == path@,
    {
        OutputDetails { path }
    }
}

impl Derivation {
    /// The identity keys of the inputs, in the order in which the node lists
    /// them.
    pub fn get_dependencies(&self) -> (deps: Vec<String>)
        ensures
            deps.deep_view() == self@.dependencies(),
    {
        let mut deps: Vec<String> = Vec::new();
        let mut i: usize = 0;
        while i < self.input_drvs.len()
            invariant
                i <= self.input_drvs.len(),
                deps@.len() == i,
                forall|j: int| 0 <= j < i ==> deps@[j]@ == self.input_drvs@[j].0@,
            decreases self.input_drvs.len() - i,
        {
            deps.push(self.input_drvs[i].0.clone());
            i += 1;
        }
        assert(deps.deep_view() =~= self@.dependencies());
        deps
    }

    /// The store path of the output named `out`: the path whose presence in
    /// the local store means that the node needs no build.
    pub fn primary_output(&self) -> (path: Option<String>)
        ensures
            path is Some <==> self@.primary_output() is Some,
            path is Some ==> path->0@ == self@.primary_output()->0,
    {
        let mut i: usize = 0;
        assert(self@.outputs.skip(0) =~= self@.outputs);
        while i < self.outputs.len()
            invariant
                i <= self.outputs.len(),
                path_of_slot(self@.outputs, "out"@) == path_of_slot(
                    self@.outputs.skip(i as int),
                    "out"@,
                ),
            decreases self.outputs.len() - i,
        {
            let ghost rest = self@.outputs.skip(i as int);
            assert(rest[0] == self@.outputs[i as int]);
            assert(rest.drop_first() =~= self@.outputs.skip(i + 1));
            if same_text(self.outputs[i].0.as_str(), "out") {
                return Some(self.outputs[i].1.path.clone());
            }
            i += 1;
        }
        assert(self@.outputs.skip(i as int).len() == 0);
        None
    }

    /// Whether the inputs and the outputs are mappings: no key of an input
    /// and no slot of an output stands twice.
    pub fn is_well_formed(&self) -> (wf: bool)
        ensures
            wf == self@.wf(),
    {
        let mut i: usize = 0;
        while i < self.input_drvs.len()
            invariant
                i <= self.input_drvs.len(),
                forall|a: int, b: int|
                    0 <= a < b < i ==> self@.dependencies()[a] != self@.dependencies()[b],
            decreases self.input_drvs.len() - i,
        {
            let mut j: usize = 0;
            while j < i
                invariant
                    j <= i,
                    i < self.input_drvs.len(),
                    forall|a: int|
                        0 <= a < j ==> self@.dependencies()[a] != self@.dependencies()[i as int],
                decreases i - j,
            {
                if same_text(self.input_drvs[j].0.as_str(), self.input_drvs[i].0.as_str()) {
                    assert(self@.dependencies()[j as int] == self@.dependencies()[i as int]);
                    return false;
                }
                j += 1;
            }
            i += 1;
        }
        let mut i: usize = 0;
        while i < self.outputs.len()
            invariant
                i <= self.outputs.len(),
                self@.dependencies().no_duplicates(),
                forall|a: int, b: int| 0 <= a < b < i ==> self@.slots()[a] != self@.slots()[b],
            decreases self.outputs.len() - i,
        {
            let mut j: usize = 0;
            while j < i
                invariant
                    j <= i,
                    i < self.outputs.len(),
                    forall|a: int| 0 <= a < j ==> self@.slots()[a] != self@.slots()[i as int],
                decreases i - j,
            {
                if same_text(self.outputs[j].0.as_str(), self.outputs[i].0.as_str()) {
                    assert(self@.slots()[j as int] == self@.slots()[i as int]);
                    return false;
                }
                j += 1;
            }
            i += 1;
        }
        true
    }

    /// The command that asks the local store whether the primary output of
    /// this node exists: the node needs no build where the command
    /// succeeds. None where the node declares no output named `out`.
    pub fn derivation_exists_locally(&self) -> (probe: Option<Invocation>)
        ensures
            probe is Some <==> self@.primary_output() is Some,
            probe is Some ==> probe->0@ == verify_line(self@.primary_output()->0),
    {
        match self.primary_output() {
            Some(path) => Some(verify_path(path.as_str())),
            None => None,
        }
    }

    /// The command that copies this node, known as `derivation_name`, from
    /// the cache at `cache_url`: the remote cache holds the node where the
    /// command succeeds.
    pub fn download_derivation(&self, cache_url: &str, derivation_name: &str) -> (probe: Invocation)
        ensures
            probe@ == download_line(cache_url@, derivation_name@),
    {
        download(cache_url, derivation_name)
    }
}

} // verus!
