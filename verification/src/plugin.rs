//! What an extension declares about the node kinds it adds.

use vstd::prelude::*;
use vstd::string::StringExecFns;
use crate::data_type::{NFDirection, NFFamily};
use crate::predicate::Params;
use crate::text::str_equal;

verus! {

/// The type of the one input port of an extension node.
#[derive(Clone, Copy, Debug)]
pub struct NFInput {
    pub family: NFFamily,
    pub direction: NFDirection,
}

impl Default for NFInput {
    fn default() -> (input: Self)
        ensures
            input.family == NFFamily::Inet,
            input.direction == NFDirection::Either,
    {
        NFInput { family: NFFamily::Inet, direction: NFDirection::Either }
    }
}

/// The type of an output port of an extension node.
#[derive(Clone, Copy, Debug)]
pub struct NFOutput {
    pub family: NFFamily,
    pub direction: NFDirection,
}

impl Default for NFOutput {
    fn default() -> (output: Self)
        ensures
            output.family == NFFamily::Inet,
            output.direction == NFDirection::Either,
    {
        NFOutput { family: NFFamily::Inet, direction: NFDirection::Either }
    }
}

/// One node kind of an extension.
#[derive(Debug)]
pub struct NFNode {
    /// The name shown for nodes of this kind.
    pub display_name: String,
    /// Parameter identifier to the label shown for it.
    pub params: Params,
    pub input: NFInput,
    /// The output ports by name, in the order in which they are created.
    pub outputs: Vec<(String, NFOutput)>,
}

impl NFNode {
    /// The text shown for this kind: its display name.
    pub fn label(&self) -> (text: String)
        ensures
            text@ == self.display_name@,
    {
        self.display_name.clone()
    }
}

impl Clone for NFNode {
    fn clone(&self) -> (copy: Self)
        ensures
            copy.display_name@ == self.display_name@,
            copy.params@ == self.params@,
            copy.input == self.input,
            copy.outputs@.len() == self.outputs@.len(),
            forall|i: int|
                0 <= i < self.outputs@.len() ==> (#[trigger] copy.outputs@[i]).0@
                    == self.outputs@[i].0@ && copy.outputs@[i].1 == self.outputs@[i].1,
    {
        let mut outputs: Vec<(String, NFOutput)> = Vec::new();
        let mut i: usize = 0;
        while i < self.outputs.len()
            invariant
                i <= self.outputs.len(),
                outputs@.len() == i,
                forall|j: int|
                    0 <= j < i ==> (#[trigger] outputs@[j]).0@ == self.outputs@[j].0@
                        && outputs@[j].1 == self.outputs@[j].1,
            decreases self.outputs.len() - i,
        {
            outputs.push((self.outputs[i].0.clone(), self.outputs[i].1));
            i += 1;
        }
        NFNode {
            display_name: self.display_name.clone(),
            params: self.params.clone(),
            input: self.input,
            outputs,
        }
    }
}

/// The index of the first entry named `id`, if there is one.
pub open spec fn first_named<T>(entries: Seq<(String, T)>, id: Seq<char>) -> Option<int>
    decreases entries.len(),
{
    if entries.len() == 0 {
        None
    } else if entries[0].0@ == id {
        Some(0)
    } else {
        match first_named(entries.drop_first(), id) {
            Some(at) => Some(at + 1),
            None => None,
        }
    }
}

/// `first_named` finds `at` exactly when `at` is the first index with that name.
pub proof fn lemma_first_named<T>(entries: Seq<(String, T)>, id: Seq<char>, at: int)
    requires
        0 <= at <= entries.len(),
        forall|j: int| 0 <= j < at ==> (#[trigger] entries[j]).0@ != id,
        at < entries.len() ==> entries[at].0@ == id,
    ensures
        first_named(entries, id) == if at < entries.len() {
            Some(at)
        } else {
            None
        },
    decreases at,
{
    if at > 0 {
        let rest = entries.drop_first();
        assert forall|j: int| 0 <= j < at - 1 implies (#[trigger] rest[j]).0@ != id by {
            assert(rest[j] == entries[j + 1]);
        }
        if at < entries.len() {
            assert(rest[at - 1] == entries[at]);
        }
        lemma_first_named(rest, id, at - 1);
    }
}

/// An extension: its identifier and the node kinds it adds, by identifier.
#[derive(Debug)]
pub struct Plugin {
    pub id: String,
    pub nf: Vec<(String, NFNode)>,
}

impl Plugin {
    /// The node kind declared under `id`: the first one, if several are.
    pub fn node(&self, id: &str) -> (found: Option<&NFNode>)
        ensures
            match found {
                Some(node) => first_named(self.nf@, id@) is Some && *node == self.nf@[first_named(
                    self.nf@,
                    id@,
                )->0].1,
                None => first_named(self.nf@, id@) is None,
            },
    {
        let mut i: usize = 0;
        while i < self.nf.len()
            invariant
                i <= self.nf.len(),
                forall|j: int| 0 <= j < i ==> (#[trigger] self.nf@[j]).0@ != id@,
            decreases self.nf.len() - i,
        {
            if str_equal(self.nf[i].0.as_str(), id) {
                proof {
                    lemma_first_named(self.nf@, id@, i as int);
                }
                return Some(&self.nf[i].1);
            }
            i += 1;
        }
        proof {
            lemma_first_named(self.nf@, id@, i as int);
        }
        None
    }
}

/// The directory of a project that holds the scripts of an extension.
pub open spec fn plugin_directory_spec(project: Seq<char>, plugin: Seq<char>) -> Seq<char> {
    project + "/plugins/"@ + plugin
}

/// The directory of a project that holds the scripts of an extension.
pub fn plugin_directory(project: &str, plugin: &str) -> (path: String)
    ensures
        path@ == plugin_directory_spec(project@, plugin@),
{
    project.to_string().concat("/plugins/").concat(plugin)
}

/// Where the script named `name` lies in a directory.
pub fn script_in(directory: &str, name: &str) -> (path: String)
    ensures
        path@ == directory@ + "/"@ + name@,
{
    directory.to_string().concat("/").concat(name)
}

/// Where a project keeps the script of the node kind `id` of an extension:
/// under the extension's directory, named like the kind.
pub fn script_path(project: &str, plugin: &str, id: &str) -> (path: String)
    ensures
        path@ == plugin_directory_spec(project@, plugin@) + "/"@ + id@,
{
    let directory = plugin_directory(project, plugin);
    script_in(directory.as_str(), id)
}

/// Where a script is copied from, and where to.
pub open spec fn copy_spec(source: Seq<char>, destination: Seq<char>, name: Seq<char>) -> (
    Seq<char>,
    Seq<char>,
) {
    (source + "/"@ + name, destination + "/"@ + name)
}

/// The files to copy when an extension is imported from the directory
/// `source` into a project: first the script of the extension itself, then
/// the script of each of its node kinds in their order. Each lies in
/// `source` under its identifier and goes to the extension's directory in
/// the project under the same name.
pub fn import_plan(project: &str, source: &str, plugin: &Plugin) -> (copies: Vec<(String, String)>)
    ensures
        copies@.len() == 1 + plugin.nf@.len(),
        (copies@[0].0@, copies@[0].1@) == copy_spec(
            source@,
            plugin_directory_spec(project@, plugin.id@),
            plugin.id@,
        ),
        forall|k: int|
            0 <= k < plugin.nf@.len() ==> ((#[trigger] copies@[1 + k]).0@, copies@[1 + k].1@)
                == copy_spec(
                source@,
                plugin_directory_spec(project@, plugin.id@),
                plugin.nf@[k].0@,
            ),
{
    let destination = plugin_directory(project, plugin.id.as_str());
    let mut copies: Vec<(String, String)> = Vec::new();
    copies.push(
        (script_in(source, plugin.id.as_str()), script_in(destination.as_str(), plugin.id.as_str())),
    );
    let mut k: usize = 0;
    while k < plugin.nf.len()
        invariant
            k <= plugin.nf.len(),
            destination@ == plugin_directory_spec(project@, plugin.id@),
            copies@.len() == 1 + k,
            (copies@[0].0@, copies@[0].1@) == copy_spec(source@, destination@, plugin.id@),
            forall|j: int|
                0 <= j < k ==> ((#[trigger] copies@[1 + j]).0@, copies@[1 + j].1@) == copy_spec(
                    source@,
                    destination@,
                    plugin.nf@[j].0@,
                ),
        decreases plugin.nf.len() - k,
    {
        let name = plugin.nf[k].0.as_str();
        copies.push((script_in(source, name), script_in(destination.as_str(), name)));
        k += 1;
    }
    copies
}

} // verus!
