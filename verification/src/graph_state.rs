//! What the editor knows besides the graph: the registered extensions and the
//! node that is being edited.

use vstd::prelude::*;
use crate::id_type::NodeId;
use crate::node_data::NFNodeData;
use crate::plugin::{first_named, NFNode, Plugin};
use crate::predicate::Params;
use crate::text::str_equal;

verus! {

/// The state of the editor around the graph.
#[derive(Debug)]
pub struct NFGraphState {
    /// The registered extensions. Where two have the same identifier, the
    /// first one counts.
    pub plugins: Vec<Plugin>,
    /// The node whose configuration is shown for editing.
    pub active_node: Option<NodeId>,
}

/// The index of the first extension with identifier `id`, if there is one.
pub open spec fn plugin_index(plugins: Seq<Plugin>, id: Seq<char>) -> Option<int>
    decreases plugins.len(),
{
    if plugins.len() == 0 {
        None
    } else if plugins[0].id@ == id {
        Some(0)
    } else {
        match plugin_index(plugins.drop_first(), id) {
            Some(at) => Some(at + 1),
            None => None,
        }
    }
}

/// `plugin_index` finds `at` exactly when `at` is the first extension of that name.
pub proof fn lemma_plugin_index(plugins: Seq<Plugin>, id: Seq<char>, at: int)
    requires
        0 <= at <= plugins.len(),
        forall|j: int| 0 <= j < at ==> (#[trigger] plugins[j]).id@ != id,
        at < plugins.len() ==> plugins[at].id@ == id,
    ensures
        plugin_index(plugins, id) == if at < plugins.len() {
            Some(at)
        } else {
            None
        },
    decreases at,
{
    if at > 0 {
        let rest = plugins.drop_first();
        assert forall|j: int| 0 <= j < at - 1 implies (#[trigger] rest[j]).id@ != id by {
            assert(rest[j] == plugins[j + 1]);
        }
        if at < plugins.len() {
            assert(rest[at - 1] == plugins[at]);
        }
        lemma_plugin_index(rest, id, at - 1);
    }
}

/// The node kind `id` of the extension `plugin`, if both are registered.
pub open spec fn registered_node(plugins: Seq<Plugin>, plugin: Seq<char>, id: Seq<char>) -> Option<
    NFNode,
> {
    match plugin_index(plugins, plugin) {
        Some(at) => match first_named(plugins[at].nf@, id) {
            Some(k) => Some(plugins[at].nf@[k].1),
            None => None,
        },
        None => None,
    }
}

/// The identifiers of the node kinds of the first `upto` extensions, each
/// with the identifier of its extension, extension by extension.
pub open spec fn registered_kinds(plugins: Seq<Plugin>, upto: nat) -> Seq<(Seq<char>, Seq<char>)>
    decreases upto,
{
    if upto == 0 {
        Seq::empty()
    } else {
        registered_kinds(plugins, (upto - 1) as nat) + plugins[upto - 1].nf@.map_values(
            |entry: (String, NFNode)| (plugins[upto - 1].id@, entry.0@),
        )
    }
}

/// Whether `kind` is a fresh node of the extension kind `ids`: of that
/// extension and node kind, and with no parameter set.
pub open spec fn is_fresh_custom(kind: NFNodeData, ids: (Seq<char>, Seq<char>)) -> bool {
    match kind {
        NFNodeData::Custom { plugin, id, data } => plugin@ == ids.0 && id@ == ids.1 && data@.len()
            == 0,
        _ => false,
    }
}

impl Default for NFGraphState {
    fn default() -> (state: Self)
        ensures
            state.plugins@.len() == 0,
            state.active_node is None,
    {
        NFGraphState { plugins: Vec::new(), active_node: None }
    }
}

impl NFGraphState {
    /// The node kind `id` of the extension `plugin`.
    pub fn find_node(&self, plugin: &str, id: &str) -> (found: Option<&NFNode>)
        ensures
            match found {
                Some(node) => registered_node(self.plugins@, plugin@, id@) == Some(*node),
                None => registered_node(self.plugins@, plugin@, id@) is None,
            },
    {
        let mut i: usize = 0;
        while i < self.plugins.len()
            invariant
                i <= self.plugins.len(),
                forall|j: int| 0 <= j < i ==> (#[trigger] self.plugins@[j]).id@ != plugin@,
            decreases self.plugins.len() - i,
        {
            if str_equal(self.plugins[i].id.as_str(), plugin) {
                proof {
                    lemma_plugin_index(self.plugins@, plugin@, i as int);
                }
                return self.plugins[i].node(id);
            }
            i += 1;
        }
        proof {
            lemma_plugin_index(self.plugins@, plugin@, i as int);
        }
        None
    }

    /// Registers an extension. It takes the place of the extension that is
    /// registered under the same identifier, if there is one.
    pub fn register(&mut self, plugin: Plugin)
        ensures
            final(self).active_node == old(self).active_node,
            match plugin_index(old(self).plugins@, plugin.id@) {
                Some(at) => final(self).plugins@ == old(self).plugins@.update(at, plugin),
                None => final(self).plugins@ == old(self).plugins@.push(plugin),
            },
    {
        let mut i: usize = 0;
        while i < self.plugins.len()
            invariant
                i <= self.plugins.len(),
                self.plugins@ == old(self).plugins@,
                self.active_node == old(self).active_node,
                forall|j: int| 0 <= j < i ==> (#[trigger] self.plugins@[j]).id@ != plugin.id@,
            decreases self.plugins.len() - i,
        {
            if str_equal(self.plugins[i].id.as_str(), plugin.id.as_str()) {
                proof {
                    lemma_plugin_index(self.plugins@, plugin.id@, i as int);
                }
                self.plugins.set(i, plugin);
                return ;
            }
            i += 1;
        }
        proof {
            lemma_plugin_index(self.plugins@, plugin.id@, i as int);
        }
        self.plugins.push(plugin);
    }

    /// A fresh node of every registered extension kind, extension by
    /// extension and kind by kind.
    pub fn custom_kinds(&self) -> (kinds: Vec<NFNodeData>)
        ensures
            kinds@.len() == registered_kinds(self.plugins@, self.plugins@.len()).len(),
            forall|k: int|
                0 <= k < kinds@.len() ==> is_fresh_custom(
                    #[trigger] kinds@[k],
                    registered_kinds(self.plugins@, self.plugins@.len())[k],
                ),
    {
        let mut kinds: Vec<NFNodeData> = Vec::new();
        let mut i: usize = 0;
        while i < self.plugins.len()
            invariant
                i <= self.plugins.len(),
                kinds@.len() == registered_kinds(self.plugins@, i as nat).len(),
                forall|k: int|
                    0 <= k < kinds@.len() ==> is_fresh_custom(
                        #[trigger] kinds@[k],
                        registered_kinds(self.plugins@, i as nat)[k],
                    ),
            decreases self.plugins.len() - i,
        {
            let plugin = &self.plugins[i];
            let ghost before = registered_kinds(self.plugins@, i as nat);
            let ghost added = plugin.nf@.map_values(
                |entry: (String, NFNode)| (self.plugins@[i as int].id@, entry.0@),
            );
            let mut j: usize = 0;
            while j < plugin.nf.len()
                invariant
                    i < self.plugins.len(),
                    *plugin == self.plugins@[i as int],
                    j <= plugin.nf.len(),
                    before == registered_kinds(self.plugins@, i as nat),
                    added == plugin.nf@.map_values(
                        |entry: (String, NFNode)| (self.plugins@[i as int].id@, entry.0@),
                    ),
                    kinds@.len() == before.len() + j,
                    forall|k: int|
                        0 <= k < kinds@.len() ==> is_fresh_custom(
                            #[trigger] kinds@[k],
                            (before + added)[k],
                        ),
                decreases plugin.nf.len() - j,
            {
                kinds.push(
                    NFNodeData::Custom {
                        plugin: plugin.id.clone(),
                        id: plugin.nf[j].0.clone(),
                        data: Params::new(),
                    },
                );
                j += 1;
            }
            i += 1;
        }
        kinds
    }
}

} // verus!
