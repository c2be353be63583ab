//! The predicate evaluator: what a node adds to the paths that reach it.
//!
//! A built-in node appends exactly one predicate to a copy of the incoming
//! path. A node of an extension kind is evaluated by the extension's script;
//! the script is run outside this library, and its answers are handed in.

use vstd::prelude::*;
use crate::error::Error;
use crate::graph::Node;
use crate::id_type::OutputId;
use crate::node_data::NFNodeData;
use crate::predicate::{
    clone_path,
    params_insert,
    path_view,
    paths_equal,
    paths_view,
    Params,
    ParamsView,
    Predicate,
    PredicateView,
};
use crate::text::str_equal;

verus! {

/// A request as mathematics.
pub struct PluginRequestView {
    pub plugin: Seq<char>,
    pub id: Seq<char>,
    pub branch: Seq<char>,
    pub input: Seq<PredicateView>,
}

/// What an extension script is asked: the node kind `id` of extension
/// `plugin` is to say what becomes of path `input` on output `branch`.
#[derive(Debug)]
pub struct PluginRequest {
    pub plugin: String,
    pub id: String,
    pub branch: String,
    pub input: Vec<Predicate>,
}

impl View for PluginRequest {
    type V = PluginRequestView;

    open spec fn view(&self) -> PluginRequestView {
        PluginRequestView {
            plugin: self.plugin@,
            id: self.id@,
            branch: self.branch@,
            input: path_view(self.input@),
        }
    }
}

/// What an extension script answered: the outgoing path, and data that is
/// kept as the node's editable parameters and not looked at here.
#[derive(Debug)]
pub struct PluginReply {
    pub condition_path: Vec<Predicate>,
    pub custom_data: Params,
}

/// A reply as mathematics.
pub struct ReplyView {
    pub condition_path: Seq<PredicateView>,
    pub custom_data: ParamsView,
}

impl View for PluginReply {
    type V = ReplyView;

    open spec fn view(&self) -> ReplyView {
        ReplyView {
            condition_path: path_view(self.condition_path@),
            custom_data: self.custom_data@,
        }
    }
}

/// The reply of a script as mathematics, or nothing where the script failed.
pub open spec fn reply_view(reply: Option<PluginReply>) -> Option<ReplyView> {
    match reply {
        Some(r) => Some(r@),
        None => None,
    }
}

/// A recorded answer as mathematics: the request, and the reply, or nothing
/// where the script failed.
pub struct AnswerView {
    pub request: PluginRequestView,
    pub reply: Option<ReplyView>,
}

/// The first answer recorded for a request, if any.
pub open spec fn answer_for(answers: Seq<AnswerView>, request: PluginRequestView) -> Option<
    Option<ReplyView>,
>
    decreases answers.len(),
{
    if answers.len() == 0 {
        None
    } else if answers[0].request == request {
        Some(answers[0].reply)
    } else {
        answer_for(answers.drop_first(), request)
    }
}

/// The answers of extension scripts that are known so far.
#[derive(Debug)]
pub struct PluginAnswers {
    entries: Vec<(PluginRequest, Option<PluginReply>)>,
}

/// Stored answers as mathematics.
spec fn entries_view(entries: Seq<(PluginRequest, Option<PluginReply>)>) -> Seq<AnswerView> {
    Seq::new(
        entries.len(),
        |i: int|
            AnswerView { request: entries[i].0@, reply: reply_view(entries[i].1) },
    )
}

impl View for PluginAnswers {
    type V = Seq<AnswerView>;

    closed spec fn view(&self) -> Seq<AnswerView> {
        entries_view(self.entries@)
    }
}

impl PluginAnswers {
    /// No answers.
    pub fn new() -> (answers: Self)
        ensures
            answers@ == Seq::<AnswerView>::empty(),
    {
        let answers = PluginAnswers { entries: Vec::new() };
        assert(answers@ =~= Seq::<AnswerView>::empty());
        answers
    }

    /// The number of recorded answers.
    pub fn len(&self) -> (count: usize)
        ensures
            count == self@.len(),
    {
        self.entries.len()
    }

    /// Records what a script answered to a request; `None` where the script
    /// could not be run or answered outside the envelope. An answer recorded
    /// earlier for the same request stays the one that counts.
    pub fn record(&mut self, request: PluginRequest, reply: Option<PluginReply>)
        ensures
            final(self)@ == old(self)@.push(
                AnswerView { request: request@, reply: reply_view(reply) },
            ),
    {
        self.entries.push((request, reply));
        assert(self@ =~= old(self)@.push(
            AnswerView { request: request@, reply: reply_view(reply) },
        ));
    }

    /// The answer that counts for a request, if one was recorded.
    pub fn find(&self, plugin: &str, id: &str, branch: &str, input: &Vec<Predicate>) -> (found:
        Option<&Option<PluginReply>>)
        ensures
            match found {
                Some(Some(reply)) => answer_for(
                    self@,
                    PluginRequestView {
                        plugin: plugin@,
                        id: id@,
                        branch: branch@,
                        input: path_view(input@),
                    },
                ) == Some(Some(reply@)),
                Some(None) => answer_for(
                    self@,
                    PluginRequestView {
                        plugin: plugin@,
                        id: id@,
                        branch: branch@,
                        input: path_view(input@),
                    },
                ) == Some(None::<ReplyView>),
                None => answer_for(
                    self@,
                    PluginRequestView {
                        plugin: plugin@,
                        id: id@,
                        branch: branch@,
                        input: path_view(input@),
                    },
                ) is None,
            },
    {
        let ghost request = PluginRequestView {
            plugin: plugin@,
            id: id@,
            branch: branch@,
            input: path_view(input@),
        };
        let mut i: usize = 0;
        assert(self@.skip(0) =~= self@);
        while i < self.entries.len()
            invariant
                i <= self.entries.len(),
                request == (PluginRequestView {
                    plugin: plugin@,
                    id: id@,
                    branch: branch@,
                    input: path_view(input@),
                }),
                answer_for(self@, request) == answer_for(self@.skip(i as int), request),
            decreases self.entries.len() - i,
        {
            let entry = &self.entries[i];
            assert(self@.skip(i as int)[0] == self@[i as int]);
            assert(self@.skip(i as int).drop_first() =~= self@.skip(i + 1));
            if str_equal(entry.0.plugin.as_str(), plugin) && str_equal(entry.0.id.as_str(), id)
                && str_equal(entry.0.branch.as_str(), branch) && paths_equal(&entry.0.input, input) {
                return Some(&entry.1);
            }
            i += 1;
        }
        None
    }
}

/// How far an evaluation got.
#[derive(Debug)]
pub enum Eval<T> {
    /// It is complete.
    Done(T),
    /// It failed.
    Failed(Error),
    /// It cannot go on before this request has an answer.
    Needs(PluginRequest),
}

/// How far an evaluation got, as mathematics.
pub enum EvalView<T> {
    Done(T),
    Failed(Error),
    Needs(PluginRequestView),
}

/// Whether `branch` is one of the two outputs of a filter.
pub open spec fn is_filter_branch(branch: Seq<char>) -> bool {
    branch == "match"@ || branch == "non-match"@
}

/// Whether `branch` is one of the two outputs of the family splitter.
pub open spec fn is_family_branch(branch: Seq<char>) -> bool {
    branch == "ipv4"@ || branch == "ipv6"@
}

/// The parameters of a filter predicate: the configured value under `key`
/// and the branch as the rule.
pub open spec fn filter_params(key: Seq<char>, value: Seq<char>, branch: Seq<char>) -> ParamsView {
    params_insert(params_insert(Seq::empty(), key, value), "rule"@, branch)
}

/// The path with one predicate of the node's kind at its end.
pub open spec fn appended(path: Seq<PredicateView>, node: NFNodeData, params: ParamsView) -> Seq<
    PredicateView,
> {
    path.push(PredicateView { variant: node.id_spec(), params })
}

/// A filter's outgoing path on `branch`.
pub open spec fn filtered(
    path: Seq<PredicateView>,
    node: NFNodeData,
    key: Seq<char>,
    value: Seq<char>,
    branch: Seq<char>,
) -> EvalView<Seq<PredicateView>> {
    if is_filter_branch(branch) {
        EvalView::Done(appended(path, node, filter_params(key, value, branch)))
    } else {
        EvalView::Failed(Error::UnknownBranch)
    }
}

/// What a node makes of an incoming path on one of its output branches.
pub open spec fn apply_spec(
    answers: Seq<AnswerView>,
    path: Seq<PredicateView>,
    node: NFNodeData,
    branch: Seq<char>,
) -> EvalView<Seq<PredicateView>> {
    match node {
        NFNodeData::Custom { plugin, id, .. } => {
            let request = PluginRequestView { plugin: plugin@, id: id@, branch, input: path };
            match answer_for(answers, request) {
                Some(Some(reply)) => EvalView::Done(reply.condition_path),
                Some(None) => EvalView::Failed(Error::PluginError),
                None => EvalView::Needs(request),
            }
        },
        NFNodeData::FileIpList(file) => match file {
            Some(name) => filtered(path, node, "path"@, name@, branch),
            None => EvalView::Failed(Error::ConfigurationError),
        },
        NFNodeData::SourceAddressFilter(value)
        | NFNodeData::DestinationAddressFilter(value)
        | NFNodeData::SourcePortFilter(value)
        | NFNodeData::DestinationPortFilter(value)
        | NFNodeData::InterfaceFilter(value)
        | NFNodeData::ProtocolFilter(value) => filtered(path, node, "filter"@, value@, branch),
        NFNodeData::SourceNAT(addr) | NFNodeData::DestinationNAT(addr) => EvalView::Done(
            appended(path, node, params_insert(Seq::empty(), "addr"@, addr@)),
        ),
        NFNodeData::Localhost | NFNodeData::Accept | NFNodeData::Drop => EvalView::Done(
            appended(path, node, Seq::empty()),
        ),
        NFNodeData::FamilySplitter => if is_family_branch(branch) {
            EvalView::Done(appended(path, node, params_insert(Seq::empty(), "family"@, branch)))
        } else {
            EvalView::Failed(Error::UnknownBranch)
        },
        NFNodeData::Source => EvalView::Done(
            seq![PredicateView { variant: node.id_spec(), params: Seq::empty() }],
        ),
    }
}

/// A built-in node only ever appends: the source starts a path of length one
/// whatever came in, every other built-in kind returns the incoming path
/// unchanged with exactly one predicate more at its end.
pub proof fn lemma_apply_appends(
    answers: Seq<AnswerView>,
    path: Seq<PredicateView>,
    node: NFNodeData,
    branch: Seq<char>,
)
    requires
        !(node is Custom),
        apply_spec(answers, path, node, branch) is Done,
    ensures
        node is Source ==> apply_spec(answers, path, node, branch)->Done_0.len() == 1,
        !(node is Source) ==> apply_spec(answers, path, node, branch)->Done_0.len() == path.len()
            + 1 && apply_spec(answers, path, node, branch)->Done_0.take(path.len() as int) == path,
{
    if !(node is Source) {
        let out = apply_spec(answers, path, node, branch)->Done_0;
        assert(out.take(path.len() as int) =~= path);
    }
}

/// An extension node hands on exactly what its script answered: nothing is
/// added to the script's path.
pub proof fn lemma_apply_custom(
    answers: Seq<AnswerView>,
    path: Seq<PredicateView>,
    node: NFNodeData,
    branch: Seq<char>,
)
    requires
        node is Custom,
    ensures
        match answer_for(
            answers,
            PluginRequestView {
                plugin: node->plugin@,
                id: node->id@,
                branch,
                input: path,
            },
        ) {
            Some(Some(reply)) => apply_spec(answers, path, node, branch) == EvalView::Done(
                reply.condition_path,
            ),
            Some(None) => apply_spec(answers, path, node, branch) == EvalView::<
                Seq<PredicateView>,
            >::Failed(Error::PluginError),
            None => apply_spec(answers, path, node, branch) is Needs,
        },
{
}

/// The incoming path with one more predicate of the node's kind.
fn extend(input: &Vec<Predicate>, node_data: &NFNodeData, params: Params) -> (path: Vec<Predicate>)
    ensures
        path_view(path@) == appended(path_view(input@), *node_data, params@),
{
    let mut path = clone_path(input);
    let ghost before = path_view(path@);
    let predicate = Predicate::new(node_data.get_id(), params);
    path.push(predicate);
    assert(path_view(path@) =~= before.push(predicate@));
    path
}

/// A filter's outgoing path.
fn filter(input: &Vec<Predicate>, node_data: &NFNodeData, key: &str, value: &String, branch: &str) -> (result:
    Eval<Vec<Predicate>>)
    ensures
        match result {
            Eval::Done(path) => filtered(path_view(input@), *node_data, key@, value@, branch@)
                == EvalView::Done(path_view(path@)),
            Eval::Failed(e) => filtered(path_view(input@), *node_data, key@, value@, branch@)
                == EvalView::<Seq<PredicateView>>::Failed(e),
            Eval::Needs(_) => false,
        },
{
    if str_equal(branch, "match") || str_equal(branch, "non-match") {
        let params = Params::new().with(key.to_string(), value.clone()).with(
            "rule".to_string(),
            branch.to_string(),
        );
        Eval::Done(extend(input, node_data, params))
    } else {
        Eval::Failed(Error::UnknownBranch)
    }
}

/// What a node makes of an incoming path on the output named `output_name`.
///
/// For a node of an extension kind the answer of its script is looked up in
/// `answers`; where none is recorded, the result says which request to put to
/// the script.
pub fn apply(
    answers: &PluginAnswers,
    input: &Vec<Predicate>,
    node_data: &NFNodeData,
    output_name: &str,
) -> (result: Eval<Vec<Predicate>>)
    ensures
        match result {
            Eval::Done(path) => apply_spec(answers@, path_view(input@), *node_data, output_name@)
                == EvalView::Done(path_view(path@)),
            Eval::Failed(e) => apply_spec(answers@, path_view(input@), *node_data, output_name@)
                == EvalView::<Seq<PredicateView>>::Failed(e),
            Eval::Needs(request) => apply_spec(
                answers@,
                path_view(input@),
                *node_data,
                output_name@,
            ) == EvalView::<Seq<PredicateView>>::Needs(request@),
        },
{
    match node_data {
        NFNodeData::Custom { plugin, id, .. } => {
            match answers.find(plugin.as_str(), id.as_str(), output_name, input) {
                Some(Some(reply)) => Eval::Done(clone_path(&reply.condition_path)),
                Some(None) => Eval::Failed(Error::PluginError),
                None => Eval::Needs(
                    PluginRequest {
                        plugin: plugin.clone(),
                        id: id.clone(),
                        branch: output_name.to_string(),
                        input: clone_path(input),
                    },
                ),
            }
        },
        NFNodeData::FileIpList(file) => match file {
            Some(name) => filter(input, node_data, "path", name, output_name),
            None => Eval::Failed(Error::ConfigurationError),
        },
        NFNodeData::SourceAddressFilter(value) => filter(
            input,
            node_data,
            "filter",
            value,
            output_name,
        ),
        NFNodeData::DestinationAddressFilter(value) => filter(
            input,
            node_data,
            "filter",
            value,
            output_name,
        ),
        NFNodeData::SourcePortFilter(value) => filter(
            input,
            node_data,
            "filter",
            value,
            output_name,
        ),
        NFNodeData::DestinationPortFilter(value) => filter(
            input,
            node_data,
            "filter",
            value,
            output_name,
        ),
        NFNodeData::InterfaceFilter(value) => filter(input, node_data, "filter", value, output_name),
        NFNodeData::ProtocolFilter(value) => filter(input, node_data, "filter", value, output_name),
        NFNodeData::SourceNAT(addr) => Eval::Done(
            extend(input, node_data, Params::new().with("addr".to_string(), addr.clone())),
        ),
        NFNodeData::DestinationNAT(addr) => Eval::Done(
            extend(input, node_data, Params::new().with("addr".to_string(), addr.clone())),
        ),
        NFNodeData::Localhost | NFNodeData::Accept | NFNodeData::Drop => Eval::Done(
            extend(input, node_data, Params::new()),
        ),
        NFNodeData::FamilySplitter => {
            if str_equal(output_name, "ipv4") || str_equal(output_name, "ipv6") {
                Eval::Done(
                    extend(
                        input,
                        node_data,
                        Params::new().with("family".to_string(), output_name.to_string()),
                    ),
                )
            } else {
                Eval::Failed(Error::UnknownBranch)
            }
        },
        NFNodeData::Source => {
            let mut path: Vec<Predicate> = Vec::new();
            let predicate = Predicate::new(node_data.get_id(), Params::new());
            path.push(predicate);
            assert(path_view(path@) =~= seq![predicate@]);
            Eval::Done(path)
        },
    }
}

/// The paths that leave a node, by output branch, in the order of its ports.
pub type NodeOutputs = Vec<(String, Vec<Vec<Predicate>>)>;

/// Node outputs as mathematics.
pub type NodeOutputsView = Seq<(Seq<char>, Seq<Seq<PredicateView>>)>;

/// Node outputs as mathematics.
pub open spec fn outputs_view(outputs: Seq<(String, Vec<Vec<Predicate>>)>) -> NodeOutputsView {
    outputs.map_values(|group: (String, Vec<Vec<Predicate>>)| (group.0@, paths_view(group.1@)))
}

/// The branch under which a node without output ports is evaluated.
pub open spec fn terminal_branch() -> Seq<char> {
    "terminal"@
}

/// The branches of a node: the names of its output ports in order, or the
/// one terminal branch where it has no output port.
pub open spec fn branch_names(ports: Seq<(String, OutputId)>) -> Seq<Seq<char>> {
    if ports.len() == 0 {
        seq![terminal_branch()]
    } else {
        ports.map_values(|port: (String, OutputId)| port.0@)
    }
}

/// What a node makes of the first `upto` incoming paths on one branch, in
/// order. The first path that fails or needs an answer decides.
pub open spec fn branch_group(
    answers: Seq<AnswerView>,
    incoming: Seq<Seq<PredicateView>>,
    node: NFNodeData,
    branch: Seq<char>,
    upto: nat,
) -> EvalView<Seq<Seq<PredicateView>>>
    decreases upto,
{
    if upto == 0 {
        EvalView::Done(Seq::empty())
    } else {
        match branch_group(answers, incoming, node, branch, (upto - 1) as nat) {
            EvalView::Done(before) => match apply_spec(
                answers,
                incoming[upto - 1],
                node,
                branch,
            ) {
                EvalView::Done(path) => EvalView::Done(before.push(path)),
                EvalView::Failed(e) => EvalView::Failed(e),
                EvalView::Needs(request) => EvalView::Needs(request),
            },
            EvalView::Failed(e) => EvalView::Failed(e),
            EvalView::Needs(request) => EvalView::Needs(request),
        }
    }
}

/// The groups of the first `upto` branches, in order. The first branch that
/// fails or needs an answer decides.
pub open spec fn branch_groups(
    answers: Seq<AnswerView>,
    incoming: Seq<Seq<PredicateView>>,
    node: NFNodeData,
    branches: Seq<Seq<char>>,
    upto: nat,
) -> EvalView<NodeOutputsView>
    decreases upto,
{
    if upto == 0 {
        EvalView::Done(Seq::empty())
    } else {
        match branch_groups(answers, incoming, node, branches, (upto - 1) as nat) {
            EvalView::Done(before) => match branch_group(
                answers,
                incoming,
                node,
                branches[upto - 1],
                incoming.len(),
            ) {
                EvalView::Done(group) => EvalView::Done(before.push((branches[upto - 1], group))),
                EvalView::Failed(e) => EvalView::Failed(e),
                EvalView::Needs(request) => EvalView::Needs(request),
            },
            EvalView::Failed(e) => EvalView::Failed(e),
            EvalView::Needs(request) => EvalView::Needs(request),
        }
    }
}

/// The outputs of a node whose output ports are `ports`, for the paths that
/// come in: for every branch, what the node makes of every incoming path.
pub open spec fn node_outputs_spec(
    answers: Seq<AnswerView>,
    incoming: Seq<Seq<PredicateView>>,
    node: NFNodeData,
    ports: Seq<(String, OutputId)>,
) -> EvalView<NodeOutputsView> {
    branch_groups(answers, incoming, node, branch_names(ports), branch_names(ports).len())
}

/// A complete group holds one path for each of the paths looked at.
pub proof fn lemma_branch_group_len(
    answers: Seq<AnswerView>,
    incoming: Seq<Seq<PredicateView>>,
    node: NFNodeData,
    branch: Seq<char>,
    upto: nat,
)
    requires
        branch_group(answers, incoming, node, branch, upto) is Done,
    ensures
        branch_group(answers, incoming, node, branch, upto)->Done_0.len() == upto,
    decreases upto,
{
    if upto > 0 {
        lemma_branch_group_len(answers, incoming, node, branch, (upto - 1) as nat);
    }
}

/// Complete groups are one per branch looked at, each under its branch's
/// name and with one path for each incoming path.
pub proof fn lemma_branch_groups_shape(
    answers: Seq<AnswerView>,
    incoming: Seq<Seq<PredicateView>>,
    node: NFNodeData,
    branches: Seq<Seq<char>>,
    upto: nat,
)
    requires
        upto <= branches.len(),
        branch_groups(answers, incoming, node, branches, upto) is Done,
    ensures
        branch_groups(answers, incoming, node, branches, upto)->Done_0.len() == upto,
        forall|k: int|
            0 <= k < upto ==> (#[trigger] branch_groups(
                answers,
                incoming,
                node,
                branches,
                upto,
            )->Done_0[k]).0 == branches[k] && branch_groups(
                answers,
                incoming,
                node,
                branches,
                upto,
            )->Done_0[k].1.len() == incoming.len(),
    decreases upto,
{
    if upto > 0 {
        lemma_branch_groups_shape(answers, incoming, node, branches, (upto - 1) as nat);
        lemma_branch_group_len(answers, incoming, node, branches[upto - 1], incoming.len());
    }
}

/// The outputs of a node are a full cross product: with N incoming paths
/// and K branches there are exactly K groups, one per branch in the order of
/// the branches, and each holds exactly N paths.
pub proof fn lemma_cross_product(
    answers: Seq<AnswerView>,
    incoming: Seq<Seq<PredicateView>>,
    node: NFNodeData,
    ports: Seq<(String, OutputId)>,
)
    requires
        node_outputs_spec(answers, incoming, node, ports) is Done,
    ensures
        node_outputs_spec(answers, incoming, node, ports)->Done_0.len() == branch_names(ports).len(),
        forall|k: int|
            0 <= k < branch_names(ports).len() ==> (#[trigger] node_outputs_spec(
                answers,
                incoming,
                node,
                ports,
            )->Done_0[k]).0 == branch_names(ports)[k] && node_outputs_spec(
                answers,
                incoming,
                node,
                ports,
            )->Done_0[k].1.len() == incoming.len(),
{
    lemma_branch_groups_shape(
        answers,
        incoming,
        node,
        branch_names(ports),
        branch_names(ports).len(),
    );
}

/// Complete groups hold, for each branch looked at, what the node makes of
/// all incoming paths on that branch.
pub proof fn lemma_branch_groups_content(
    answers: Seq<AnswerView>,
    incoming: Seq<Seq<PredicateView>>,
    node: NFNodeData,
    branches: Seq<Seq<char>>,
    upto: nat,
)
    requires
        upto <= branches.len(),
        branch_groups(answers, incoming, node, branches, upto) is Done,
    ensures
        branch_groups(answers, incoming, node, branches, upto)->Done_0.len() == upto,
        forall|k: int|
            0 <= k < upto ==> branch_group(answers, incoming, node, branches[k], incoming.len())
                == EvalView::Done(
                (#[trigger] branch_groups(answers, incoming, node, branches, upto)->Done_0[k]).1,
            ),
    decreases upto,
{
    if upto > 0 {
        lemma_branch_groups_content(answers, incoming, node, branches, (upto - 1) as nat);
    }
}

/// Two output ports of one name give the same group: which of them is
/// looked up makes no difference.
pub proof fn lemma_one_name_one_group(
    answers: Seq<AnswerView>,
    incoming: Seq<Seq<PredicateView>>,
    node: NFNodeData,
    ports: Seq<(String, OutputId)>,
    j: int,
    k: int,
)
    requires
        node_outputs_spec(answers, incoming, node, ports) is Done,
        0 <= j < branch_names(ports).len(),
        0 <= k < branch_names(ports).len(),
        branch_names(ports)[j] == branch_names(ports)[k],
    ensures
        node_outputs_spec(answers, incoming, node, ports)->Done_0[j] == node_outputs_spec(
            answers,
            incoming,
            node,
            ports,
        )->Done_0[k],
{
    lemma_branch_groups_content(
        answers,
        incoming,
        node,
        branch_names(ports),
        branch_names(ports).len(),
    );
    lemma_branch_groups_shape(
        answers,
        incoming,
        node,
        branch_names(ports),
        branch_names(ports).len(),
    );
    let groups = node_outputs_spec(answers, incoming, node, ports)->Done_0;
    assert(branch_group(answers, incoming, node, branch_names(ports)[j], incoming.len())
        == EvalView::Done(groups[j].1));
    assert(branch_group(answers, incoming, node, branch_names(ports)[k], incoming.len())
        == EvalView::Done(groups[k].1));
}

/// What a node makes of every incoming path on one branch.
fn group_for(
    answers: &PluginAnswers,
    node_inputs: &Vec<Vec<Predicate>>,
    node_data: &NFNodeData,
    branch: &str,
) -> (result: Eval<Vec<Vec<Predicate>>>)
    ensures
        match result {
            Eval::Done(group) => branch_group(
                answers@,
                paths_view(node_inputs@),
                *node_data,
                branch@,
                node_inputs@.len(),
            ) == EvalView::Done(paths_view(group@)),
            Eval::Failed(e) => branch_group(
                answers@,
                paths_view(node_inputs@),
                *node_data,
                branch@,
                node_inputs@.len(),
            ) == EvalView::<Seq<Seq<PredicateView>>>::Failed(e),
            Eval::Needs(request) => branch_group(
                answers@,
                paths_view(node_inputs@),
                *node_data,
                branch@,
                node_inputs@.len(),
            ) == EvalView::<Seq<Seq<PredicateView>>>::Needs(request@),
        },
{
    let mut group: Vec<Vec<Predicate>> = Vec::new();
    let mut i: usize = 0;
    assert(paths_view(group@) =~= Seq::<Seq<PredicateView>>::empty());
    while i < node_inputs.len()
        invariant
            i <= node_inputs.len(),
            branch_group(answers@, paths_view(node_inputs@), *node_data, branch@, i as nat)
                == EvalView::Done(paths_view(group@)),
        decreases node_inputs.len() - i,
    {
        assert(paths_view(node_inputs@)[i as int] == path_view(node_inputs@[i as int]@));
        match apply(answers, &node_inputs[i], node_data, branch) {
            Eval::Done(path) => {
                let ghost before = paths_view(group@);
                group.push(path);
                assert(paths_view(group@) =~= before.push(path_view(path@)));
            },
            Eval::Failed(e) => {
                proof {
                    lemma_group_stops(
                        answers@,
                        paths_view(node_inputs@),
                        *node_data,
                        branch@,
                        (i + 1) as nat,
                        node_inputs@.len(),
                    );
                }
                return Eval::Failed(e);
            },
            Eval::Needs(request) => {
                proof {
                    lemma_group_stops(
                        answers@,
                        paths_view(node_inputs@),
                        *node_data,
                        branch@,
                        (i + 1) as nat,
                        node_inputs@.len(),
                    );
                }
                return Eval::Needs(request);
            },
        }
        i += 1;
    }
    Eval::Done(group)
}

/// Once a group has stopped short, looking at more paths changes nothing.
proof fn lemma_group_stops(
    answers: Seq<AnswerView>,
    incoming: Seq<Seq<PredicateView>>,
    node: NFNodeData,
    branch: Seq<char>,
    at: nat,
    upto: nat,
)
    requires
        at <= upto,
        !(branch_group(answers, incoming, node, branch, at) is Done),
    ensures
        branch_group(answers, incoming, node, branch, upto) == branch_group(
            answers,
            incoming,
            node,
            branch,
            at,
        ),
    decreases upto,
{
    if at < upto {
        lemma_group_stops(answers, incoming, node, branch, at, (upto - 1) as nat);
    }
}

/// Once the groups have stopped short, looking at more branches changes nothing.
proof fn lemma_groups_stop(
    answers: Seq<AnswerView>,
    incoming: Seq<Seq<PredicateView>>,
    node: NFNodeData,
    branches: Seq<Seq<char>>,
    at: nat,
    upto: nat,
)
    requires
        at <= upto,
        !(branch_groups(answers, incoming, node, branches, at) is Done),
    ensures
        branch_groups(answers, incoming, node, branches, upto) == branch_groups(
            answers,
            incoming,
            node,
            branches,
            at,
        ),
    decreases upto,
{
    if at < upto {
        lemma_groups_stop(answers, incoming, node, branches, at, (upto - 1) as nat);
    }
}

/// The outputs of a node for the paths that come in: for every output port
/// of the node, in order, what the node makes of every incoming path; for a
/// node without output ports, the same under the one branch `terminal`.
pub fn node_outputs(answers: &PluginAnswers, node_inputs: &Vec<Vec<Predicate>>, node: &Node) -> (result:
    Eval<NodeOutputs>)
    ensures
        match result {
            Eval::Done(outputs) => node_outputs_spec(
                answers@,
                paths_view(node_inputs@),
                node.user_data,
                node.outputs@,
            ) == EvalView::Done(outputs_view(outputs@)),
            Eval::Failed(e) => node_outputs_spec(
                answers@,
                paths_view(node_inputs@),
                node.user_data,
                node.outputs@,
            ) == EvalView::<NodeOutputsView>::Failed(e),
            Eval::Needs(request) => node_outputs_spec(
                answers@,
                paths_view(node_inputs@),
                node.user_data,
                node.outputs@,
            ) == EvalView::<NodeOutputsView>::Needs(request@),
        },
{
    let mut outputs: NodeOutputs = Vec::new();
    let ghost branches = branch_names(node.outputs@);
    let count: usize = if node.outputs.len() == 0 {
        1
    } else {
        node.outputs.len()
    };
    assert(outputs_view(outputs@) =~= Seq::<(Seq<char>, Seq<Seq<PredicateView>>)>::empty());
    let mut k: usize = 0;
    while k < count
        invariant
            k <= count,
            count == branches.len(),
            branches == branch_names(node.outputs@),
            branch_groups(answers@, paths_view(node_inputs@), node.user_data, branches, k as nat)
                == EvalView::Done(outputs_view(outputs@)),
        decreases count - k,
    {
        let name: String = if node.outputs.len() == 0 {
            "terminal".to_string()
        } else {
            node.outputs[k].0.clone()
        };
        assert(name@ == branches[k as int]);
        match group_for(answers, node_inputs, &node.user_data, name.as_str()) {
            Eval::Done(group) => {
                let ghost before = outputs_view(outputs@);
                let ghost added = (name@, paths_view(group@));
                outputs.push((name, group));
                assert(outputs_view(outputs@) =~= before.push(added));
            },
            Eval::Failed(e) => {
                proof {
                    lemma_groups_stop(
                        answers@,
                        paths_view(node_inputs@),
                        node.user_data,
                        branches,
                        (k + 1) as nat,
                        count as nat,
                    );
                }
                return Eval::Failed(e);
            },
            Eval::Needs(request) => {
                proof {
                    lemma_groups_stop(
                        answers@,
                        paths_view(node_inputs@),
                        node.user_data,
                        branches,
                        (k + 1) as nat,
                        count as nat,
                    );
                }
                return Eval::Needs(request);
            },
        }
        k += 1;
    }
    Eval::Done(outputs)
}

/// The index of the first group of the branch `name`, if there is one.
pub open spec fn group_index(outputs: NodeOutputsView, name: Seq<char>) -> Option<int>
    decreases outputs.len(),
{
    if outputs.len() == 0 {
        None
    } else if outputs[0].0 == name {
        Some(0)
    } else {
        match group_index(outputs.drop_first(), name) {
            Some(at) => Some(at + 1),
            None => None,
        }
    }
}

/// The paths that leave on the branch `name`: those of the first group of
/// that name, or none where the node has no such branch.
pub open spec fn paths_on(outputs: NodeOutputsView, name: Seq<char>) -> Seq<Seq<PredicateView>> {
    match group_index(outputs, name) {
        Some(at) => outputs[at].1,
        None => Seq::empty(),
    }
}

/// `group_index` finds `at` exactly when `at` is the first group of that name.
pub proof fn lemma_group_index(outputs: NodeOutputsView, name: Seq<char>, at: int)
    requires
        0 <= at <= outputs.len(),
        forall|j: int| 0 <= j < at ==> (#[trigger] outputs[j]).0 != name,
        at < outputs.len() ==> outputs[at].0 == name,
    ensures
        group_index(outputs, name) == if at < outputs.len() {
            Some(at)
        } else {
            None
        },
    decreases at,
{
    if at > 0 {
        let rest = outputs.drop_first();
        assert forall|j: int| 0 <= j < at - 1 implies (#[trigger] rest[j]).0 != name by {
            assert(rest[j] == outputs[j + 1]);
        }
        if at < outputs.len() {
            assert(rest[at - 1] == outputs[at]);
        }
        lemma_group_index(rest, name, at - 1);
    }
}

/// The position of the first group of the branch `name`.
pub fn find_group(outputs: &NodeOutputs, name: &str) -> (found: Option<usize>)
    ensures
        match found {
            Some(at) => group_index(outputs_view(outputs@), name@) == Some(at as int) && at
                < outputs@.len(),
            None => group_index(outputs_view(outputs@), name@) is None,
        },
{
    let mut i: usize = 0;
    while i < outputs.len()
        invariant
            i <= outputs.len(),
            forall|j: int| 0 <= j < i ==> (#[trigger] outputs_view(outputs@)[j]).0 != name@,
        decreases outputs.len() - i,
    {
        if str_equal(outputs[i].0.as_str(), name) {
            proof {
                lemma_group_index(outputs_view(outputs@), name@, i as int);
            }
            return Some(i);
        }
        i += 1;
    }
    proof {
        lemma_group_index(outputs_view(outputs@), name@, i as int);
    }
    None
}

} // verus!
