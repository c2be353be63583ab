//! The path collector: every complete condition path of a graph.
//!
//! The outputs of a node are computed from the outputs of the nodes that
//! feed its first input port, senders before receivers, and each node once.

use vstd::prelude::*;
use crate::error::Error;
use crate::evaluator::{
    find_group,
    node_outputs,
    node_outputs_spec,
    outputs_view,
    paths_on,
    terminal_branch,
    AnswerView,
    Eval,
    EvalView,
    NodeOutputs,
    NodeOutputsView,
    PluginAnswers,
    PluginRequestView,
};
use crate::graph::Graph;
use crate::id_type::{InputId, NodeId};
use crate::predicate::{clone_path, path_view, paths_view, Predicate, PredicateView};

verus! {

/// The first input port of node `n`, the one that drives its evaluation.
pub open(crate) spec fn first_input(g: &Graph, n: int) -> int {
    g.nodes@[n].inputs@[0].1.0 as int
}

/// Whether the output port at position `k` of node `s` is connected to input
/// port `i`.
pub open(crate) spec fn wired(g: &Graph, s: int, k: int, i: int) -> bool {
    0 <= k < g.nodes@[s].outputs@.len() && g.target(g.nodes@[s].outputs@[k].1.0 as int) == i
}

/// Whether some output port of node `s` is connected to input port `i`.
pub open(crate) spec fn feeds(g: &Graph, s: int, i: int) -> bool {
    exists|k: int| wired(g, s, k, i)
}

/// The paths that node `s`, whose outputs are `outs`, sends to input port
/// `i` through the first `upto` of its output ports, port by port.
pub open(crate) spec fn wired_paths(
    g: &Graph,
    s: int,
    i: int,
    outs: NodeOutputsView,
    upto: nat,
) -> Seq<Seq<PredicateView>>
    decreases upto,
{
    if upto == 0 {
        Seq::empty()
    } else {
        let before = wired_paths(g, s, i, outs, (upto - 1) as nat);
        if wired(g, s, upto - 1, i) {
            before + paths_on(outs, g.nodes@[s].outputs@[upto - 1].0@)
        } else {
            before
        }
    }
}

/// A node that feeds the first input port of another has the lower rank.
pub(crate) proof fn lemma_sender_rank(g: &Graph, s: int, n: int)
    requires
        g.wf(),
        0 <= s < g.nodes@.len(),
        0 <= n < g.nodes@.len(),
        g.nodes@[n].inputs@.len() > 0,
        feeds(g, s, first_input(g, n)),
    ensures
        g.rank@[s] < g.rank@[n],
{
    let i = first_input(g, n);
    let k = choose|k: int| wired(g, s, k, i);
    let o = g.nodes@[s].outputs@[k].1.0 as int;
    assert(g.node_ok(s));
    assert(g.node_ok(n));
    assert(g.nodes@[s].outputs@[k].1.0 < g.outputs@.len());
    assert(g.nodes@[n].inputs@[0].1.0 < g.inputs@.len());
    assert(g.output_ok(o));
}

/// A node that feeds the first input port of another is connected to it.
pub(crate) proof fn lemma_sender_edge(g: &Graph, s: int, n: int)
    requires
        g.wf(),
        0 <= s < g.nodes@.len(),
        0 <= n < g.nodes@.len(),
        g.nodes@[n].inputs@.len() > 0,
        feeds(g, s, first_input(g, n)),
    ensures
        g.edge(s, n),
{
    let i = first_input(g, n);
    let k = choose|k: int| wired(g, s, k, i);
    let o = g.nodes@[s].outputs@[k].1.0 as int;
    assert(g.node_ok(s));
    assert(g.node_ok(n));
    assert(g.nodes@[s].outputs@[k].1.0 < g.outputs@.len());
    assert(g.nodes@[n].inputs@[0].1.0 < g.inputs@.len());
    assert(g.output_owner(o) == s && g.target(o) >= 0 && g.input_owner(g.target(o)) == n);
}

/// The outputs of node `n`: what the node makes, on each of its branches, of
/// the paths that come in.
pub open(crate) spec fn resolved(g: &Graph, answers: Seq<AnswerView>, n: int) -> EvalView<
    NodeOutputsView,
>
    decreases g.rank_seq()[n], g.node_seq().len() + 2,
    when g.wf() && 0 <= n < g.node_seq().len()
{
    match incoming_paths(g, answers, n) {
        EvalView::Done(incoming) => node_outputs_spec(
            answers,
            incoming,
            g.nodes@[n].user_data,
            g.nodes@[n].outputs@,
        ),
        EvalView::Failed(e) => EvalView::Failed(e),
        EvalView::Needs(request) => EvalView::Needs(request),
    }
}

/// The paths that come into node `n`: the one empty path where the node has
/// no input port, else what its senders send to its first input port.
pub open(crate) spec fn incoming_paths(g: &Graph, answers: Seq<AnswerView>, n: int) -> EvalView<
    Seq<Seq<PredicateView>>,
>
    decreases g.rank_seq()[n], g.node_seq().len() + 1,
    when g.wf() && 0 <= n < g.node_seq().len()
{
    if g.nodes@[n].inputs@.len() == 0 {
        EvalView::Done(seq![Seq::empty()])
    } else {
        gathered(g, answers, n, g.nodes@.len())
    }
}

/// What the nodes with a handle below `upto` send to the first input port of
/// node `n`, in the order of their handles. A sender that failed sends
/// nothing; a sender that needs an answer makes the receiver need it.
pub open(crate) spec fn gathered(g: &Graph, answers: Seq<AnswerView>, n: int, upto: nat) -> EvalView<
    Seq<Seq<PredicateView>>,
>
    decreases g.rank_seq()[n], upto,
    when g.wf() && 0 <= n < g.node_seq().len() && g.node_seq()[n].inputs@.len() > 0 && upto
        <= g.node_seq().len()
{
    if upto == 0 {
        EvalView::Done(Seq::empty())
    } else {
        match gathered(g, answers, n, (upto - 1) as nat) {
            EvalView::Done(before) => {
                let s = upto - 1;
                if feeds(g, s, first_input(g, n)) {
                    proof {
                        lemma_sender_rank(g, s, n);
                    }
                    match resolved(g, answers, s) {
                        EvalView::Done(outs) => EvalView::Done(
                            before + wired_paths(
                                g,
                                s,
                                first_input(g, n),
                                outs,
                                g.nodes@[s].outputs@.len(),
                            ),
                        ),
                        EvalView::Failed(_) => EvalView::Done(before),
                        EvalView::Needs(request) => EvalView::Needs(request),
                    }
                } else {
                    EvalView::Done(before)
                }
            },
            EvalView::Failed(e) => EvalView::Failed(e),
            EvalView::Needs(request) => EvalView::Needs(request),
        }
    }
}

/// What is known of each node's outputs is right: a remembered value is the
/// value the node resolves to.
pub open(crate) spec fn memo_valid(
    g: &Graph,
    answers: Seq<AnswerView>,
    memo: Seq<Option<NodeOutputs>>,
) -> bool {
    &&& memo.len() == g.nodes@.len()
    &&& forall|n: int|
        0 <= n < memo.len() ==> match #[trigger] memo[n] {
            Some(outs) => resolved(g, answers, n) == EvalView::Done(outputs_view(outs@)),
            None => true,
        }
}

/// Whether some output port of node `sender` is connected to `input`.
fn node_feeds(graph: &Graph, sender: usize, input: InputId) -> (found: bool)
    requires
        graph.wf(),
        sender < graph.nodes@.len(),
    ensures
        found == feeds(graph, sender as int, input.0 as int),
{
    let node = &graph.nodes[sender];
    let mut k: usize = 0;
    while k < node.outputs.len()
        invariant
            graph.wf(),
            sender < graph.nodes@.len(),
            *node == graph.nodes@[sender as int],
            k <= node.outputs@.len(),
            forall|j: int| 0 <= j < k ==> !wired(graph, sender as int, j, input.0 as int),
        decreases node.outputs.len() - k,
    {
        let output = node.outputs[k].1;
        assert(graph.node_ok(sender as int));
        assert(node.outputs@[k as int].1.0 < graph.outputs@.len());
        match graph.connections[output.0] {
            Some(target) => {
                if target.0 == input.0 {
                    assert(wired(graph, sender as int, k as int, input.0 as int));
                    return true;
                }
            },
            None => {},
        }
        k += 1;
    }
    false
}

/// Appends copies of `paths` to `into`.
fn append_paths(into: &mut Vec<Vec<Predicate>>, paths: &Vec<Vec<Predicate>>)
    ensures
        paths_view(final(into)@) == paths_view(old(into)@) + paths_view(paths@),
{
    let ghost start = paths_view(into@);
    let mut j: usize = 0;
    assert(paths_view(paths@).take(0) =~= Seq::<Seq<PredicateView>>::empty());
    assert(start + Seq::<Seq<PredicateView>>::empty() =~= start);
    while j < paths.len()
        invariant
            j <= paths.len(),
            paths_view(into@) == start + paths_view(paths@).take(j as int),
        decreases paths.len() - j,
    {
        let copy = clone_path(&paths[j]);
        let ghost before = paths_view(into@);
        into.push(copy);
        assert(paths_view(into@) =~= before.push(path_view(copy@)));
        assert(paths_view(paths@)[j as int] == path_view(paths@[j as int]@));
        assert(start + paths_view(paths@).take(j + 1) =~= (start + paths_view(paths@).take(
            j as int,
        )).push(path_view(copy@)));
        j += 1;
    }
    assert(paths_view(paths@).take(paths.len() as int) =~= paths_view(paths@));
}

/// Appends to `into` what node `sender`, whose outputs are `outs`, sends to
/// `input`.
fn append_wired(
    graph: &Graph,
    sender: usize,
    input: InputId,
    outs: &NodeOutputs,
    into: &mut Vec<Vec<Predicate>>,
)
    requires
        graph.wf(),
        sender < graph.nodes@.len(),
    ensures
        paths_view(final(into)@) == paths_view(old(into)@) + wired_paths(
            graph,
            sender as int,
            input.0 as int,
            outputs_view(outs@),
            graph.nodes@[sender as int].outputs@.len(),
        ),
{
    let node = &graph.nodes[sender];
    let ghost start = paths_view(into@);
    let mut k: usize = 0;
    assert(start + Seq::<Seq<PredicateView>>::empty() =~= start);
    while k < node.outputs.len()
        invariant
            graph.wf(),
            sender < graph.nodes@.len(),
            *node == graph.nodes@[sender as int],
            k <= node.outputs@.len(),
            paths_view(into@) == start + wired_paths(
                graph,
                sender as int,
                input.0 as int,
                outputs_view(outs@),
                k as nat,
            ),
        decreases node.outputs.len() - k,
    {
        let output = node.outputs[k].1;
        assert(graph.node_ok(sender as int));
        assert(node.outputs@[k as int].1.0 < graph.outputs@.len());
        let ghost before = wired_paths(
            graph,
            sender as int,
            input.0 as int,
            outputs_view(outs@),
            k as nat,
        );
        let is_wired = match graph.connections[output.0] {
            Some(target) => target.0 == input.0,
            None => false,
        };
        assert(is_wired == wired(graph, sender as int, k as int, input.0 as int));
        if is_wired {
            match find_group(outs, node.outputs[k].0.as_str()) {
                Some(at) => {
                    assert(outputs_view(outs@)[at as int].1 == paths_view(outs@[at as int].1@));
                    append_paths(into, &outs[at].1);
                    assert(start + (before + paths_view(outs@[at as int].1@)) =~= (start + before)
                        + paths_view(outs@[at as int].1@));
                },
                None => {
                    assert(before + Seq::<Seq<PredicateView>>::empty() =~= before);
                },
            }
        }
        k += 1;
    }
}

/// Makes sure the outputs of `node` are in `memo`, resolving first the
/// nodes that feed it. A node whose outputs are known is not evaluated
/// again, and then the memo stays as it is. Otherwise the memo only grows:
/// what was known stays, and what is added is known of the node itself or of
/// a node that feeds it, directly or through others.
pub(crate) fn resolve(
    graph: &Graph,
    answers: &PluginAnswers,
    node: usize,
    memo: &mut Vec<Option<NodeOutputs>>,
) -> (result: Eval<()>)
    requires
        graph.wf(),
        node < graph.nodes@.len(),
        memo_valid(graph, answers@, old(memo)@),
    ensures
        memo_valid(graph, answers@, final(memo)@),
        old(memo)@[node as int] is Some ==> final(memo)@ == old(memo)@,
        forall|m: int|
            0 <= m < old(memo)@.len() && (#[trigger] old(memo)@[m]) is Some ==> final(memo)@[m]
                == old(memo)@[m],
        forall|m: int|
            0 <= m < old(memo)@.len() && old(memo)@[m] is None && (#[trigger] final(memo)@[m]) is Some
                ==> graph.reaches(m, node as int),
        match result {
            Eval::Done(_) => final(memo)@[node as int] is Some,
            Eval::Failed(e) => resolved(graph, answers@, node as int) == EvalView::<
                NodeOutputsView,
            >::Failed(e),
            Eval::Needs(request) => resolved(graph, answers@, node as int) == EvalView::<
                NodeOutputsView,
            >::Needs(request@),
        },
    decreases graph.rank@[node as int],
{
    if memo[node].is_some() {
        return Eval::Done(());
    }
    let this = &graph.nodes[node];
    let mut incoming: Vec<Vec<Predicate>> = Vec::new();
    if this.inputs.len() == 0 {
        incoming.push(Vec::new());
        assert(path_view(incoming@[0]@) =~= Seq::<PredicateView>::empty());
        assert(paths_view(incoming@) =~= seq![Seq::<PredicateView>::empty()]);
    } else {
        let input = this.inputs[0].1;
        let count = graph.nodes.len();
        let mut sender: usize = 0;
        assert(paths_view(incoming@) =~= Seq::<Seq<PredicateView>>::empty());
        while sender < count
            invariant
                graph.wf(),
                node < graph.nodes@.len(),
                count == graph.nodes@.len(),
                *this == graph.nodes@[node as int],
                this.inputs@.len() > 0,
                input == this.inputs@[0].1,
                sender <= count,
                old(memo)@.len() == count,
                memo_valid(graph, answers@, memo@),
                forall|m: int|
                    0 <= m < old(memo)@.len() && (#[trigger] old(memo)@[m]) is Some ==> memo@[m]
                        == old(memo)@[m],
                forall|m: int|
                    0 <= m < old(memo)@.len() && old(memo)@[m] is None && (#[trigger] memo@[m]) is Some
                        ==> graph.reaches(m, node as int),
                gathered(graph, answers@, node as int, sender as nat) == EvalView::Done(
                    paths_view(incoming@),
                ),
            decreases count - sender,
        {
            if node_feeds(graph, sender, input) {
                proof {
                    lemma_sender_rank(graph, sender as int, node as int);
                    lemma_sender_edge(graph, sender as int, node as int);
                }
                let ghost known = memo@;
                let found = resolve(graph, answers, sender, memo);
                proof {
                    assert forall|m: int|
                        0 <= m < old(memo)@.len() && (#[trigger] old(memo)@[m]) is Some implies memo@[m]
                        == old(memo)@[m] by {
                        assert(known[m] == old(memo)@[m]);
                    }
                    assert forall|m: int|
                        0 <= m < old(memo)@.len() && old(memo)@[m] is None && (#[trigger] memo@[m]) is Some implies graph.reaches(
                        m,
                        node as int,
                    ) by {
                        if known[m] is None {
                            graph.lemma_reaches_step(m, sender as int, node as int);
                        } else {
                            assert(memo@[m] == known[m]);
                        }
                    }
                }
                match found {
                    Eval::Done(_) => {
                        match &memo[sender] {
                            Some(outs) => {
                                append_wired(graph, sender, input, outs, &mut incoming);
                            },
                            None => {},
                        }
                    },
                    Eval::Failed(_) => {},
                    Eval::Needs(request) => {
                        proof {
                            lemma_gathered_stops(
                                graph,
                                answers@,
                                node as int,
                                (sender + 1) as nat,
                                count as nat,
                            );
                        }
                        return Eval::Needs(request);
                    },
                }
            }
            sender += 1;
        }
    }
    match node_outputs(answers, &incoming, this) {
        Eval::Done(outs) => {
            memo.set(node, Some(outs));
            proof {
                graph.lemma_reaches_self(node as int);
            }
            Eval::Done(())
        },
        Eval::Failed(e) => Eval::Failed(e),
        Eval::Needs(request) => Eval::Needs(request),
    }
}

/// Once gathering has stopped short, looking at more senders changes nothing.
proof fn lemma_gathered_stops(g: &Graph, answers: Seq<AnswerView>, n: int, at: nat, upto: nat)
    requires
        g.wf(),
        0 <= n < g.nodes@.len(),
        g.nodes@[n].inputs@.len() > 0,
        at <= upto <= g.nodes@.len(),
        !(gathered(g, answers, n, at) is Done),
    ensures
        gathered(g, answers, n, upto) == gathered(g, answers, n, at),
    decreases upto,
{
    if at < upto {
        lemma_gathered_stops(g, answers, n, at, (upto - 1) as nat);
    }
}

/// The first request, in the order of the node handles below `upto`, that
/// some node needs answered before it can be resolved.
pub open(crate) spec fn first_need(g: &Graph, answers: Seq<AnswerView>, upto: nat) -> Option<
    PluginRequestView,
>
    decreases upto,
{
    if upto == 0 {
        None
    } else {
        match first_need(g, answers, (upto - 1) as nat) {
            Some(request) => Some(request),
            None => match resolved(g, answers, upto - 1) {
                EvalView::Needs(request) => Some(request),
                _ => None,
            },
        }
    }
}

/// The nodes with a handle below `upto` that failed, each with its failure,
/// in the order of their handles.
pub open(crate) spec fn failures_upto(g: &Graph, answers: Seq<AnswerView>, upto: nat) -> Seq<
    (NodeId, Error),
>
    decreases upto,
{
    if upto == 0 {
        Seq::empty()
    } else {
        let before = failures_upto(g, answers, (upto - 1) as nat);
        match resolved(g, answers, upto - 1) {
            EvalView::Failed(e) => before.push((NodeId((upto - 1) as usize), e)),
            _ => before,
        }
    }
}

/// The paths that end in the terminal nodes with a handle below `upto`, node
/// by node in the order of their handles.
pub open(crate) spec fn terminal_paths_upto(g: &Graph, answers: Seq<AnswerView>, upto: nat) -> Seq<
    Seq<PredicateView>,
>
    decreases upto,
{
    if upto == 0 {
        Seq::empty()
    } else {
        let before = terminal_paths_upto(g, answers, (upto - 1) as nat);
        if g.nodes@[upto - 1].outputs@.len() == 0 {
            match resolved(g, answers, upto - 1) {
                EvalView::Done(outs) => before + paths_on(outs, terminal_branch()),
                _ => before,
            }
        } else {
            before
        }
    }
}

/// Every complete path of a graph, as mathematics.
pub struct CollectedView {
    pub paths: Seq<Seq<PredicateView>>,
    pub failures: Seq<(NodeId, Error)>,
}

/// What collecting the terminal paths of a graph gives: the request that is
/// needed first, or else the paths of all terminal nodes and the failures of
/// all nodes.
pub open(crate) spec fn collected(g: &Graph, answers: Seq<AnswerView>) -> EvalView<CollectedView> {
    match first_need(g, answers, g.nodes@.len()) {
        Some(request) => EvalView::Needs(request),
        None => EvalView::Done(
            CollectedView {
                paths: terminal_paths_upto(g, answers, g.nodes@.len()),
                failures: failures_upto(g, answers, g.nodes@.len()),
            },
        ),
    }
}

/// Every complete path of a graph, and the nodes that could not be evaluated.
#[derive(Debug)]
pub struct Collected {
    /// The paths that end in a terminal node.
    pub paths: Vec<Vec<Predicate>>,
    /// The nodes that failed, each with its failure. What a failed node
    /// would have sent on is missing from `paths`; nothing else is.
    pub failures: Vec<(NodeId, Error)>,
}

impl View for Collected {
    type V = CollectedView;

    open spec fn view(&self) -> CollectedView {
        CollectedView { paths: paths_view(self.paths@), failures: self.failures@ }
    }
}

/// Collecting twice from the same graph with the same answers gives the same
/// paths, in particular the same multiset of paths.
pub proof fn lemma_collect_deterministic(
    g: &Graph,
    answers: Seq<AnswerView>,
    first: CollectedView,
    second: CollectedView,
)
    requires
        collected(g, answers) == EvalView::Done(first),
        collected(g, answers) == EvalView::Done(second),
    ensures
        first.paths == second.paths,
        first.paths.to_multiset() == second.paths.to_multiset(),
        first.failures == second.failures,
{
}

/// Once a needed request is found, looking at more nodes changes nothing.
proof fn lemma_first_need_stays(g: &Graph, answers: Seq<AnswerView>, at: nat, upto: nat)
    requires
        at <= upto,
        first_need(g, answers, at) is Some,
    ensures
        first_need(g, answers, upto) == first_need(g, answers, at),
    decreases upto,
{
    if at < upto {
        lemma_first_need_stays(g, answers, at, (upto - 1) as nat);
    }
}

/// A memo for `count` nodes in which nothing is known yet.
fn empty_memo(count: usize) -> (memo: Vec<Option<NodeOutputs>>)
    ensures
        memo@.len() == count,
        forall|m: int| 0 <= m < count ==> (#[trigger] memo@[m]) is None,
{
    let mut memo: Vec<Option<NodeOutputs>> = Vec::new();
    let mut i: usize = 0;
    while i < count
        invariant
            i <= count,
            memo@.len() == i,
            forall|m: int| 0 <= m < i ==> (#[trigger] memo@[m]) is None,
        decreases count - i,
    {
        memo.push(None);
        i += 1;
    }
    memo
}

/// The outputs of one node: for each of its branches, what the node makes
/// of the paths that reach its first input port. The nodes that feed it are
/// resolved first. A handle that names no node is a failure of its own.
pub fn resolve_node(graph: &Graph, answers: &PluginAnswers, node: NodeId) -> (result: Eval<
    NodeOutputs,
>)
    requires
        graph.wf(),
    ensures
        match result {
            Eval::Done(outputs) => graph.has_node(node) && resolved(
                graph,
                answers@,
                node.0 as int,
            ) == EvalView::Done(outputs_view(outputs@)),
            Eval::Failed(e) => if graph.has_node(node) {
                resolved(graph, answers@, node.0 as int) == EvalView::<NodeOutputsView>::Failed(e)
            } else {
                e == Error::NotFoundError
            },
            Eval::Needs(request) => graph.has_node(node) && resolved(
                graph,
                answers@,
                node.0 as int,
            ) == EvalView::<NodeOutputsView>::Needs(request@),
        },
{
    let count = graph.nodes.len();
    if node.0 >= count {
        return Eval::Failed(Error::NotFoundError);
    }
    let mut memo = empty_memo(count);
    match resolve(graph, answers, node.0, &mut memo) {
        Eval::Done(_) => {
            let entry = memo.remove(node.0);
            match entry {
                Some(outputs) => Eval::Done(outputs),
                None => unreached(),
            }
        },
        Eval::Failed(e) => Eval::Failed(e),
        Eval::Needs(request) => Eval::Needs(request),
    }
}

/// Every complete path of the graph.
///
/// Every node is resolved, connected to a terminal node or not. The paths
/// are those of the terminal nodes, node by node in the order of the node
/// handles. A node that fails is listed with its failure and sends nothing
/// on; the other nodes are not affected. Where the script of an extension
/// node has not answered yet, the result is the request to put to it.
pub fn collect_terminal_paths(graph: &Graph, answers: &PluginAnswers) -> (result: Eval<Collected>)
    requires
        graph.wf(),
    ensures
        match result {
            Eval::Done(found) => collected(graph, answers@) == EvalView::Done(found@),
            Eval::Failed(_) => false,
            Eval::Needs(request) => collected(graph, answers@) == EvalView::<
                CollectedView,
            >::Needs(request@),
        },
{
    let count = graph.nodes.len();
    let mut memo = empty_memo(count);
    let mut failures: Vec<(NodeId, Error)> = Vec::new();
    let mut node: usize = 0;
    assert(failures@ =~= Seq::<(NodeId, Error)>::empty());
    while node < count
        invariant
            graph.wf(),
            count == graph.nodes@.len(),
            node <= count,
            memo_valid(graph, answers@, memo@),
            first_need(graph, answers@, node as nat) is None,
            failures@ == failures_upto(graph, answers@, node as nat),
            forall|m: int|
                0 <= m < node && resolved(graph, answers@, m) is Done ==> (#[trigger] memo@[m]) is Some,
        decreases count - node,
    {
        let ghost previous = memo@;
        match resolve(graph, answers, node, &mut memo) {
            Eval::Done(_) => {
                assert(previous.len() == memo@.len());
                assert forall|m: int|
                    0 <= m < node + 1 && resolved(graph, answers@, m) is Done implies (
                #[trigger] memo@[m]) is Some by {
                    if m < node {
                        assert(previous[m] is Some);
                    }
                }
            },
            Eval::Failed(e) => {
                failures.push((NodeId(node), e));
                assert forall|m: int|
                    0 <= m < node + 1 && resolved(graph, answers@, m) is Done implies (
                #[trigger] memo@[m]) is Some by {
                    if m < node {
                        assert(previous[m] is Some);
                    }
                }
            },
            Eval::Needs(request) => {
                proof {
                    lemma_first_need_stays(graph, answers@, (node + 1) as nat, count as nat);
                }
                return Eval::Needs(request);
            },
        }
        node += 1;
    }
    let mut paths: Vec<Vec<Predicate>> = Vec::new();
    let mut terminal: usize = 0;
    assert(paths_view(paths@) =~= Seq::<Seq<PredicateView>>::empty());
    while terminal < count
        invariant
            graph.wf(),
            count == graph.nodes@.len(),
            terminal <= count,
            memo_valid(graph, answers@, memo@),
            forall|m: int|
                0 <= m < count && resolved(graph, answers@, m) is Done ==> (#[trigger] memo@[m]) is Some,
            paths_view(paths@) == terminal_paths_upto(graph, answers@, terminal as nat),
        decreases count - terminal,
    {
        if graph.nodes[terminal].outputs.len() == 0 {
            match &memo[terminal] {
                Some(outs) => {
                    let ghost before = paths_view(paths@);
                    match find_group(outs, "terminal") {
                        Some(at) => {
                            assert(outputs_view(outs@)[at as int].1 == paths_view(
                                outs@[at as int].1@,
                            ));
                            append_paths(&mut paths, &outs[at].1);
                        },
                        None => {
                            assert(before + Seq::<Seq<PredicateView>>::empty() =~= before);
                        },
                    }
                },
                None => {},
            }
        }
        terminal += 1;
    }
    Eval::Done(Collected { paths, failures })
}

} // verus!
