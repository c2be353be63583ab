//! Export: the ruleset of a whole graph.

use vstd::prelude::*;
use crate::collector::{collect_terminal_paths, collected};
use crate::error::Error;
use crate::evaluator::{AnswerView, Eval, EvalView, PluginAnswers};
use crate::graph::Graph;
use crate::id_type::NodeId;
use crate::lowering::{commands_view, evaluate_path, lowered, Command, CommandView};
use crate::predicate::{path_view, paths_view, seed_of, Predicate, PredicateView};

verus! {

/// The commands of the first `upto` paths, path by path in order. A path
/// that cannot be lowered contributes nothing.
pub open spec fn lowered_paths(paths: Seq<Seq<PredicateView>>, upto: nat) -> Seq<CommandView>
    decreases upto,
{
    if upto == 0 {
        Seq::empty()
    } else {
        let before = lowered_paths(paths, (upto - 1) as nat);
        match lowered(paths[upto - 1], seed_of(paths[upto - 1])) {
            Ok(commands) => before + commands,
            Err(_) => before,
        }
    }
}

/// Those of the first `upto` paths that cannot be lowered, each by its
/// position and with its failure, in order.
pub open spec fn skipped_paths(paths: Seq<Seq<PredicateView>>, upto: nat) -> Seq<(usize, Error)>
    decreases upto,
{
    if upto == 0 {
        Seq::empty()
    } else {
        let before = skipped_paths(paths, (upto - 1) as nat);
        match lowered(paths[upto - 1], seed_of(paths[upto - 1])) {
            Ok(_) => before,
            Err(e) => before.push(((upto - 1) as usize, e)),
        }
    }
}

/// The commands of a ruleset for the given paths: one command that adds the
/// table, then the commands of every path that can be lowered.
pub open spec fn ruleset(paths: Seq<Seq<PredicateView>>) -> Seq<CommandView> {
    seq![CommandView::AddTable] + lowered_paths(paths, paths.len())
}

/// An exported ruleset as mathematics.
pub struct ExportedView {
    pub commands: Seq<CommandView>,
    pub skipped: Seq<(usize, Error)>,
    pub failures: Seq<(NodeId, Error)>,
}

/// An exported ruleset, and what is missing from it.
#[derive(Debug)]
pub struct Exported {
    /// The commands, in the order in which they are to be run.
    pub commands: Vec<Command>,
    /// The terminal paths that could not be lowered, each by its position
    /// among the terminal paths and with its failure.
    pub skipped: Vec<(usize, Error)>,
    /// The nodes that could not be evaluated, each with its failure.
    pub failures: Vec<(NodeId, Error)>,
}

impl View for Exported {
    type V = ExportedView;

    open spec fn view(&self) -> ExportedView {
        ExportedView {
            commands: commands_view(self.commands@),
            skipped: self.skipped@,
            failures: self.failures@,
        }
    }
}

/// What exporting a graph gives: the request that is needed first, or else
/// the ruleset of its terminal paths and what had to be left out.
pub open(crate) spec fn exported(g: &Graph, answers: Seq<AnswerView>) -> EvalView<ExportedView> {
    match collected(g, answers) {
        EvalView::Done(found) => EvalView::Done(
            ExportedView {
                commands: ruleset(found.paths),
                skipped: skipped_paths(found.paths, found.paths.len()),
                failures: found.failures,
            },
        ),
        EvalView::Failed(e) => EvalView::Failed(e),
        EvalView::Needs(request) => EvalView::Needs(request),
    }
}

/// Lowers every path on its own and puts the results behind the command
/// that adds the table. A path that cannot be lowered is left out and
/// reported; it does not stop the others.
pub fn export_paths(paths: &Vec<Vec<Predicate>>) -> (result: (Vec<Command>, Vec<(usize, Error)>))
    ensures
        commands_view(result.0@) == ruleset(paths_view(paths@)),
        result.1@ == skipped_paths(paths_view(paths@), paths@.len()),
{
    let mut commands: Vec<Command> = Vec::new();
    let mut skipped: Vec<(usize, Error)> = Vec::new();
    commands.push(Command::AddTable);
    assert(commands_view(commands@) =~= seq![CommandView::AddTable]);
    assert(seq![CommandView::AddTable] + Seq::<CommandView>::empty() =~= seq![
        CommandView::AddTable,
    ]);
    let mut i: usize = 0;
    while i < paths.len()
        invariant
            i <= paths.len(),
            commands_view(commands@) == seq![CommandView::AddTable] + lowered_paths(
                paths_view(paths@),
                i as nat,
            ),
            skipped@ == skipped_paths(paths_view(paths@), i as nat),
        decreases paths.len() - i,
    {
        assert(paths_view(paths@)[i as int] == path_view(paths@[i as int]@));
        match evaluate_path(&paths[i]) {
            Ok(mut lowered_commands) => {
                let ghost before = commands_view(commands@);
                let ghost added = commands_view(lowered_commands@);
                let ghost old_commands = commands@;
                let ghost old_lowered = lowered_commands@;
                commands.append(&mut lowered_commands);
                assert(commands@ =~= old_commands + old_lowered);
                assert(commands_view(commands@) =~= before + added);
                assert(seq![CommandView::AddTable] + (lowered_paths(paths_view(paths@), i as nat)
                    + added) =~= (seq![CommandView::AddTable] + lowered_paths(
                    paths_view(paths@),
                    i as nat,
                )) + added);
            },
            Err(e) => {
                skipped.push((i, e));
            },
        }
        i += 1;
    }
    (commands, skipped)
}

/// Exports a graph: collects its terminal paths, lowers each, and puts the
/// results behind the command that adds the table.
///
/// Where the script of an extension node has not answered yet, the result is
/// the request to put to it; record the answer and export again.
pub fn export(graph: &Graph, answers: &PluginAnswers) -> (result: Eval<Exported>)
    requires
        graph.wf(),
    ensures
        match result {
            Eval::Done(ruleset) => exported(graph, answers@) == EvalView::Done(ruleset@),
            Eval::Failed(_) => false,
            Eval::Needs(request) => exported(graph, answers@) == EvalView::<ExportedView>::Needs(
                request@,
            ),
        },
{
    match collect_terminal_paths(graph, answers) {
        Eval::Done(found) => {
            let (commands, skipped) = export_paths(&found.paths);
            Eval::Done(Exported { commands, skipped, failures: found.failures })
        },
        Eval::Failed(e) => Eval::Failed(e),
        Eval::Needs(request) => Eval::Needs(request),
    }
}

} // verus!
