//! The cycle guard: no connection is ever accepted that would close a cycle.

use vstd::prelude::*;
use crate::graph::Graph;
use crate::id_type::{InputId, OutputId};

verus! {

/// How many entries are `false`.
pub open spec fn count_false(marks: Seq<bool>) -> nat
    decreases marks.len(),
{
    if marks.len() == 0 {
        0
    } else {
        count_false(marks.drop_last()) + if marks.last() {
            0nat
        } else {
            1nat
        }
    }
}

/// Marking an unmarked entry leaves one unmarked entry less.
proof fn lemma_mark(marks: Seq<bool>, at: int)
    requires
        0 <= at < marks.len(),
        !marks[at],
    ensures
        count_false(marks.update(at, true)) + 1 == count_false(marks),
    decreases marks.len(),
{
    let after = marks.update(at, true);
    if at == marks.len() - 1 {
        assert(after.drop_last() =~= marks.drop_last());
    } else {
        assert(after.drop_last() =~= marks.drop_last().update(at, true));
        lemma_mark(marks.drop_last(), at);
    }
}

impl Graph {
    /// Every node reaches itself.
    pub proof fn lemma_reaches_self(&self, a: int)
        ensures
            self.reaches(a, a),
    {
        assert(self.reaches_in(a, a, 0));
    }

    /// What is reached can be left along one more connection.
    pub proof fn lemma_reaches_step(&self, a: int, x: int, y: int)
        requires
            self.reaches(a, x),
            self.edge(x, y),
        ensures
            self.reaches(a, y),
    {
        let steps = choose|steps: nat| #[trigger] self.reaches_in(a, x, steps);
        let more = steps + 1;
        assert(self.reaches_in(a, x, (more - 1) as nat));
        assert(self.reaches_in(a, y, more));
    }

    /// A connection leads to a node of this graph, and to one of higher rank.
    pub proof fn lemma_edge_rank(&self, a: int, b: int)
        requires
            self.wf(),
            self.edge(a, b),
        ensures
            0 <= a < self.node_seq().len(),
            0 <= b < self.node_seq().len(),
            self.rank_seq()[a] < self.rank_seq()[b],
    {
        let o = choose|o: int|
            0 <= o < self.outputs@.len() && self.output_owner(o) == a && (#[trigger] self.target(o))
                >= 0 && self.input_owner(self.target(o)) == b;
        assert(self.output_ok(o));
        assert(self.input_ok(self.target(o)));
    }

    /// Along connections the rank never falls.
    pub proof fn lemma_reaches_rank(&self, a: int, b: int, steps: nat)
        requires
            self.wf(),
            0 <= a < self.node_seq().len(),
            self.reaches_in(a, b, steps),
        ensures
            0 <= b < self.node_seq().len(),
            self.rank_seq()[a] + steps <= self.rank_seq()[b],
        decreases steps,
    {
        if steps > 0 {
            let m = self.last_before(a, b, steps);
            self.lemma_reaches_rank(a, m, (steps - 1) as nat);
            self.lemma_edge_rank(m, b);
        }
    }

    /// A graph that meets its invariant has no cycle: no connection leaves a
    /// node for one from which the node can be reached again.
    pub proof fn lemma_acyclic(&self, a: int, b: int)
        requires
            self.wf(),
            self.edge(a, b),
        ensures
            !self.reaches(b, a),
    {
        self.lemma_edge_rank(a, b);
        if self.reaches(b, a) {
            let steps = choose|steps: nat| #[trigger] self.reaches_in(b, a, steps);
            self.lemma_reaches_rank(b, a, steps);
        }
    }

    /// A set of nodes that holds `from` and, with every node, the nodes its
    /// connections lead to, holds everything that `from` reaches.
    proof fn lemma_closed(&self, marks: Seq<bool>, from: int, to: int, steps: nat)
        requires
            self.wf(),
            marks.len() == self.nodes@.len(),
            0 <= from < marks.len(),
            marks[from],
            forall|x: int, y: int|
                0 <= x < marks.len() && marks[x] && #[trigger] self.edge(x, y) ==> 0 <= y
                    < marks.len() && marks[y],
            self.reaches_in(from, to, steps),
        ensures
            0 <= to < marks.len(),
            marks[to],
        decreases steps,
    {
        if steps > 0 {
            let m = self.last_before(from, to, steps);
            self.lemma_closed(marks, from, m, (steps - 1) as nat);
        }
    }

    /// The node that the output port at position `k` of node `a` leads to,
    /// or -1 where that port is not connected.
    pub open(crate) spec fn successor(&self, a: int, k: int) -> int {
        let o = self.nodes@[a].outputs@[k].1.0 as int;
        if self.target(o) >= 0 {
            self.input_owner(self.target(o))
        } else {
            -1
        }
    }

    /// The connections that leave a node are those of its listed output ports.
    proof fn lemma_edge_listed(&self, a: int, b: int)
        requires
            self.wf(),
            0 <= a < self.nodes@.len(),
            self.edge(a, b),
        ensures
            exists|k: int| 0 <= k < self.nodes@[a].outputs@.len() && #[trigger] self.successor(a, k) == b,
    {
        let o = choose|o: int|
            0 <= o < self.outputs@.len() && self.output_owner(o) == a && (#[trigger] self.target(o))
                >= 0 && self.input_owner(self.target(o)) == b;
        assert(self.output_ok(o));
        let k = choose|k: int| #[trigger] self.lists_output(self.output_owner(o), k, o);
        assert(self.successor(a, k) == b);
    }

    /// A listed output port that is connected makes a connection between nodes.
    proof fn lemma_listed_edge(&self, a: int, k: int)
        requires
            self.wf(),
            0 <= a < self.nodes@.len(),
            0 <= k < self.nodes@[a].outputs@.len(),
            self.successor(a, k) >= 0,
        ensures
            self.edge(a, self.successor(a, k)),
            self.successor(a, k) < self.nodes@.len(),
    {
        assert(self.node_ok(a));
        let o = self.nodes@[a].outputs@[k].1.0 as int;
        assert(self.nodes@[a].outputs@[k].1.0 < self.outputs@.len());
        assert(self.output_ok(o));
        assert(self.input_ok(self.target(o)));
        assert(self.target(o) >= 0 && self.input_owner(self.target(o)) == self.successor(a, k));
    }

    /// Whether node `to` can be reached from node `from` along connections.
    ///
    /// A depth-first search with an explicit work stack. Each node is put on
    /// the stack at most once, so the search ends on every graph.
    pub(crate) fn reaches_node(&self, from: usize, to: usize) -> (found: bool)
        requires
            self.wf(),
            from < self.nodes@.len(),
            to < self.nodes@.len(),
        ensures
            found == self.reaches(from as int, to as int),
    {
        if from == to {
            proof {
                self.lemma_reaches_self(from as int);
            }
            return true;
        }
        let count = self.nodes.len();
        let mut visited: Vec<bool> = Vec::new();
        let mut i: usize = 0;
        while i < count
            invariant
                i <= count,
                visited@.len() == i,
                forall|j: int| 0 <= j < i ==> !(#[trigger] visited@[j]),
            decreases count - i,
        {
            visited.push(false);
            i += 1;
        }
        let mut stack: Vec<usize> = Vec::new();
        visited.set(from, true);
        stack.push(from);
        proof {
            self.lemma_reaches_self(from as int);
            assert(stack@[0] == from);
            assert forall|x: int| 0 <= x < count && #[trigger] visited@[x] implies x == from by {}
        }
        while stack.len() > 0
            invariant
                self.wf(),
                count == self.nodes@.len(),
                from < count,
                to < count,
                visited@.len() == count,
                visited@[from as int],
                !visited@[to as int],
                forall|j: int| 0 <= j < stack@.len() ==> (#[trigger] stack@[j]) < count && visited@[stack@[j] as int],
                forall|x: int| 0 <= x < count && #[trigger] visited@[x] ==> self.reaches(from as int, x),
                forall|x: int, y: int|
                    0 <= x < count && visited@[x] && !stack@.contains(x as usize) && #[trigger] self.edge(
                        x,
                        y,
                    ) ==> 0 <= y < count && visited@[y],
            decreases 2 * count_false(visited@) + stack@.len(),
        {
            let ghost measure = 2 * count_false(visited@) + stack@.len();
            let ghost old_stack = stack@;
            let a = stack.pop().unwrap();
            assert(old_stack[old_stack.len() - 1] == a);
            assert(forall|j: int| 0 <= j < stack@.len() ==> stack@[j] == old_stack[j]);
            let node = &self.nodes[a];
            let mut k: usize = 0;
            while k < node.outputs.len()
                invariant
                    self.wf(),
                    count == self.nodes@.len(),
                    from < count,
                    to < count,
                    a < count,
                    *node == self.nodes@[a as int],
                    k <= node.outputs@.len(),
                    visited@.len() == count,
                    visited@[from as int],
                    visited@[a as int],
                    !visited@[to as int],
                    2 * count_false(visited@) + stack@.len() < measure,
                    forall|j: int| 0 <= j < stack@.len() ==> (#[trigger] stack@[j]) < count && visited@[stack@[j] as int],
                    forall|x: int| 0 <= x < count && #[trigger] visited@[x] ==> self.reaches(from as int, x),
                    forall|x: int, y: int|
                        0 <= x < count && x != a && visited@[x] && !stack@.contains(x as usize)
                            && #[trigger] self.edge(x, y) ==> 0 <= y < count && visited@[y],
                    forall|j: int|
                        0 <= j < k && #[trigger] self.successor(a as int, j) >= 0 ==> self.successor(
                            a as int,
                            j,
                        ) < count && visited@[self.successor(a as int, j)],
                decreases node.outputs.len() - k,
            {
                let output = node.outputs[k].1;
                assert(self.node_ok(a as int));
                assert(node.outputs@[k as int].1.0 < self.outputs@.len());
                match self.connections[output.0] {
                    Some(input) => {
                        proof {
                            self.lemma_listed_edge(a as int, k as int);
                            self.lemma_reaches_step(
                                from as int,
                                a as int,
                                self.successor(a as int, k as int),
                            );
                        }
                        assert(self.output_ok(output.0 as int));
                        let b = self.inputs[input.0].node.0;
                        assert(b == self.successor(a as int, k as int));
                        if b == to {
                            return true;
                        }
                        if !visited[b] {
                            proof {
                                lemma_mark(visited@, b as int);
                            }
                            let ghost seen = visited@;
                            let ghost waiting = stack@;
                            visited.set(b, true);
                            stack.push(b);
                            assert forall|j: int|
                                0 <= j < k + 1 && #[trigger] self.successor(a as int, j)
                                    >= 0 implies self.successor(a as int, j) < count
                                && visited@[self.successor(a as int, j)] by {
                                if j < k {
                                    assert(seen[self.successor(a as int, j)]);
                                }
                            }
                            assert forall|x: int, y: int|
                                0 <= x < count && x != a && visited@[x] && !stack@.contains(
                                    x as usize,
                                ) && #[trigger] self.edge(x, y) implies 0 <= y < count
                                && visited@[y] by {
                                assert(stack@[waiting.len() as int] == b);
                                assert(x != b);
                                assert(seen[x]);
                                if waiting.contains(x as usize) {
                                    let at = choose|at: int|
                                        0 <= at < waiting.len() && waiting[at] == x as usize;
                                    assert(stack@[at] == x as usize);
                                }
                            }
                        }
                    },
                    None => {},
                }
                k += 1;
            }
            proof {
                assert forall|x: int, y: int|
                    0 <= x < count && visited@[x] && !stack@.contains(x as usize)
                        && #[trigger] self.edge(x, y) implies 0 <= y < count && visited@[y] by {
                    if x == a {
                        self.lemma_edge_listed(a as int, y);
                        self.lemma_edge_rank(a as int, y);
                    }
                }
            }
        }
        proof {
            if self.reaches(from as int, to as int) {
                let steps = choose|steps: nat| #[trigger]
                    self.reaches_in(from as int, to as int, steps);
                assert forall|x: int, y: int|
                    0 <= x < visited@.len() && visited@[x] && #[trigger] self.edge(
                        x,
                        y,
                    ) implies 0 <= y < visited@.len() && visited@[y] by {
                    assert(!stack@.contains(x as usize));
                }
                self.lemma_closed(visited@, from as int, to as int, steps);
            }
        }
        false
    }

    /// Whether connecting `output` to `input` would close a cycle: whether the
    /// node of `output` can be reached from the node of `input`. A handle
    /// that names no port of the graph closes no cycle.
    pub fn would_cycle(&self, output: OutputId, input: InputId) -> (cycle: bool)
        requires
            self.wf(),
        ensures
            cycle == (self.has_output(output) && self.has_input(input) && self.reaches(
                self.input_owner(input.0 as int),
                self.output_owner(output.0 as int),
            )),
    {
        if output.0 >= self.outputs.len() || input.0 >= self.inputs.len() {
            return false;
        }
        assert(self.output_ok(output.0 as int));
        assert(self.input_ok(input.0 as int));
        self.reaches_node(self.inputs[input.0].node.0, self.outputs[output.0].node.0)
    }
    /// The ranks after a connection from node `u` to node `v` has been added:
    /// everything that `v` reaches is lifted above `u`.
    pub open(crate) spec fn lifted_rank(&self, u: int, v: int) -> Seq<nat> {
        Seq::new(
            self.rank@.len(),
            |x: int|
                if self.reaches(v, x) {
                    self.rank@[x] + self.rank@[u] + 1
                } else {
                    self.rank@[x]
                },
        )
    }

    /// Connects `output` to `input` unless that would close a cycle.
    ///
    /// An accepted connection replaces the one that `output` had. A rejected
    /// one is absent afterwards, and so is the connection that `output` had
    /// before: the port is left unconnected. Either way the graph has no cycle.
    pub fn try_connect(&mut self, output: OutputId, input: InputId) -> (accepted: bool)
        requires
            old(self).wf(),
        ensures
            final(self).wf(),
            final(self).node_seq() == old(self).node_seq(),
            final(self).input_seq() == old(self).input_seq(),
            final(self).output_seq() == old(self).output_seq(),
            accepted == (old(self).has_output(output) && old(self).has_input(input) && !old(self).reaches(
                old(self).input_owner(input.0 as int),
                old(self).output_owner(output.0 as int),
            )),
            accepted ==> final(self).connection_seq() == old(self).connection_seq().update(
                output.0 as int,
                Some(input),
            ),
            !accepted && old(self).has_output(output) ==> final(self).connection_seq() == old(self).connection_seq().update(output.0 as int, None),
            !accepted && !old(self).has_output(output) ==> final(self).connection_seq() == old(self).connection_seq(),
    {
        if output.0 >= self.outputs.len() {
            return false;
        }
        if self.would_cycle(output, input) || input.0 >= self.inputs.len() {
            self.remove_connection(output);
            return false;
        }
        let ghost u = self.output_owner(output.0 as int);
        let ghost v = self.input_owner(input.0 as int);
        self.connections.set(output.0, Some(input));
        proof {
            let before = *old(self);
            self.rank@ = before.lifted_rank(u, v);
            assert(before.output_ok(output.0 as int));
            assert(before.input_ok(input.0 as int));
            before.lemma_reaches_self(v);
            assert forall|n: int| 0 <= n < self.nodes@.len() implies #[trigger] self.node_ok(n) by {
                assert(before.node_ok(n));
            }
            assert forall|i: int| 0 <= i < self.inputs@.len() implies #[trigger] self.input_ok(
                i,
            ) by {
                assert(before.input_ok(i));
            }
            assert forall|o: int| 0 <= o < self.outputs@.len() implies #[trigger] self.output_ok(
                o,
            ) by {
                assert(before.output_ok(o));
                let k = choose|k: int| #[trigger] before.lists_output(before.output_owner(o), k, o);
                assert(self.lists_output(self.output_owner(o), k, o));
                if o != output.0 && before.target(o) >= 0 {
                    let x = before.output_owner(o);
                    let y = before.input_owner(before.target(o));
                    assert(before.input_ok(before.target(o)));
                    assert(before.edge(x, y));
                    if before.reaches(v, x) {
                        before.lemma_reaches_step(v, x, y);
                    }
                }
            }
        }
        true
    }
}

} // verus!
