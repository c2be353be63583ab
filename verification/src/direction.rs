//! Direction inference: a fixed direction flows along connections through
//! ports that have none of their own.

use vstd::prelude::*;
use crate::data_type::NFDirection;
use crate::graph::Graph;
use crate::id_type::{InputId, OutputId};

verus! {

/// The directions of all ports of a graph, by handle.
pub struct Directions {
    pub inputs: Seq<NFDirection>,
    pub outputs: Seq<NFDirection>,
}

/// How many directions are the wildcard.
pub open spec fn wild_count(directions: Seq<NFDirection>) -> nat
    decreases directions.len(),
{
    if directions.len() == 0 {
        0
    } else {
        wild_count(directions.drop_last()) + if directions.last() == NFDirection::Either {
            1nat
        } else {
            0nat
        }
    }
}

/// Fixing a wildcard leaves one wildcard less.
pub proof fn lemma_fix_one(directions: Seq<NFDirection>, at: int, direction: NFDirection)
    requires
        0 <= at < directions.len(),
        directions[at] == NFDirection::Either,
        direction != NFDirection::Either,
    ensures
        wild_count(directions.update(at, direction)) + 1 == wild_count(directions),
    decreases directions.len(),
{
    let after = directions.update(at, direction);
    if at == directions.len() - 1 {
        assert(after.drop_last() =~= directions.drop_last());
    } else {
        assert(after.drop_last() =~= directions.drop_last().update(at, direction));
        lemma_fix_one(directions.drop_last(), at, direction);
    }
}

/// The directions of the ports of a graph.
pub open(crate) spec fn directions_of(g: &Graph) -> Directions {
    Directions { inputs: g.input_directions(), outputs: g.output_directions() }
}

/// The directions after input port `i` has taken `direction`: the port has
/// it, and so has every output port of the node that the port belongs to.
pub open(crate) spec fn pinned(g: &Graph, directions: Directions, i: int, direction: NFDirection) -> Directions {
    Directions {
        inputs: directions.inputs.update(i, direction),
        outputs: Seq::new(
            directions.outputs.len(),
            |o: int|
                if g.output_owner(o) == g.input_owner(i) {
                    direction
                } else {
                    directions.outputs[o]
                },
        ),
    }
}

/// The input ports that the first `upto` output ports of node `n` are
/// connected to under `connections`, in the order of those output ports.
pub open(crate) spec fn receivers(
    g: &Graph,
    connections: Seq<Option<InputId>>,
    n: int,
    upto: nat,
) -> Seq<int>
    decreases upto,
{
    if upto == 0 {
        Seq::empty()
    } else {
        let before = receivers(g, connections, n, (upto - 1) as nat);
        match connections[g.nodes@[n].outputs@[upto - 1].1.0 as int] {
            Some(next) => before.push(next.0 as int),
            None => before,
        }
    }
}

/// The directions once `direction` has flowed from the input ports in
/// `waiting`, the last of them first, along `connections`. A port that has a direction of its own
/// keeps it and hands nothing on. A wildcard port takes the direction, gives
/// it to every output port of its node, and the ports that those are
/// connected to wait in turn.
pub open(crate) spec fn propagated_from(
    g: &Graph,
    connections: Seq<Option<InputId>>,
    directions: Directions,
    waiting: Seq<int>,
    direction: NFDirection,
) -> Directions
    decreases wild_count(directions.inputs), waiting.len(),
    when direction != NFDirection::Either
{
    if waiting.len() == 0 {
        directions
    } else {
        let i = waiting.last();
        let rest = waiting.drop_last();
        if 0 <= i < directions.inputs.len() && directions.inputs[i] == NFDirection::Either {
            proof {
                lemma_fix_one(directions.inputs, i, direction);
            }
            propagated_from(
                g,
                connections,
                pinned(g, directions, i, direction),
                rest + receivers(
                    g,
                    connections,
                    g.input_owner(i),
                    g.node_seq()[g.input_owner(i)].outputs@.len(),
                ),
                direction,
            )
        } else {
            propagated_from(g, connections, directions, rest, direction)
        }
    }
}

/// The directions after the connection from output port `output` to input
/// port `input` has been accepted, in a graph with the nodes and ports of
/// `g` that is connected as `connections` says. Nothing changes where the output port has
/// no direction to give, or the input port has one of its own.
pub open(crate) spec fn propagated(
    g: &Graph,
    connections: Seq<Option<InputId>>,
    directions: Directions,
    input: int,
    output: int,
) -> Directions {
    let direction = directions.outputs[output];
    if direction == NFDirection::Either || directions.inputs[input] != NFDirection::Either {
        directions
    } else {
        propagated_from(g, connections, directions, seq![input], direction)
    }
}

/// A port that has a direction of its own keeps it, whatever flows.
pub proof fn lemma_fixed_stays(
    g: &Graph,
    connections: Seq<Option<InputId>>,
    directions: Directions,
    waiting: Seq<int>,
    direction: NFDirection,
    j: int,
)
    requires
        direction != NFDirection::Either,
        0 <= j < directions.inputs.len(),
        directions.inputs[j] != NFDirection::Either,
    ensures
        propagated_from(g, connections, directions, waiting, direction).inputs.len()
            == directions.inputs.len(),
        propagated_from(g, connections, directions, waiting, direction).inputs[j]
            == directions.inputs[j],
    decreases wild_count(directions.inputs), waiting.len(),
{
    if waiting.len() > 0 {
        let i = waiting.last();
        let rest = waiting.drop_last();
        if 0 <= i < directions.inputs.len() && directions.inputs[i] == NFDirection::Either {
            lemma_fix_one(directions.inputs, i, direction);
            lemma_fixed_stays(
                g,
                connections,
                pinned(g, directions, i, direction),
                rest + receivers(
                    g,
                    connections,
                    g.input_owner(i),
                    g.node_seq()[g.input_owner(i)].outputs@.len(),
                ),
                direction,
                j,
            );
        } else {
            lemma_fixed_stays(g, connections, directions, rest, direction, j);
        }
    }
}

/// Whatever flows, a port keeps the direction it had or takes the one that
/// flows; no port is added or lost.
pub proof fn lemma_only_the_direction(
    g: &Graph,
    connections: Seq<Option<InputId>>,
    directions: Directions,
    waiting: Seq<int>,
    direction: NFDirection,
)
    requires
        direction != NFDirection::Either,
    ensures
        propagated_from(g, connections, directions, waiting, direction).inputs.len()
            == directions.inputs.len(),
        propagated_from(g, connections, directions, waiting, direction).outputs.len()
            == directions.outputs.len(),
        forall|j: int|
            0 <= j < directions.inputs.len() ==> (#[trigger] propagated_from(
                g,
                connections,
                directions,
                waiting,
                direction,
            ).inputs[j]) == directions.inputs[j] || propagated_from(
                g,
                connections,
                directions,
                waiting,
                direction,
            ).inputs[j] == direction,
        forall|o: int|
            0 <= o < directions.outputs.len() ==> (#[trigger] propagated_from(
                g,
                connections,
                directions,
                waiting,
                direction,
            ).outputs[o]) == directions.outputs[o] || propagated_from(
                g,
                connections,
                directions,
                waiting,
                direction,
            ).outputs[o] == direction,
    decreases wild_count(directions.inputs), waiting.len(),
{
    if waiting.len() > 0 {
        let i = waiting.last();
        let rest = waiting.drop_last();
        if 0 <= i < directions.inputs.len() && directions.inputs[i] == NFDirection::Either {
            lemma_fix_one(directions.inputs, i, direction);
            lemma_only_the_direction(
                g,
                connections,
                pinned(g, directions, i, direction),
                rest + receivers(
                    g,
                    connections,
                    g.input_owner(i),
                    g.node_seq()[g.input_owner(i)].outputs@.len(),
                ),
                direction,
            );
        } else {
            lemma_only_the_direction(g, connections, directions, rest, direction);
        }
    }
}

/// Direction inference is idempotent: inferring twice from the same
/// connection gives the same directions as inferring once.
pub proof fn lemma_propagation_idempotent(
    g: &Graph,
    connections: Seq<Option<InputId>>,
    directions: Directions,
    input: int,
    output: int,
)
    requires
        0 <= input < directions.inputs.len(),
        0 <= output < directions.outputs.len(),
    ensures
        propagated(
            g,
            connections,
            propagated(g, connections, directions, input, output),
            input,
            output,
        ) == propagated(g, connections, directions, input, output),
{
    let direction = directions.outputs[output];
    if !(direction == NFDirection::Either || directions.inputs[input] != NFDirection::Either) {
        let first = pinned(g, directions, input, direction);
        let waiting = seq![input];
        assert(waiting.last() == input);
        lemma_fix_one(directions.inputs, input, direction);
        lemma_fixed_stays(
            g,
            connections,
            first,
            waiting.drop_last() + receivers(
                g,
                connections,
                g.input_owner(input),
                g.node_seq()[g.input_owner(input)].outputs@.len(),
            ),
            direction,
            input,
        );
    }
}

/// The input ports behind the handles that wait.
pub open spec fn waiting_view(waiting: Seq<InputId>) -> Seq<int> {
    waiting.map_values(|id: InputId| id.0 as int)
}

/// Whether node `n` lists output port `o` among its first `upto` output ports.
pub open(crate) spec fn listed_below(g: &Graph, n: int, o: int, upto: int) -> bool {
    exists|j: int| 0 <= j < upto && #[trigger] g.lists_output(n, j, o)
}

impl Graph {
    /// A graph that differs from a sound one at most in the directions of
    /// its ports is sound.
    pub(crate) proof fn lemma_same_shape_wf(&self, other: &Graph)
        requires
            other.wf(),
            self.same_shape(other),
        ensures
            self.wf(),
    {
        assert forall|n: int| 0 <= n < self.nodes@.len() implies #[trigger] self.node_ok(n) by {
            assert(other.node_ok(n));
        }
        assert forall|i: int| 0 <= i < self.inputs@.len() implies #[trigger] self.input_ok(i) by {
            assert(other.input_ok(i));
        }
        assert forall|o: int| 0 <= o < self.outputs@.len() implies #[trigger] self.output_ok(o) by {
            assert(other.output_ok(o));
            let k = choose|k: int| #[trigger] other.lists_output(other.output_owner(o), k, o);
            assert(self.lists_output(self.output_owner(o), k, o));
            if other.target(o) >= 0 {
                assert(other.input_ok(other.target(o)));
            }
        }
    }

    /// Gives input port `input` the direction, and with it every output port
    /// of its node; the ports those are connected to are put on `waiting`.
    fn pin(&mut self, input: usize, direction: NFDirection, waiting: &mut Vec<InputId>)
        requires
            old(self).wf(),
            input < old(self).inputs@.len(),
        ensures
            final(self).wf(),
            final(self).same_shape(old(self)),
            directions_of(final(self)) == pinned(
                old(self),
                directions_of(old(self)),
                input as int,
                direction,
            ),
            waiting_view(final(waiting)@) == waiting_view(old(waiting)@) + receivers(
                old(self),
                old(self).connections@,
                old(self).input_owner(input as int),
                old(self).nodes@[old(self).input_owner(input as int)].outputs@.len(),
            ),
    {
        let ghost before = *self;
        let ghost start = waiting_view(waiting@);
        assert(self.input_ok(input as int));
        self.inputs[input].typ.direction = direction;
        let n = self.inputs[input].node.0;
        assert(self.same_shape(&before));
        assert(self.input_directions() =~= before.input_directions().update(input as int, direction));
        let count = self.nodes[n].outputs.len();
        let mut k: usize = 0;
        assert(start + Seq::<int>::empty() =~= start);
        while k < count
            invariant
                before.wf(),
                self.same_shape(&before),
                n < before.nodes@.len(),
                n == before.input_owner(input as int),
                count == before.nodes@[n as int].outputs@.len(),
                k <= count,
                self.input_directions() == before.input_directions().update(input as int, direction),
                forall|o: int|
                    0 <= o < self.outputs@.len() ==> (#[trigger] self.outputs@[o]).typ.direction == if listed_below(
                        &before,
                        n as int,
                        o,
                        k as int,
                    ) {
                        direction
                    } else {
                        before.outputs@[o].typ.direction
                    },
                waiting_view(waiting@) == start + receivers(
                    &before,
                    before.connections@,
                    n as int,
                    k as nat,
                ),
            decreases count - k,
        {
            assert(before.node_ok(n as int));
            let output = self.nodes[n].outputs[k].1;
            assert(before.nodes@[n as int].outputs@[k as int].1.0 < before.outputs@.len());
            let ghost shown = self.outputs@;
            self.outputs[output.0].typ.direction = direction;
            match self.connections[output.0] {
                Some(next) => {
                    let ghost held = waiting_view(waiting@);
                    waiting.push(next);
                    assert(waiting_view(waiting@) =~= held.push(next.0 as int));
                    assert(start + receivers(
                        &before,
                        before.connections@,
                        n as int,
                        (k + 1) as nat,
                    ) =~= (start + receivers(&before, before.connections@, n as int, k as nat)).push(
                        next.0 as int,
                    ));
                },
                None => {},
            }
            assert forall|o: int| 0 <= o < self.outputs@.len() implies (
            #[trigger] self.outputs@[o]).typ.direction == if listed_below(
                &before,
                n as int,
                o,
                k + 1,
            ) {
                direction
            } else {
                before.outputs@[o].typ.direction
            } by {
                if o == output.0 {
                    assert(before.lists_output(n as int, k as int, o));
                } else {
                    assert(self.outputs@[o] == shown[o]);
                    if listed_below(&before, n as int, o, k + 1) {
                        let j = choose|j: int|
                            0 <= j < k + 1 && #[trigger] before.lists_output(n as int, j, o);
                        assert(j < k);
                    }
                }
            }
            k += 1;
        }
        proof {
            self.lemma_same_shape_wf(&before);
            assert forall|o: int| 0 <= o < self.outputs@.len() implies self.outputs@[o].typ.direction
                == if before.output_owner(o) == n {
                direction
            } else {
                before.outputs@[o].typ.direction
            } by {
                assert(before.output_ok(o));
                if before.output_owner(o) == n {
                    let j = choose|j: int| #[trigger] before.lists_output(n as int, j, o);
                    assert(listed_below(&before, n as int, o, count as int));
                } else if listed_below(&before, n as int, o, count as int) {
                    let j = choose|j: int|
                        0 <= j < count && #[trigger] before.lists_output(n as int, j, o);
                    assert(before.node_ok(n as int));
                    assert(before.nodes@[n as int].outputs@[j].1.0 == o);
                }
            }
            assert(self.output_directions() =~= pinned(
                &before,
                directions_of(&before),
                input as int,
                direction,
            ).outputs);
        }
    }
    /// Lets `direction` flow from input port `input_id` through the ports
    /// downstream that have no direction of their own. The wildcard does
    /// not flow: with it nothing changes.
    pub fn propagate_to_node(&mut self, input_id: InputId, direction: NFDirection)
        requires
            old(self).wf(),
        ensures
            final(self).wf(),
            final(self).same_shape(old(self)),
            direction == NFDirection::Either ==> directions_of(final(self)) == directions_of(
                old(self),
            ),
            direction != NFDirection::Either ==> directions_of(final(self)) == propagated_from(
                old(self),
                old(self).connection_seq(),
                directions_of(old(self)),
                seq![input_id.0 as int],
                direction,
            ),
    {
        if direction == NFDirection::Either {
            return ;
        }
        let ghost before = *self;
        let mut waiting: Vec<InputId> = Vec::new();
        waiting.push(input_id);
        assert(waiting_view(waiting@) =~= seq![input_id.0 as int]);
        while waiting.len() > 0
            invariant
                before.wf(),
                self.wf(),
                self.same_shape(&before),
                direction != NFDirection::Either,
                propagated_from(
                    &before,
                    before.connections@,
                    directions_of(self),
                    waiting_view(waiting@),
                    direction,
                ) == propagated_from(
                    &before,
                    before.connections@,
                    directions_of(&before),
                    seq![input_id.0 as int],
                    direction,
                ),
            decreases wild_count(self.input_directions()), waiting@.len(),
        {
            let ghost held = waiting_view(waiting@);
            let ghost now = *self;
            let next = waiting.pop().unwrap();
            assert(waiting_view(waiting@) =~= held.drop_last());
            assert(held.last() == next.0 as int);
            if next.0 < self.inputs.len() && self.inputs[next.0].typ.direction == NFDirection::Either {
                proof {
                    lemma_fix_one(self.input_directions(), next.0 as int, direction);
                    lemma_same_receivers(&now, &before, before.connections@, now.input_owner(next.0 as int));
                    lemma_same_pinned(&now, &before, directions_of(&now), next.0 as int, direction);
                }
                self.pin(next.0, direction, &mut waiting);
                proof {
                    now.lemma_same_shape_trans(self, &before);
                }
            }
        }
    }

    /// Infers directions from an accepted connection from `output_id` to
    /// `input_id`. Where the output port has a direction and the input port
    /// has none, the direction flows on from the input port. Gives `None`,
    /// and changes nothing, where a handle names no port of the graph.
    pub fn propagate_data_types(&mut self, input_id: InputId, output_id: OutputId) -> (done: Option<()>)
        requires
            old(self).wf(),
        ensures
            final(self).wf(),
            final(self).same_shape(old(self)),
            done is Some == (old(self).has_input(input_id) && old(self).has_output(output_id)),
            done is Some ==> directions_of(final(self)) == propagated(
                old(self),
                old(self).connection_seq(),
                directions_of(old(self)),
                input_id.0 as int,
                output_id.0 as int,
            ),
            done is None ==> directions_of(final(self)) == directions_of(old(self)),
    {
        if input_id.0 >= self.inputs.len() || output_id.0 >= self.outputs.len() {
            return None;
        }
        let direction = self.outputs[output_id.0].typ.direction;
        if direction == NFDirection::Either {
            return Some(());
        }
        if self.inputs[input_id.0].typ.direction != NFDirection::Either {
            return Some(());
        }
        self.propagate_to_node(input_id, direction);
        Some(())
    }

    /// Being of the same shape carries over.
    pub(crate) proof fn lemma_same_shape_trans(&self, next: &Graph, first: &Graph)
        requires
            next.same_shape(self),
            self.same_shape(first),
        ensures
            next.same_shape(first),
    {
    }

    /// Handles a finished connection attempt from `output` to `input`.
    ///
    /// A connection that would close a cycle is rejected and the output port
    /// is left unconnected; nothing else changes. An accepted connection
    /// replaces the one the output port had, and directions are inferred
    /// from it.
    pub fn connect(&mut self, output: OutputId, input: InputId) -> (accepted: bool)
        requires
            old(self).wf(),
        ensures
            final(self).wf(),
            final(self).node_seq() == old(self).node_seq(),
            accepted == (old(self).has_output(output) && old(self).has_input(input) && !old(self).reaches(
                old(self).input_owner(input.0 as int),
                old(self).output_owner(output.0 as int),
            )),
            accepted ==> final(self).connection_seq() == old(self).connection_seq().update(
                output.0 as int,
                Some(input),
            ),
            !accepted && old(self).has_output(output) ==> final(self).connection_seq() == old(self).connection_seq().update(
                output.0 as int,
                None,
            ),
            !accepted && !old(self).has_output(output) ==> final(self).connection_seq() == old(self).connection_seq(),
            !accepted ==> directions_of(final(self)) == directions_of(old(self)),
            final(self).same_ports(old(self)),
            accepted ==> directions_of(final(self)) == propagated(
                old(self),
                final(self).connection_seq(),
                directions_of(old(self)),
                input.0 as int,
                output.0 as int,
            ),
    {
        if !self.try_connect(output, input) {
            return false;
        }
        let ghost joined = *self;
        self.propagate_data_types(input, output);
        proof {
            assert(directions_of(&joined) == directions_of(old(self)));
            lemma_same_propagated(
                &joined,
                old(self),
                joined.connections@,
                directions_of(&joined),
                input.0 as int,
                output.0 as int,
            );
        }
        true
    }
}

/// Graphs of the same shape connect the same ports.
proof fn lemma_same_receivers(now: &Graph, first: &Graph, connections: Seq<Option<InputId>>, n: int)
    requires
        now.nodes@ == first.nodes@,
    ensures
        forall|upto: nat| #[trigger]
            receivers(now, connections, n, upto) == receivers(first, connections, n, upto),
{
    assert forall|upto: nat| #[trigger]
        receivers(now, connections, n, upto) == receivers(first, connections, n, upto) by {
        lemma_same_receivers_upto(now, first, connections, n, upto);
    }
}

/// Graphs of the same shape connect the same ports.
proof fn lemma_same_receivers_upto(
    now: &Graph,
    first: &Graph,
    connections: Seq<Option<InputId>>,
    n: int,
    upto: nat,
)
    requires
        now.nodes@ == first.nodes@,
    ensures
        receivers(now, connections, n, upto) == receivers(first, connections, n, upto),
    decreases upto,
{
    if upto > 0 {
        lemma_same_receivers_upto(now, first, connections, n, (upto - 1) as nat);
    }
}

/// Fixing a direction does the same in graphs of the same shape.
proof fn lemma_same_pinned(now: &Graph, first: &Graph, directions: Directions, i: int, direction: NFDirection)
    requires
        now.same_ports(first),
        0 <= i < now.inputs@.len(),
        directions.outputs.len() == now.outputs@.len(),
    ensures
        pinned(now, directions, i, direction) == pinned(first, directions, i, direction),
{
    assert(now.inputs@[i].node == first.inputs@[i].node);
    assert forall|o: int| 0 <= o < directions.outputs.len() implies (now.output_owner(o)
        == now.input_owner(i)) == (first.output_owner(o) == first.input_owner(i)) by {
        assert(now.outputs@[o].node == first.outputs@[o].node);
    }
    assert(pinned(now, directions, i, direction).outputs =~= pinned(
        first,
        directions,
        i,
        direction,
    ).outputs);
}

/// Directions flow alike through graphs with the same nodes and ports.
proof fn lemma_same_propagated_from(
    now: &Graph,
    first: &Graph,
    connections: Seq<Option<InputId>>,
    directions: Directions,
    waiting: Seq<int>,
    direction: NFDirection,
)
    requires
        now.same_ports(first),
        direction != NFDirection::Either,
        directions.inputs.len() == now.inputs@.len(),
        directions.outputs.len() == now.outputs@.len(),
    ensures
        propagated_from(now, connections, directions, waiting, direction) == propagated_from(
            first,
            connections,
            directions,
            waiting,
            direction,
        ),
    decreases wild_count(directions.inputs), waiting.len(),
{
    if waiting.len() > 0 {
        let i = waiting.last();
        let rest = waiting.drop_last();
        if 0 <= i < directions.inputs.len() && directions.inputs[i] == NFDirection::Either {
            lemma_fix_one(directions.inputs, i, direction);
            lemma_same_pinned(now, first, directions, i, direction);
            lemma_same_receivers(now, first, connections, now.input_owner(i));
            assert(now.inputs@[i].node == first.inputs@[i].node);
            lemma_same_propagated_from(
                now,
                first,
                connections,
                pinned(now, directions, i, direction),
                rest + receivers(
                    now,
                    connections,
                    now.input_owner(i),
                    now.node_seq()[now.input_owner(i)].outputs@.len(),
                ),
                direction,
            );
        } else {
            lemma_same_propagated_from(now, first, connections, directions, rest, direction);
        }
    }
}

/// Directions are inferred alike in graphs with the same nodes and ports.
proof fn lemma_same_propagated(
    now: &Graph,
    first: &Graph,
    connections: Seq<Option<InputId>>,
    directions: Directions,
    input: int,
    output: int,
)
    requires
        now.same_ports(first),
        directions.inputs.len() == now.inputs@.len(),
        directions.outputs.len() == now.outputs@.len(),
    ensures
        propagated(now, connections, directions, input, output) == propagated(
            first,
            connections,
            directions,
            input,
            output,
        ),
{
    let direction = directions.outputs[output];
    if !(direction == NFDirection::Either || directions.inputs[input] != NFDirection::Either) {
        lemma_same_propagated_from(now, first, connections, directions, seq![input], direction);
    }
}

} // verus!
