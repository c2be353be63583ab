//! The graph model: nodes, their ports, and the connections between ports.
//!
//! An output port has at most one connection; an input port may receive from
//! several outputs. The graph never holds a cycle: every connection leads
//! from a node of lower rank to a node of higher rank.

use vstd::prelude::*;
use crate::data_type::{DataType, NFDirection};
use crate::id_type::{InputId, NodeId, OutputId};
use crate::node_data::NFNodeData;

verus! {

/// An input port.
#[derive(Debug, Clone, Copy)]
pub struct InputParam {
    pub id: InputId,
    pub typ: DataType,
    /// The node the port belongs to.
    pub node: NodeId,
}

/// An output port.
#[derive(Debug, Clone, Copy)]
pub struct OutputParam {
    pub id: OutputId,
    /// The node the port belongs to.
    pub node: NodeId,
    pub typ: DataType,
}

/// A node: its kind and configuration, and its ports by name, in order.
#[derive(Debug)]
pub struct Node {
    pub id: NodeId,
    pub label: String,
    pub inputs: Vec<(String, InputId)>,
    pub outputs: Vec<(String, OutputId)>,
    pub user_data: NFNodeData,
}

/// The graph. Handles are positions in its tables; nothing is ever removed
/// from a table, so a handle stays valid once given out.
pub struct Graph {
    pub(crate) nodes: Vec<Node>,
    pub(crate) inputs: Vec<InputParam>,
    pub(crate) outputs: Vec<OutputParam>,
    /// For each output port, the input port it is connected to.
    pub(crate) connections: Vec<Option<InputId>>,
    /// A rank for each node that rises along every connection.
    pub(crate) rank: Ghost<Seq<nat>>,
}

impl Graph {
    /// The nodes, by handle.
    pub open(crate) spec fn node_seq(&self) -> Seq<Node> {
        self.nodes@
    }

    /// The input ports, by handle.
    pub open(crate) spec fn input_seq(&self) -> Seq<InputParam> {
        self.inputs@
    }

    /// The output ports, by handle.
    pub open(crate) spec fn output_seq(&self) -> Seq<OutputParam> {
        self.outputs@
    }

    /// For each output port, by handle, the input port it is connected to.
    pub open(crate) spec fn connection_seq(&self) -> Seq<Option<InputId>> {
        self.connections@
    }

    /// The rank of each node, by handle.
    pub open(crate) spec fn rank_seq(&self) -> Seq<nat> {
        self.rank@
    }

    /// The node that input port `i` belongs to.
    pub open(crate) spec fn input_owner(&self, i: int) -> int {
        self.inputs@[i].node.0 as int
    }

    /// The node that output port `o` belongs to.
    pub open(crate) spec fn output_owner(&self, o: int) -> int {
        self.outputs@[o].node.0 as int
    }

    /// The input port that output port `o` is connected to, or -1.
    pub open(crate) spec fn target(&self, o: int) -> int {
        match self.connections@[o] {
            Some(input) => input.0 as int,
            None => -1,
        }
    }

    /// Whether output port `o` is connected to input port `i`.
    pub open(crate) spec fn connected(&self, o: int, i: int) -> bool {
        0 <= o < self.connections@.len() && self.target(o) == i && i >= 0
    }

    /// A node is sound when it knows its handle and lists only ports of its own.
    pub open(crate) spec fn node_ok(&self, n: int) -> bool {
        let node = self.nodes@[n];
        &&& node.id.0 == n
        &&& forall|k: int|
            0 <= k < node.inputs@.len() ==> (#[trigger] node.inputs@[k]).1.0 < self.inputs@.len()
                && self.inputs@[node.inputs@[k].1.0 as int].node.0 == n
        &&& forall|k: int|
            0 <= k < node.outputs@.len() ==> (#[trigger] node.outputs@[k]).1.0
                < self.outputs@.len() && self.outputs@[node.outputs@[k].1.0 as int].node.0 == n
    }

    /// An input port is sound when it knows its handle and belongs to a node.
    pub open(crate) spec fn input_ok(&self, i: int) -> bool {
        &&& self.inputs@[i].id.0 == i
        &&& self.inputs@[i].node.0 < self.nodes@.len()
    }

    /// Whether node `n` lists output port `o` at position `k`.
    pub open(crate) spec fn lists_output(&self, n: int, k: int, o: int) -> bool {
        0 <= k < self.nodes@[n].outputs@.len() && self.nodes@[n].outputs@[k].1.0 == o
    }

    /// An output port is sound when it knows its handle, its node lists it,
    /// and its connection, if any, leads to an input port of a node of
    /// higher rank.
    pub open(crate) spec fn output_ok(&self, o: int) -> bool {
        &&& self.outputs@[o].id.0 == o
        &&& self.outputs@[o].node.0 < self.nodes@.len()
        &&& exists|k: int| #[trigger] self.lists_output(self.output_owner(o), k, o)
        &&& match self.connections@[o] {
            Some(input) => input.0 < self.inputs@.len() && self.rank@[self.output_owner(o)]
                < self.rank@[self.input_owner(input.0 as int)],
            None => true,
        }
    }

    /// The invariant of the graph.
    pub open(crate) spec fn wf(&self) -> bool {
        &&& self.connections@.len() == self.outputs@.len()
        &&& self.rank@.len() == self.nodes@.len()
        &&& forall|n: int| 0 <= n < self.nodes@.len() ==> #[trigger] self.node_ok(n)
        &&& forall|i: int| 0 <= i < self.inputs@.len() ==> #[trigger] self.input_ok(i)
        &&& forall|o: int| 0 <= o < self.outputs@.len() ==> #[trigger] self.output_ok(o)
    }

    /// Whether a connection leads from a port of node `a` to a port of node `b`.
    pub open(crate) spec fn edge(&self, a: int, b: int) -> bool {
        exists|o: int|
            0 <= o < self.outputs@.len() && self.output_owner(o) == a && (#[trigger] self.target(o))
                >= 0 && self.input_owner(self.target(o)) == b
    }

    /// Whether `b` can be reached from `a` along exactly `steps` connections.
    pub open(crate) spec fn reaches_in(&self, a: int, b: int, steps: nat) -> bool
        decreases steps,
    {
        if steps == 0 {
            a == b
        } else {
            exists|m: int| (#[trigger] self.edge(m, b)) && self.reaches_in(a, m, (steps - 1) as nat)
        }
    }

    /// A node before `b` on a way of `steps` connections from `a` to `b`.
    pub open(crate) spec fn last_before(&self, a: int, b: int, steps: nat) -> int {
        choose|m: int| (#[trigger] self.edge(m, b)) && self.reaches_in(a, m, (steps - 1) as nat)
    }

    /// Whether `b` can be reached from `a` along connections; every node
    /// reaches itself.
    pub open(crate) spec fn reaches(&self, a: int, b: int) -> bool {
        exists|steps: nat| #[trigger] self.reaches_in(a, b, steps)
    }

    /// Whether the handle names a node of this graph.
    pub open(crate) spec fn has_node(&self, id: NodeId) -> bool {
        id.0 < self.nodes@.len()
    }

    /// Whether the handle names an input port of this graph.
    pub open(crate) spec fn has_input(&self, id: InputId) -> bool {
        id.0 < self.inputs@.len()
    }

    /// Whether the handle names an output port of this graph.
    pub open(crate) spec fn has_output(&self, id: OutputId) -> bool {
        id.0 < self.outputs@.len()
    }

    /// The directions of the input ports, by handle.
    pub open(crate) spec fn input_directions(&self) -> Seq<NFDirection> {
        Seq::new(self.inputs@.len(), |i: int| self.inputs@[i].typ.direction)
    }

    /// The directions of the output ports, by handle.
    pub open(crate) spec fn output_directions(&self) -> Seq<NFDirection> {
        Seq::new(self.outputs@.len(), |o: int| self.outputs@[o].typ.direction)
    }

    /// Whether two graphs have the same nodes, ports and connections, and
    /// differ at most in the directions of their ports.
    pub open(crate) spec fn same_shape(&self, other: &Graph) -> bool {
        &&& self.same_ports(other)
        &&& self.connections@ == other.connections@
        &&& self.rank@ == other.rank@
    }

    /// Whether two graphs have the same nodes and the same ports but for the
    /// directions of the ports.
    pub open(crate) spec fn same_ports(&self, other: &Graph) -> bool {
        &&& self.nodes@ == other.nodes@
        &&& self.inputs@.len() == other.inputs@.len()
        &&& self.outputs@.len() == other.outputs@.len()
        &&& forall|i: int|
            0 <= i < self.inputs@.len() ==> (#[trigger] self.inputs@[i]).id == other.inputs@[i].id
                && self.inputs@[i].node == other.inputs@[i].node && self.inputs@[i].typ.family
                == other.inputs@[i].typ.family
        &&& forall|o: int|
            0 <= o < self.outputs@.len() ==> (#[trigger] self.outputs@[o]).id
                == other.outputs@[o].id && self.outputs@[o].node == other.outputs@[o].node
                && self.outputs@[o].typ.family == other.outputs@[o].typ.family
    }

    /// An empty graph.
    pub fn new() -> (graph: Self)
        ensures
            graph.wf(),
            graph.node_seq().len() == 0,
            graph.input_seq().len() == 0,
            graph.output_seq().len() == 0,
    {
        Graph {
            nodes: Vec::new(),
            inputs: Vec::new(),
            outputs: Vec::new(),
            connections: Vec::new(),
            rank: Ghost(Seq::empty()),
        }
    }

    /// The number of nodes.
    pub fn node_count(&self) -> (count: usize)
        ensures
            count == self.node_seq().len(),
    {
        self.nodes.len()
    }

    /// The node behind a handle.
    pub fn get_node(&self, id: NodeId) -> (node: Option<&Node>)
        ensures
            match node {
                Some(found) => self.has_node(id) && *found == self.node_seq()[id.0 as int],
                None => !self.has_node(id),
            },
    {
        if id.0 < self.nodes.len() {
            Some(&self.nodes[id.0])
        } else {
            None
        }
    }

    /// The input port behind a handle.
    pub fn get_input(&self, id: InputId) -> (port: Option<&InputParam>)
        ensures
            match port {
                Some(found) => self.has_input(id) && *found == self.input_seq()[id.0 as int],
                None => !self.has_input(id),
            },
    {
        if id.0 < self.inputs.len() {
            Some(&self.inputs[id.0])
        } else {
            None
        }
    }

    /// The output port behind a handle.
    pub fn get_output(&self, id: OutputId) -> (port: Option<&OutputParam>)
        ensures
            match port {
                Some(found) => self.has_output(id) && *found == self.output_seq()[id.0 as int],
                None => !self.has_output(id),
            },
    {
        if id.0 < self.outputs.len() {
            Some(&self.outputs[id.0])
        } else {
            None
        }
    }

    /// The input port that an output port is connected to.
    pub fn connection(&self, output: OutputId) -> (input: Option<InputId>)
        requires
            self.wf(),
        ensures
            match input {
                Some(i) => self.has_output(output) && self.connected(output.0 as int, i.0 as int),
                None => !self.has_output(output) || self.connection_seq()[output.0 as int] is None,
            },
    {
        if output.0 < self.connections.len() {
            self.connections[output.0]
        } else {
            None
        }
    }

    /// Adds a node without ports and returns its handle.
    pub fn add_node(&mut self, label: String, user_data: NFNodeData) -> (id: NodeId)
        requires
            old(self).wf(),
        ensures
            final(self).wf(),
            id.0 == old(self).node_seq().len(),
            final(self).node_seq().len() == old(self).node_seq().len() + 1,
            final(self).node_seq().take(id.0 as int) == old(self).node_seq(),
            final(self).node_seq()[id.0 as int].inputs@.len() == 0,
            final(self).node_seq()[id.0 as int].outputs@.len() == 0,
            final(self).node_seq()[id.0 as int].user_data == user_data,
            final(self).node_seq()[id.0 as int].label == label,
            final(self).input_seq() == old(self).input_seq(),
            final(self).output_seq() == old(self).output_seq(),
            final(self).connection_seq() == old(self).connection_seq(),
    {
        let id = NodeId(self.nodes.len());
        let node = Node { id, label, inputs: Vec::new(), outputs: Vec::new(), user_data };
        self.nodes.push(node);
        proof {
            self.rank@ = old(self).rank@.push(0);
            assert(final(self).nodes@.take(id.0 as int) =~= old(self).nodes@);
            assert forall|n: int| 0 <= n < self.nodes@.len() implies #[trigger] self.node_ok(n) by {
                if n < old(self).nodes@.len() {
                    assert(old(self).node_ok(n));
                }
            }
            assert forall|i: int| 0 <= i < self.inputs@.len() implies #[trigger] self.input_ok(
                i,
            ) by {
                assert(old(self).input_ok(i));
            }
            assert forall|o: int| 0 <= o < self.outputs@.len() implies #[trigger] self.output_ok(
                o,
            ) by {
                assert(old(self).output_ok(o));
                let k = choose|k: int| #[trigger]
                    old(self).lists_output(old(self).output_owner(o), k, o);
                assert(self.lists_output(self.output_owner(o), k, o));
                if self.target(o) >= 0 {
                    assert(old(self).input_ok(self.target(o)));
                }
            }
        }
        id
    }
    /// Adds an input port to a node, after the ports the node already has.
    pub fn add_input_param(&mut self, node: NodeId, name: String, typ: DataType) -> (id: InputId)
        requires
            old(self).wf(),
            old(self).has_node(node),
        ensures
            final(self).wf(),
            id.0 == old(self).input_seq().len(),
            final(self).input_seq() == old(self).input_seq().push(InputParam { id, typ, node }),
            final(self).output_seq() == old(self).output_seq(),
            final(self).connection_seq() == old(self).connection_seq(),
            final(self).node_seq().len() == old(self).node_seq().len(),
            forall|n: int|
                0 <= n < old(self).node_seq().len() && n != node.0 ==> (#[trigger] final(self).node_seq()[n])
                    == old(self).node_seq()[n],
            final(self).node_seq()[node.0 as int].inputs@ == old(self).node_seq()[node.0 as int].inputs@.push(
                (name, id),
            ),
            final(self).node_seq()[node.0 as int].outputs == old(self).node_seq()[node.0 as int].outputs,
            final(self).node_seq()[node.0 as int].user_data == old(self).node_seq()[node.0 as int].user_data,
            final(self).node_seq()[node.0 as int].id == old(self).node_seq()[node.0 as int].id,
            final(self).node_seq()[node.0 as int].label == old(self).node_seq()[node.0 as int].label,
    {
        let id = InputId(self.inputs.len());
        self.inputs.push(InputParam { id, typ, node });
        self.nodes[node.0].inputs.push((name, id));
        proof {
            assert forall|n: int| 0 <= n < self.nodes@.len() implies #[trigger] self.node_ok(n) by {
                assert(old(self).node_ok(n));
            }
            assert forall|i: int| 0 <= i < self.inputs@.len() implies #[trigger] self.input_ok(
                i,
            ) by {
                if i < old(self).inputs@.len() {
                    assert(old(self).input_ok(i));
                }
            }
            assert forall|o: int| 0 <= o < self.outputs@.len() implies #[trigger] self.output_ok(
                o,
            ) by {
                assert(old(self).output_ok(o));
                let k = choose|k: int| #[trigger]
                    old(self).lists_output(old(self).output_owner(o), k, o);
                assert(self.lists_output(self.output_owner(o), k, o));
                if self.target(o) >= 0 {
                    assert(old(self).input_ok(self.target(o)));
                }
            }
        }
        id
    }
    /// Adds an output port to a node, after the ports the node already has.
    /// The new port is not connected.
    pub fn add_output_param(&mut self, node: NodeId, name: String, typ: DataType) -> (id: OutputId)
        requires
            old(self).wf(),
            old(self).has_node(node),
        ensures
            final(self).wf(),
            id.0 == old(self).output_seq().len(),
            final(self).output_seq() == old(self).output_seq().push(OutputParam { id, node, typ }),
            final(self).input_seq() == old(self).input_seq(),
            final(self).connection_seq() == old(self).connection_seq().push(None),
            final(self).node_seq().len() == old(self).node_seq().len(),
            forall|n: int|
                0 <= n < old(self).node_seq().len() && n != node.0 ==> (#[trigger] final(self).node_seq()[n])
                    == old(self).node_seq()[n],
            final(self).node_seq()[node.0 as int].outputs@ == old(self).node_seq()[node.0 as int].outputs@.push(
                (name, id),
            ),
            final(self).node_seq()[node.0 as int].inputs == old(self).node_seq()[node.0 as int].inputs,
            final(self).node_seq()[node.0 as int].user_data == old(self).node_seq()[node.0 as int].user_data,
            final(self).node_seq()[node.0 as int].id == old(self).node_seq()[node.0 as int].id,
            final(self).node_seq()[node.0 as int].label == old(self).node_seq()[node.0 as int].label,
    {
        let id = OutputId(self.outputs.len());
        self.outputs.push(OutputParam { id, node, typ });
        self.connections.push(None);
        self.nodes[node.0].outputs.push((name, id));
        proof {
            assert forall|n: int| 0 <= n < self.nodes@.len() implies #[trigger] self.node_ok(n) by {
                assert(old(self).node_ok(n));
            }
            assert forall|i: int| 0 <= i < self.inputs@.len() implies #[trigger] self.input_ok(
                i,
            ) by {
                assert(old(self).input_ok(i));
            }
            assert forall|o: int| 0 <= o < self.outputs@.len() implies #[trigger] self.output_ok(
                o,
            ) by {
                if o < old(self).outputs@.len() {
                    assert(old(self).output_ok(o));
                    let k = choose|k: int| #[trigger]
                        old(self).lists_output(old(self).output_owner(o), k, o);
                    assert(self.lists_output(self.output_owner(o), k, o));
                    if self.target(o) >= 0 {
                        assert(old(self).input_ok(self.target(o)));
                    }
                } else {
                    assert(self.lists_output(
                        node.0 as int,
                        old(self).nodes@[node.0 as int].outputs@.len() as int,
                        o,
                    ));
                }
            }
        }
        id
    }

    /// Removes the connection of an output port, if it has one, and returns
    /// the input port it led to.
    pub fn remove_connection(&mut self, output: OutputId) -> (removed: Option<InputId>)
        requires
            old(self).wf(),
        ensures
            final(self).wf(),
            final(self).node_seq() == old(self).node_seq(),
            final(self).input_seq() == old(self).input_seq(),
            final(self).output_seq() == old(self).output_seq(),
            old(self).has_output(output) ==> removed == old(self).connection_seq()[output.0 as int]
                && final(self).connection_seq() == old(self).connection_seq().update(
                output.0 as int,
                None,
            ),
            !old(self).has_output(output) ==> removed is None && final(self).connection_seq()
                == old(self).connection_seq(),
    {
        if output.0 >= self.connections.len() {
            return None;
        }
        let removed = self.connections[output.0];
        self.connections.set(output.0, None);
        proof {
            assert forall|n: int| 0 <= n < self.nodes@.len() implies #[trigger] self.node_ok(n) by {
                assert(old(self).node_ok(n));
            }
            assert forall|i: int| 0 <= i < self.inputs@.len() implies #[trigger] self.input_ok(
                i,
            ) by {
                assert(old(self).input_ok(i));
            }
            assert forall|o: int| 0 <= o < self.outputs@.len() implies #[trigger] self.output_ok(
                o,
            ) by {
                assert(old(self).output_ok(o));
                let k = choose|k: int| #[trigger]
                    old(self).lists_output(old(self).output_owner(o), k, o);
                assert(self.lists_output(self.output_owner(o), k, o));
            }
        }
        removed
    }
    /// The nodes that the first `upto` output ports of node `n` lead to, in
    /// the order of those ports; a port that is not connected leads nowhere.
    pub open(crate) spec fn receiver_nodes(&self, n: int, upto: nat) -> Seq<NodeId>
        decreases upto,
    {
        if upto == 0 {
            Seq::empty()
        } else {
            let before = self.receiver_nodes(n, (upto - 1) as nat);
            let o = self.nodes@[n].outputs@[upto - 1].1.0 as int;
            if self.target(o) >= 0 {
                before.push(self.inputs@[self.target(o)].node)
            } else {
                before
            }
        }
    }

    /// The nodes of those among the first `upto` output ports of the graph
    /// that are connected to input port `i`, in the order of the handles.
    pub open(crate) spec fn sender_nodes(&self, i: int, upto: nat) -> Seq<NodeId>
        decreases upto,
    {
        if upto == 0 {
            Seq::empty()
        } else {
            let before = self.sender_nodes(i, (upto - 1) as nat);
            if self.target(upto - 1) == i {
                before.push(self.outputs@[upto - 1].node)
            } else {
                before
            }
        }
    }

    /// The senders into the first `upto` input ports of node `n`, port by port.
    pub open(crate) spec fn connected_senders(&self, n: int, upto: nat) -> Seq<NodeId>
        decreases upto,
    {
        if upto == 0 {
            Seq::empty()
        } else {
            self.connected_senders(n, (upto - 1) as nat) + self.sender_nodes(
                self.nodes@[n].inputs@[upto - 1].1.0 as int,
                self.outputs@.len(),
            )
        }
    }

    /// The node that an output port leads to, if the port is connected.
    pub fn get_receiving_node(&self, output_id: OutputId) -> (node: Option<NodeId>)
        requires
            self.wf(),
        ensures
            match node {
                Some(found) => self.has_output(output_id) && self.target(output_id.0 as int) >= 0
                    && found == self.input_seq()[self.target(output_id.0 as int)].node,
                None => !self.has_output(output_id) || self.target(output_id.0 as int) < 0,
            },
    {
        if output_id.0 >= self.connections.len() {
            return None;
        }
        assert(self.output_ok(output_id.0 as int));
        match self.connections[output_id.0] {
            Some(input) => Some(self.inputs[input.0].node),
            None => None,
        }
    }

    /// The nodes that send to an input port: for every output port that is
    /// connected to it, in the order of the handles, the node of that port.
    pub fn get_sending_nodes(&self, input_id: InputId) -> (nodes: Vec<NodeId>)
        requires
            self.wf(),
        ensures
            nodes@ == self.sender_nodes(input_id.0 as int, self.output_seq().len()),
    {
        let mut nodes: Vec<NodeId> = Vec::new();
        let mut o: usize = 0;
        while o < self.connections.len()
            invariant
                self.wf(),
                o <= self.connections.len(),
                nodes@ == self.sender_nodes(input_id.0 as int, o as nat),
            decreases self.connections.len() - o,
        {
            match self.connections[o] {
                Some(input) => {
                    if input.0 == input_id.0 {
                        nodes.push(self.outputs[o].node);
                    }
                },
                None => {},
            }
            o += 1;
        }
        nodes
    }

    /// The nodes that a node sends to: for every output port of the node that
    /// is connected, in the order of the ports, the node it leads to. A
    /// handle that names no node gives nothing.
    pub fn get_connected_receiver_nodes(&self, node_id: NodeId) -> (nodes: Vec<NodeId>)
        requires
            self.wf(),
        ensures
            self.has_node(node_id) ==> nodes@ == self.receiver_nodes(
                node_id.0 as int,
                self.node_seq()[node_id.0 as int].outputs@.len(),
            ),
            !self.has_node(node_id) ==> nodes@.len() == 0,
    {
        let mut nodes: Vec<NodeId> = Vec::new();
        if node_id.0 >= self.nodes.len() {
            return nodes;
        }
        let node = &self.nodes[node_id.0];
        let mut k: usize = 0;
        while k < node.outputs.len()
            invariant
                self.wf(),
                node_id.0 < self.nodes@.len(),
                *node == self.nodes@[node_id.0 as int],
                k <= node.outputs@.len(),
                nodes@ == self.receiver_nodes(node_id.0 as int, k as nat),
            decreases node.outputs.len() - k,
        {
            assert(self.node_ok(node_id.0 as int));
            assert(node.outputs@[k as int].1.0 < self.outputs@.len());
            match self.get_receiving_node(node.outputs[k].1) {
                Some(receiver) => {
                    nodes.push(receiver);
                },
                None => {},
            }
            k += 1;
        }
        nodes
    }

    /// The nodes that send to a node: for every input port of the node, in
    /// the order of the ports, the nodes that send to that port. A handle
    /// that names no node gives nothing.
    pub fn get_connected_sender_nodes(&self, node_id: NodeId) -> (nodes: Vec<NodeId>)
        requires
            self.wf(),
        ensures
            self.has_node(node_id) ==> nodes@ == self.connected_senders(
                node_id.0 as int,
                self.node_seq()[node_id.0 as int].inputs@.len(),
            ),
            !self.has_node(node_id) ==> nodes@.len() == 0,
    {
        let mut nodes: Vec<NodeId> = Vec::new();
        if node_id.0 >= self.nodes.len() {
            return nodes;
        }
        let node = &self.nodes[node_id.0];
        let mut k: usize = 0;
        while k < node.inputs.len()
            invariant
                self.wf(),
                node_id.0 < self.nodes@.len(),
                *node == self.nodes@[node_id.0 as int],
                k <= node.inputs@.len(),
                nodes@ == self.connected_senders(node_id.0 as int, k as nat),
            decreases node.inputs.len() - k,
        {
            let mut senders = self.get_sending_nodes(node.inputs[k].1);
            nodes.append(&mut senders);
            k += 1;
        }
        nodes
    }
    /// Replaces the kind and configuration of a node. Gives `false`, and
    /// changes nothing, where the handle names no node.
    pub fn set_user_data(&mut self, node_id: NodeId, user_data: NFNodeData) -> (done: bool)
        requires
            old(self).wf(),
        ensures
            final(self).wf(),
            done == old(self).has_node(node_id),
            final(self).input_seq() == old(self).input_seq(),
            final(self).output_seq() == old(self).output_seq(),
            final(self).connection_seq() == old(self).connection_seq(),
            final(self).node_seq().len() == old(self).node_seq().len(),
            forall|n: int|
                0 <= n < old(self).node_seq().len() && n != node_id.0 ==> (#[trigger] final(self).node_seq()[n])
                    == old(self).node_seq()[n],
            done ==> final(self).node_seq()[node_id.0 as int].user_data == user_data,
            done ==> final(self).node_seq()[node_id.0 as int].id == old(self).node_seq()[node_id.0 as int].id,
            done ==> final(self).node_seq()[node_id.0 as int].label == old(self).node_seq()[node_id.0 as int].label,
            done ==> final(self).node_seq()[node_id.0 as int].inputs == old(self).node_seq()[node_id.0 as int].inputs,
            done ==> final(self).node_seq()[node_id.0 as int].outputs == old(self).node_seq()[node_id.0 as int].outputs,
    {
        if node_id.0 >= self.nodes.len() {
            return false;
        }
        self.nodes[node_id.0].user_data = user_data;
        proof {
            assert forall|n: int| 0 <= n < self.nodes@.len() implies #[trigger] self.node_ok(n) by {
                assert(old(self).node_ok(n));
            }
            assert forall|i: int| 0 <= i < self.inputs@.len() implies #[trigger] self.input_ok(
                i,
            ) by {
                assert(old(self).input_ok(i));
            }
            assert forall|o: int| 0 <= o < self.outputs@.len() implies #[trigger] self.output_ok(
                o,
            ) by {
                assert(old(self).output_ok(o));
                let k = choose|k: int| #[trigger]
                    old(self).lists_output(old(self).output_owner(o), k, o);
                assert(self.lists_output(self.output_owner(o), k, o));
                if self.target(o) >= 0 {
                    assert(old(self).input_ok(self.target(o)));
                }
            }
        }
        true
    }
}

} // verus!
