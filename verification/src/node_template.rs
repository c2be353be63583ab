//! Node templates: the ports that a node of each kind is created with.

use vstd::prelude::*;
use crate::data_type::{DataType, NFDirection, NFFamily};
use crate::graph::{Graph, InputParam, OutputParam};
use crate::graph_state::{registered_node, NFGraphState};
use crate::id_type::{InputId, NodeId, OutputId};
use crate::node_data::NFNodeData;
use crate::plugin::NFOutput;

verus! {

/// The ports of a template as mathematics: name and type, in order.
pub type PortsView = Seq<(Seq<char>, DataType)>;

/// Ports as mathematics.
pub open spec fn ports_view(ports: Seq<(String, DataType)>) -> PortsView {
    ports.map_values(|port: (String, DataType)| (port.0@, port.1))
}

/// The wildcard type.
pub open spec fn any_type() -> DataType {
    DataType { family: NFFamily::Inet, direction: NFDirection::Either }
}

/// The output ports that an extension declares, as template ports.
pub open spec fn declared_outputs(outputs: Seq<(String, NFOutput)>) -> PortsView {
    outputs.map_values(
        |output: (String, NFOutput)|
            (output.0@, DataType { family: output.1.family, direction: output.1.direction }),
    )
}

/// The input ports of a node of the given kind.
pub open spec fn input_ports(kind: NFNodeData, plugins: Seq<crate::plugin::Plugin>) -> PortsView {
    match kind {
        NFNodeData::FileIpList(_)
        | NFNodeData::SourceAddressFilter(_)
        | NFNodeData::DestinationAddressFilter(_)
        | NFNodeData::SourcePortFilter(_)
        | NFNodeData::DestinationPortFilter(_)
        | NFNodeData::ProtocolFilter(_)
        | NFNodeData::FamilySplitter
        | NFNodeData::Drop
        | NFNodeData::InterfaceFilter(_)
        | NFNodeData::SourceNAT(_)
        | NFNodeData::DestinationNAT(_) => seq![(""@, any_type())],
        NFNodeData::Accept => seq![
            ("outgoing"@, DataType { family: NFFamily::Inet, direction: NFDirection::Outgoing }),
        ],
        NFNodeData::Localhost => seq![
            ("incoming"@, DataType { family: NFFamily::Inet, direction: NFDirection::Incoming }),
        ],
        NFNodeData::Source => Seq::empty(),
        NFNodeData::Custom { plugin, id, .. } => match registered_node(plugins, plugin@, id@) {
            Some(declared) => seq![
                (
                    ""@,
                    DataType {
                        family: declared.input.family,
                        direction: declared.input.direction,
                    },
                ),
            ],
            None => Seq::empty(),
        },
    }
}

/// The output ports of a node of the given kind.
pub open spec fn output_ports(kind: NFNodeData, plugins: Seq<crate::plugin::Plugin>) -> PortsView {
    match kind {
        NFNodeData::Source => seq![
            ("incoming"@, DataType { family: NFFamily::Inet, direction: NFDirection::Incoming }),
        ],
        NFNodeData::FileIpList(_)
        | NFNodeData::SourceAddressFilter(_)
        | NFNodeData::DestinationAddressFilter(_)
        | NFNodeData::SourcePortFilter(_)
        | NFNodeData::DestinationPortFilter(_)
        | NFNodeData::InterfaceFilter(_)
        | NFNodeData::ProtocolFilter(_) => seq![
            ("match"@, any_type()),
            ("non-match"@, any_type()),
        ],
        NFNodeData::Localhost => seq![
            ("outgoing"@, DataType { family: NFFamily::Inet, direction: NFDirection::Outgoing }),
        ],
        NFNodeData::FamilySplitter => seq![
            ("ipv4"@, DataType { family: NFFamily::IPv4, direction: NFDirection::Either }),
            ("ipv6"@, DataType { family: NFFamily::IPv6, direction: NFDirection::Either }),
        ],
        NFNodeData::DestinationNAT(_) | NFNodeData::SourceNAT(_) => seq![(""@, any_type())],
        NFNodeData::Drop | NFNodeData::Accept => Seq::empty(),
        NFNodeData::Custom { plugin, id, .. } => match registered_node(plugins, plugin@, id@) {
            Some(declared) => declared_outputs(declared.outputs@),
            None => Seq::empty(),
        },
    }
}

/// Whether `after` is `before` with the given ports added to node `n`, the
/// input ports first, each after the ports that the node had. New output
/// ports are not connected; nothing else differs.
pub open(crate) spec fn ports_added(
    before: &Graph,
    after: &Graph,
    n: int,
    inputs: PortsView,
    outputs: PortsView,
) -> bool {
    let first_input = before.inputs@.len();
    let first_output = before.outputs@.len();
    let node = after.nodes@[n];
    let was = before.nodes@[n];
    &&& after.nodes@.len() == before.nodes@.len()
    &&& forall|m: int|
        0 <= m < before.nodes@.len() && m != n ==> (#[trigger] after.nodes@[m]) == before.nodes@[m]
    &&& node.id == was.id
    &&& node.label == was.label
    &&& node.user_data == was.user_data
    &&& after.inputs@.len() == first_input + inputs.len()
    &&& after.inputs@.take(first_input as int) == before.inputs@
    &&& forall|j: int|
        0 <= j < inputs.len() ==> (#[trigger] after.inputs@[first_input + j]) == (InputParam {
            id: InputId((first_input + j) as usize),
            typ: inputs[j].1,
            node: NodeId(n as usize),
        })
    &&& node.inputs@.len() == was.inputs@.len() + inputs.len()
    &&& node.inputs@.take(was.inputs@.len() as int) == was.inputs@
    &&& forall|j: int|
        0 <= j < inputs.len() ==> (#[trigger] node.inputs@[was.inputs@.len() + j]).0@ == inputs[j].0
            && node.inputs@[was.inputs@.len() + j].1 == InputId((first_input + j) as usize)
    &&& after.outputs@.len() == first_output + outputs.len()
    &&& after.outputs@.take(first_output as int) == before.outputs@
    &&& forall|j: int|
        0 <= j < outputs.len() ==> (#[trigger] after.outputs@[first_output + j]) == (OutputParam {
            id: OutputId((first_output + j) as usize),
            node: NodeId(n as usize),
            typ: outputs[j].1,
        })
    &&& node.outputs@.len() == was.outputs@.len() + outputs.len()
    &&& node.outputs@.take(was.outputs@.len() as int) == was.outputs@
    &&& forall|j: int|
        0 <= j < outputs.len() ==> (#[trigger] node.outputs@[was.outputs@.len() + j]).0@
            == outputs[j].0 && node.outputs@[was.outputs@.len() + j].1 == OutputId(
            (first_output + j) as usize,
        )
    &&& after.connections@.len() == first_output + outputs.len()
    &&& after.connections@.take(first_output as int) == before.connections@
    &&& forall|j: int| 0 <= j < outputs.len() ==> (#[trigger] after.connections@[first_output + j]) is None
}

/// Adds ports to a node: the input ports, then the output ports.
fn add_ports(
    graph: &mut Graph,
    node_id: NodeId,
    inputs: Vec<(String, DataType)>,
    outputs: Vec<(String, DataType)>,
)
    requires
        old(graph).wf(),
        old(graph).has_node(node_id),
    ensures
        final(graph).wf(),
        ports_added(
            old(graph),
            final(graph),
            node_id.0 as int,
            ports_view(inputs@),
            ports_view(outputs@),
        ),
{
    let ghost before = *graph;
    let ghost n = node_id.0 as int;
    let mut i: usize = 0;
    assert(graph.inputs@.take(before.inputs@.len() as int) =~= before.inputs@);
    assert(graph.outputs@.take(before.outputs@.len() as int) =~= before.outputs@);
    assert(graph.connections@.take(before.outputs@.len() as int) =~= before.connections@);
    assert(graph.nodes@[n].inputs@.take(before.nodes@[n].inputs@.len() as int)
        =~= before.nodes@[n].inputs@);
    assert(graph.nodes@[n].outputs@.take(before.nodes@[n].outputs@.len() as int)
        =~= before.nodes@[n].outputs@);
    while i < inputs.len()
        invariant
            i <= inputs.len(),
            before.wf(),
            graph.wf(),
            n == node_id.0,
            before.has_node(node_id),
            ports_added(
                &before,
                graph,
                n,
                ports_view(inputs@).take(i as int),
                Seq::<(Seq<char>, DataType)>::empty(),
            ),
        decreases inputs.len() - i,
    {
        let ghost now = *graph;
        let name = inputs[i].0.clone();
        graph.add_input_param(node_id, name, inputs[i].1);
        proof {
            let seen = ports_view(inputs@).take(i as int);
            let next = ports_view(inputs@).take(i + 1);
            assert(next.len() == i + 1);
            assert(forall|j: int| 0 <= j < i ==> next[j] == seen[j]);
            assert(next[i as int] == (inputs@[i as int].0@, inputs@[i as int].1));
            assert(graph.inputs@.take(before.inputs@.len() as int) =~= now.inputs@.take(
                before.inputs@.len() as int,
            ));
            assert(graph.nodes@[n].inputs@.take(before.nodes@[n].inputs@.len() as int)
                =~= now.nodes@[n].inputs@.take(before.nodes@[n].inputs@.len() as int));
            assert forall|m: int| 0 <= m < before.nodes@.len() && m != n implies (
            #[trigger] graph.nodes@[m]) == before.nodes@[m] by {
                assert(graph.node_seq()[m] == now.node_seq()[m]);
                assert(now.nodes@[m] == before.nodes@[m]);
            }
            assert forall|j: int| 0 <= j < next.len() implies (#[trigger] graph.inputs@[before.inputs@.len()
                + j]) == (InputParam {
                id: InputId((before.inputs@.len() + j) as usize),
                typ: next[j].1,
                node: NodeId(n as usize),
            }) by {
                if j < i {
                    assert(graph.inputs@[before.inputs@.len() + j] == now.inputs@[before.inputs@.len()
                        + j]);
                }
            }
            assert forall|j: int| 0 <= j < next.len() implies (
            #[trigger] graph.nodes@[n].inputs@[before.nodes@[n].inputs@.len() + j]).0@ == next[j].0
                && graph.nodes@[n].inputs@[before.nodes@[n].inputs@.len() + j].1 == InputId(
                (before.inputs@.len() + j) as usize,
            ) by {
                if j < i {
                    assert(graph.nodes@[n].inputs@[before.nodes@[n].inputs@.len() + j]
                        == now.nodes@[n].inputs@[before.nodes@[n].inputs@.len() + j]);
                }
            }
        }
        i += 1;
    }
    assert(ports_view(inputs@).take(inputs@.len() as int) =~= ports_view(inputs@));
    let ghost middle = *graph;
    let mut k: usize = 0;
    while k < outputs.len()
        invariant
            k <= outputs.len(),
            before.wf(),
            graph.wf(),
            n == node_id.0,
            before.has_node(node_id),
            ports_added(
                &before,
                graph,
                n,
                ports_view(inputs@),
                ports_view(outputs@).take(k as int),
            ),
        decreases outputs.len() - k,
    {
        let ghost now = *graph;
        let name = outputs[k].0.clone();
        graph.add_output_param(node_id, name, outputs[k].1);
        proof {
            let seen = ports_view(outputs@).take(k as int);
            let next = ports_view(outputs@).take(k + 1);
            let ins = ports_view(inputs@);
            assert(next.len() == k + 1);
            assert(forall|j: int| 0 <= j < k ==> next[j] == seen[j]);
            assert(next[k as int] == (outputs@[k as int].0@, outputs@[k as int].1));
            assert(graph.outputs@.take(before.outputs@.len() as int) =~= now.outputs@.take(
                before.outputs@.len() as int,
            ));
            assert(graph.connections@.take(before.outputs@.len() as int)
                =~= now.connections@.take(before.outputs@.len() as int));
            assert(graph.nodes@[n].outputs@.take(before.nodes@[n].outputs@.len() as int)
                =~= now.nodes@[n].outputs@.take(before.nodes@[n].outputs@.len() as int));
            assert forall|m: int| 0 <= m < before.nodes@.len() && m != n implies (
            #[trigger] graph.nodes@[m]) == before.nodes@[m] by {
                assert(graph.node_seq()[m] == now.node_seq()[m]);
                assert(now.nodes@[m] == before.nodes@[m]);
            }
            assert forall|j: int| 0 <= j < ins.len() implies (
            #[trigger] graph.nodes@[n].inputs@[before.nodes@[n].inputs@.len() + j]).0@ == ins[j].0
                && graph.nodes@[n].inputs@[before.nodes@[n].inputs@.len() + j].1 == InputId(
                (before.inputs@.len() + j) as usize,
            ) by {
                assert(graph.nodes@[n].inputs@[before.nodes@[n].inputs@.len() + j]
                    == now.nodes@[n].inputs@[before.nodes@[n].inputs@.len() + j]);
            }
            assert forall|j: int| 0 <= j < next.len() implies (
            #[trigger] graph.outputs@[before.outputs@.len() + j]) == (OutputParam {
                id: OutputId((before.outputs@.len() + j) as usize),
                node: NodeId(n as usize),
                typ: next[j].1,
            }) by {
                if j < k {
                    assert(graph.outputs@[before.outputs@.len() + j]
                        == now.outputs@[before.outputs@.len() + j]);
                }
            }
            assert forall|j: int| 0 <= j < next.len() implies (
            #[trigger] graph.nodes@[n].outputs@[before.nodes@[n].outputs@.len() + j]).0@
                == next[j].0 && graph.nodes@[n].outputs@[before.nodes@[n].outputs@.len() + j].1
                == OutputId((before.outputs@.len() + j) as usize) by {
                if j < k {
                    assert(graph.nodes@[n].outputs@[before.nodes@[n].outputs@.len() + j]
                        == now.nodes@[n].outputs@[before.nodes@[n].outputs@.len() + j]);
                }
            }
            assert forall|j: int| 0 <= j < next.len() implies (
            #[trigger] graph.connections@[before.outputs@.len() + j]) is None by {
                if j < k {
                    assert(graph.connections@[before.outputs@.len() + j]
                        == now.connections@[before.outputs@.len() + j]);
                }
            }
        }
        k += 1;
    }
    assert(ports_view(outputs@).take(outputs@.len() as int) =~= ports_view(outputs@));
}

/// A template port.
fn port(name: &str, family: NFFamily, direction: NFDirection) -> (made: (String, DataType))
    ensures
        made.0@ == name@,
        made.1 == (DataType { family, direction }),
{
    (name.to_string(), DataType::new(family, direction))
}

impl NFNodeData {
    /// The name under which the kind is offered and shown on a node: the
    /// display name that the extension declares for an extension kind, the
    /// fixed name of a built-in kind. An extension kind must be registered.
    pub fn node_finder_label(&self, user_state: &NFGraphState) -> (text: String)
        requires
            self matches NFNodeData::Custom { plugin, id, .. } ==> registered_node(
                user_state.plugins@,
                plugin@,
                id@,
            ) is Some,
        ensures
            text@ == match *self {
                NFNodeData::Custom { plugin, id, .. } => registered_node(
                    user_state.plugins@,
                    plugin@,
                    id@,
                )->0.display_name@,
                _ => self.label_spec()->0,
            },
    {
        match self {
            NFNodeData::Custom { plugin, id, .. } => {
                match user_state.find_node(plugin.as_str(), id.as_str()) {
                    Some(declared) => declared.display_name.clone(),
                    None => unreached(),
                }
            },
            _ => match self.label() {
                Some(text) => text,
                None => unreached(),
            },
        }
    }

    /// The name shown on a node of this kind.
    pub fn node_graph_label(&self, user_state: &NFGraphState) -> (text: String)
        requires
            self matches NFNodeData::Custom { plugin, id, .. } ==> registered_node(
                user_state.plugins@,
                plugin@,
                id@,
            ) is Some,
        ensures
            text@ == match *self {
                NFNodeData::Custom { plugin, id, .. } => registered_node(
                    user_state.plugins@,
                    plugin@,
                    id@,
                )->0.display_name@,
                _ => self.label_spec()->0,
            },
    {
        self.node_finder_label(user_state)
    }

    /// The configuration that a node made from this template starts with.
    pub fn user_data(&self) -> (data: Self)
        ensures
            data.same(self),
    {
        self.clone()
    }

    /// Gives a new node of this kind its ports. An extension kind must be
    /// registered.
    pub fn build_node(&self, graph: &mut Graph, user_state: &NFGraphState, node_id: NodeId)
        requires
            old(graph).wf(),
            old(graph).has_node(node_id),
            self matches NFNodeData::Custom { plugin, id, .. } ==> registered_node(
                user_state.plugins@,
                plugin@,
                id@,
            ) is Some,
        ensures
            final(graph).wf(),
            ports_added(
                old(graph),
                final(graph),
                node_id.0 as int,
                input_ports(*self, user_state.plugins@),
                output_ports(*self, user_state.plugins@),
            ),
    {
        if let NFNodeData::Custom { plugin, id, .. } = self {
            NFNodeData::build_custom_node(graph, user_state, node_id, plugin.as_str(), id.as_str());
            return ;
        }
        let mut inputs: Vec<(String, DataType)> = Vec::new();
        let mut outputs: Vec<(String, DataType)> = Vec::new();
        match self {
            NFNodeData::FileIpList(_)
            | NFNodeData::SourceAddressFilter(_)
            | NFNodeData::DestinationAddressFilter(_)
            | NFNodeData::SourcePortFilter(_)
            | NFNodeData::DestinationPortFilter(_)
            | NFNodeData::ProtocolFilter(_)
            | NFNodeData::FamilySplitter
            | NFNodeData::Drop
            | NFNodeData::InterfaceFilter(_)
            | NFNodeData::SourceNAT(_)
            | NFNodeData::DestinationNAT(_) => {
                inputs.push(port("", NFFamily::Inet, NFDirection::Either));
            },
            NFNodeData::Accept => {
                inputs.push(port("outgoing", NFFamily::Inet, NFDirection::Outgoing));
            },
            NFNodeData::Localhost => {
                inputs.push(port("incoming", NFFamily::Inet, NFDirection::Incoming));
            },
            NFNodeData::Source => {},
            NFNodeData::Custom { .. } => {},
        }
        match self {
            NFNodeData::Source => {
                outputs.push(port("incoming", NFFamily::Inet, NFDirection::Incoming));
            },
            NFNodeData::FileIpList(_)
            | NFNodeData::SourceAddressFilter(_)
            | NFNodeData::DestinationAddressFilter(_)
            | NFNodeData::SourcePortFilter(_)
            | NFNodeData::DestinationPortFilter(_)
            | NFNodeData::InterfaceFilter(_)
            | NFNodeData::ProtocolFilter(_) => {
                outputs.push(port("match", NFFamily::Inet, NFDirection::Either));
                outputs.push(port("non-match", NFFamily::Inet, NFDirection::Either));
            },
            NFNodeData::Localhost => {
                outputs.push(port("outgoing", NFFamily::Inet, NFDirection::Outgoing));
            },
            NFNodeData::FamilySplitter => {
                outputs.push(port("ipv4", NFFamily::IPv4, NFDirection::Either));
                outputs.push(port("ipv6", NFFamily::IPv6, NFDirection::Either));
            },
            NFNodeData::DestinationNAT(_) | NFNodeData::SourceNAT(_) => {
                outputs.push(port("", NFFamily::Inet, NFDirection::Either));
            },
            NFNodeData::Drop => {},
            NFNodeData::Accept => {},
            NFNodeData::Custom { .. } => {},
        }
        assert(ports_view(inputs@) =~= input_ports(*self, user_state.plugins@));
        assert(ports_view(outputs@) =~= output_ports(*self, user_state.plugins@));
        add_ports(graph, node_id, inputs, outputs);
    }

    /// Gives a new node of the extension kind `id` of `plugin` its ports: one
    /// unnamed input port of the declared type, and the declared output
    /// ports in their order. The kind must be registered.
    pub fn build_custom_node(
        graph: &mut Graph,
        user_state: &NFGraphState,
        node_id: NodeId,
        plugin: &str,
        id: &str,
    )
        requires
            old(graph).wf(),
            old(graph).has_node(node_id),
            registered_node(user_state.plugins@, plugin@, id@) is Some,
        ensures
            final(graph).wf(),
            ports_added(
                old(graph),
                final(graph),
                node_id.0 as int,
                seq![
                    (
                        ""@,
                        DataType {
                            family: registered_node(user_state.plugins@, plugin@, id@)->0.input.family,
                            direction: registered_node(
                                user_state.plugins@,
                                plugin@,
                                id@,
                            )->0.input.direction,
                        },
                    ),
                ],
                declared_outputs(registered_node(user_state.plugins@, plugin@, id@)->0.outputs@),
            ),
    {
        let declared = match user_state.find_node(plugin, id) {
            Some(declared) => declared,
            None => unreached(),
        };
        let mut inputs: Vec<(String, DataType)> = Vec::new();
        inputs.push(port("", declared.input.family, declared.input.direction));
        let mut outputs: Vec<(String, DataType)> = Vec::new();
        let mut i: usize = 0;
        while i < declared.outputs.len()
            invariant
                i <= declared.outputs.len(),
                outputs@.len() == i,
                forall|j: int|
                    0 <= j < i ==> (#[trigger] outputs@[j]).0@ == declared.outputs@[j].0@
                        && outputs@[j].1 == (DataType {
                        family: declared.outputs@[j].1.family,
                        direction: declared.outputs@[j].1.direction,
                    }),
            decreases declared.outputs.len() - i,
        {
            outputs.push(
                port(
                    declared.outputs[i].0.as_str(),
                    declared.outputs[i].1.family,
                    declared.outputs[i].1.direction,
                ),
            );
            i += 1;
        }
        assert(ports_view(outputs@) =~= declared_outputs(declared.outputs@));
        assert(ports_view(inputs@) =~= seq![
            (""@, DataType { family: declared.input.family, direction: declared.input.direction }),
        ]);
        add_ports(graph, node_id, inputs, outputs);
    }
}

/// A new graph: the source, then the local machine, each with its ports and
/// nothing connected.
pub fn new_graph() -> (made: (Graph, NodeId, NodeId))
    ensures
        made.0.wf(),
        made.1 == NodeId(0),
        made.2 == NodeId(1),
        made.0.node_seq().len() == 2,
        made.0.node_seq()[0].user_data is Source,
        made.0.node_seq()[0].label@ == "Incoming Source"@,
        made.0.node_seq()[1].user_data is Localhost,
        made.0.node_seq()[1].label@ == "Local Machine"@,
        made.0.node_seq()[0].inputs@.len() == 0,
        made.0.node_seq()[0].outputs@.len() == 1,
        made.0.node_seq()[0].outputs@[0].0@ == "incoming"@,
        made.0.node_seq()[0].outputs@[0].1 == OutputId(0),
        made.0.node_seq()[1].inputs@.len() == 1,
        made.0.node_seq()[1].inputs@[0].0@ == "incoming"@,
        made.0.node_seq()[1].inputs@[0].1 == InputId(0),
        made.0.node_seq()[1].outputs@.len() == 1,
        made.0.node_seq()[1].outputs@[0].0@ == "outgoing"@,
        made.0.node_seq()[1].outputs@[0].1 == OutputId(1),
        made.0.input_seq() == seq![
            InputParam {
                id: InputId(0),
                typ: DataType { family: NFFamily::Inet, direction: NFDirection::Incoming },
                node: NodeId(1),
            },
        ],
        made.0.output_seq() == seq![
            OutputParam {
                id: OutputId(0),
                node: NodeId(0),
                typ: DataType { family: NFFamily::Inet, direction: NFDirection::Incoming },
            },
            OutputParam {
                id: OutputId(1),
                node: NodeId(1),
                typ: DataType { family: NFFamily::Inet, direction: NFDirection::Outgoing },
            },
        ],
        made.0.connection_seq() == seq![None::<InputId>, None::<InputId>],
{
    let user_state = NFGraphState::default();
    let mut graph = Graph::new();
    let source = graph.add_node("Incoming Source".to_string(), NFNodeData::Source);
    let ghost first = graph;
    NFNodeData::Source.build_node(&mut graph, &user_state, source);
    let ghost second = graph;
    let localhost = graph.add_node("Local Machine".to_string(), NFNodeData::Localhost);
    let ghost third = graph;
    NFNodeData::Localhost.build_node(&mut graph, &user_state, localhost);
    proof {
        assert(first.connection_seq().len() == 0);
        assert(third.node_seq().take(1)[0] == second.node_seq()[0]);
        assert(graph.node_seq()[0] == third.node_seq()[0]);
        assert(second.output_seq()[first.output_seq().len() + 0int].id == OutputId(0));
        assert(second.node_seq()[0].outputs@[first.node_seq()[0].outputs@.len() + 0int].0@
            == "incoming"@);
        assert(second.connection_seq()[first.output_seq().len() + 0int] is None);
        assert(graph.output_seq().take(1)[0] == third.output_seq()[0]);
        assert(graph.connection_seq().take(1)[0] == third.connection_seq()[0]);
        assert(graph.output_seq()[third.output_seq().len() + 0int].id == OutputId(1));
        assert(graph.input_seq()[third.input_seq().len() + 0int].id == InputId(0));
        assert(graph.connection_seq()[third.output_seq().len() + 0int] is None);
        assert(graph.node_seq()[1].inputs@[third.node_seq()[1].inputs@.len() + 0int].0@
            == "incoming"@);
        assert(graph.node_seq()[1].outputs@[third.node_seq()[1].outputs@.len() + 0int].0@
            == "outgoing"@);
        assert(graph.input_seq() =~= seq![
            InputParam {
                id: InputId(0),
                typ: DataType { family: NFFamily::Inet, direction: NFDirection::Incoming },
                node: NodeId(1),
            },
        ]);
        assert(graph.output_seq() =~= seq![
            OutputParam {
                id: OutputId(0),
                node: NodeId(0),
                typ: DataType { family: NFFamily::Inet, direction: NFDirection::Incoming },
            },
            OutputParam {
                id: OutputId(1),
                node: NodeId(1),
                typ: DataType { family: NFFamily::Inet, direction: NFDirection::Outgoing },
            },
        ]);
        assert(graph.connection_seq() =~= seq![None::<InputId>, None::<InputId>]);
    }
    (graph, source, localhost)
}

} // verus!
