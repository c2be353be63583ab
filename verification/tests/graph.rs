use netgraph::data_type::NFDirection;
use netgraph::graph::Graph;
use netgraph::graph_state::NFGraphState;
use netgraph::id_type::{InputId, NodeId, OutputId};
use netgraph::node_data::NFNodeData;
use netgraph::node_template::new_graph;

fn add(graph: &mut Graph, kind: NFNodeData) -> NodeId {
    let state = NFGraphState::default();
    let id = graph.add_node(kind.node_graph_label(&state), kind.user_data());
    kind.build_node(graph, &state, id);
    id
}

fn out(graph: &Graph, node: NodeId, k: usize) -> OutputId {
    graph.get_node(node).unwrap().outputs[k].1
}

fn inp(graph: &Graph, node: NodeId, k: usize) -> InputId {
    graph.get_node(node).unwrap().inputs[k].1
}

fn filter(graph: &mut Graph) -> NodeId {
    add(graph, NFNodeData::SourceAddressFilter("10.0.0.1".to_string()))
}

fn directions(graph: &Graph) -> (Vec<NFDirection>, Vec<NFDirection>) {
    let mut inputs = Vec::new();
    let mut i = 0;
    while let Some(port) = graph.get_input(InputId(i)) {
        inputs.push(port.typ.direction);
        i += 1;
    }
    let mut outputs = Vec::new();
    let mut o = 0;
    while let Some(port) = graph.get_output(OutputId(o)) {
        outputs.push(port.typ.direction);
        o += 1;
    }
    (inputs, outputs)
}

#[test]
fn a_new_graph_holds_the_source_and_the_local_machine() {
    let (graph, source, localhost) = new_graph();
    assert_eq!(graph.node_count(), 2);
    assert_eq!(source, NodeId(0));
    assert_eq!(localhost, NodeId(1));
    assert!(matches!(graph.get_node(source).unwrap().user_data, NFNodeData::Source));
    assert!(matches!(graph.get_node(localhost).unwrap().user_data, NFNodeData::Localhost));
    assert_eq!(graph.get_node(source).unwrap().label, "Incoming Source");
    assert_eq!(graph.get_node(localhost).unwrap().label, "Local Machine");
    assert_eq!(graph.get_node(source).unwrap().inputs.len(), 0);
    assert_eq!(graph.get_node(source).unwrap().outputs.len(), 1);
    assert_eq!(graph.get_node(source).unwrap().outputs[0].0, "incoming");
    assert_eq!(graph.get_node(localhost).unwrap().inputs[0].0, "incoming");
    assert_eq!(graph.get_node(localhost).unwrap().outputs[0].0, "outgoing");
    assert_eq!(graph.connection(out(&graph, source, 0)), None);
    assert_eq!(graph.connection(out(&graph, localhost, 0)), None);
    assert!(graph.get_node(NodeId(2)).is_none());
    assert!(graph.get_input(InputId(1)).is_none());
    assert!(graph.get_output(OutputId(2)).is_none());
    assert_eq!(graph.get_output(OutputId(1)).unwrap().node, localhost);
    assert_eq!(graph.get_input(InputId(0)).unwrap().node, localhost);
}

#[test]
fn a_connection_that_closes_a_cycle_is_rejected_and_absent() {
    let mut graph = Graph::new();
    let a = filter(&mut graph);
    let b = filter(&mut graph);
    let c = filter(&mut graph);
    assert!(graph.connect(out(&graph, a, 0), inp(&graph, b, 0)));
    assert!(graph.connect(out(&graph, b, 0), inp(&graph, c, 0)));
    assert_eq!(graph.connection(out(&graph, a, 0)), Some(inp(&graph, b, 0)));
    assert!(graph.would_cycle(out(&graph, c, 0), inp(&graph, a, 0)));
    assert!(graph.would_cycle(out(&graph, c, 1), inp(&graph, b, 0)));
    assert!(!graph.would_cycle(out(&graph, a, 1), inp(&graph, c, 0)));
    assert!(!graph.connect(out(&graph, c, 0), inp(&graph, a, 0)));
    assert_eq!(graph.connection(out(&graph, c, 0)), None);
    assert_eq!(graph.connection(out(&graph, a, 0)), Some(inp(&graph, b, 0)));
    assert_eq!(graph.connection(out(&graph, b, 0)), Some(inp(&graph, c, 0)));
    assert!(graph.connect(out(&graph, a, 1), inp(&graph, c, 0)));
    assert_eq!(graph.connection(out(&graph, a, 1)), Some(inp(&graph, c, 0)));
}

#[test]
fn a_node_cannot_feed_itself() {
    let mut graph = Graph::new();
    let a = filter(&mut graph);
    assert!(graph.would_cycle(out(&graph, a, 0), inp(&graph, a, 0)));
    assert!(!graph.connect(out(&graph, a, 0), inp(&graph, a, 0)));
    assert_eq!(graph.connection(out(&graph, a, 0)), None);
}

#[test]
fn a_rejected_connection_leaves_the_output_unconnected() {
    let mut graph = Graph::new();
    let a = filter(&mut graph);
    let b = filter(&mut graph);
    assert!(graph.connect(out(&graph, a, 0), inp(&graph, b, 0)));
    assert!(!graph.connect(out(&graph, a, 0), inp(&graph, a, 0)));
    assert_eq!(graph.connection(out(&graph, a, 0)), None);
}

#[test]
fn an_accepted_connection_replaces_the_earlier_one() {
    let mut graph = Graph::new();
    let a = filter(&mut graph);
    let b = filter(&mut graph);
    let c = filter(&mut graph);
    assert!(graph.connect(out(&graph, a, 0), inp(&graph, b, 0)));
    assert!(graph.connect(out(&graph, a, 0), inp(&graph, c, 0)));
    assert_eq!(graph.connection(out(&graph, a, 0)), Some(inp(&graph, c, 0)));
    assert_eq!(graph.remove_connection(out(&graph, a, 0)), Some(inp(&graph, c, 0)));
    assert_eq!(graph.connection(out(&graph, a, 0)), None);
    assert_eq!(graph.remove_connection(out(&graph, a, 0)), None);
    assert_eq!(graph.remove_connection(OutputId(99)), None);
}

#[test]
fn handles_of_no_port_connect_nothing() {
    let mut graph = Graph::new();
    let a = filter(&mut graph);
    assert!(!graph.would_cycle(OutputId(99), inp(&graph, a, 0)));
    assert!(!graph.would_cycle(out(&graph, a, 0), InputId(99)));
    assert!(!graph.connect(OutputId(99), inp(&graph, a, 0)));
    assert!(!graph.connect(out(&graph, a, 0), InputId(99)));
    assert_eq!(graph.connection(out(&graph, a, 0)), None);
    assert_eq!(graph.connection(OutputId(99)), None);
    assert_eq!(graph.propagate_data_types(InputId(99), out(&graph, a, 0)), None);
    assert_eq!(graph.propagate_data_types(inp(&graph, a, 0), OutputId(99)), None);
    assert_eq!(graph.propagate_data_types(inp(&graph, a, 0), out(&graph, a, 0)), Some(()));
}

#[test]
fn fan_in_is_allowed() {
    let mut graph = Graph::new();
    let a = filter(&mut graph);
    let b = filter(&mut graph);
    assert!(graph.connect(out(&graph, a, 0), inp(&graph, b, 0)));
    assert!(graph.connect(out(&graph, a, 1), inp(&graph, b, 0)));
    assert_eq!(graph.get_sending_nodes(inp(&graph, b, 0)), vec![a, a]);
    assert_eq!(graph.get_connected_sender_nodes(b), vec![a, a]);
    assert_eq!(graph.get_connected_receiver_nodes(a), vec![b, b]);
    assert_eq!(graph.get_connected_receiver_nodes(b), Vec::<NodeId>::new());
    assert_eq!(graph.get_connected_sender_nodes(a), Vec::<NodeId>::new());
    assert_eq!(graph.get_receiving_node(out(&graph, a, 0)), Some(b));
    assert_eq!(graph.get_receiving_node(out(&graph, b, 0)), None);
    assert_eq!(graph.get_receiving_node(OutputId(99)), None);
    assert_eq!(graph.get_connected_receiver_nodes(NodeId(99)), Vec::<NodeId>::new());
    assert_eq!(graph.get_connected_sender_nodes(NodeId(99)), Vec::<NodeId>::new());
}

#[test]
fn a_direction_flows_through_wildcard_ports() {
    let (mut graph, source, _localhost) = new_graph();
    let first = filter(&mut graph);
    let second = filter(&mut graph);
    assert!(graph.connect(out(&graph, first, 0), inp(&graph, second, 0)));
    assert_eq!(graph.get_input(inp(&graph, second, 0)).unwrap().typ.direction, NFDirection::Either);
    assert_eq!(graph.get_output(out(&graph, first, 0)).unwrap().typ.direction, NFDirection::Either);
    assert!(graph.connect(out(&graph, source, 0), inp(&graph, first, 0)));
    for node in [first, second] {
        assert_eq!(graph.get_input(inp(&graph, node, 0)).unwrap().typ.direction, NFDirection::Incoming);
        assert_eq!(graph.get_output(out(&graph, node, 0)).unwrap().typ.direction, NFDirection::Incoming);
        assert_eq!(graph.get_output(out(&graph, node, 1)).unwrap().typ.direction, NFDirection::Incoming);
    }
}

#[test]
fn a_direction_stops_at_a_port_with_a_direction_of_its_own() {
    let (mut graph, source, localhost) = new_graph();
    let first = filter(&mut graph);
    let accept = add(&mut graph, NFNodeData::Accept);
    assert!(graph.connect(out(&graph, source, 0), inp(&graph, first, 0)));
    assert!(graph.connect(out(&graph, first, 0), inp(&graph, accept, 0)));
    assert_eq!(graph.get_input(inp(&graph, accept, 0)).unwrap().typ.direction, NFDirection::Outgoing);
    let second = filter(&mut graph);
    assert!(graph.connect(out(&graph, localhost, 0), inp(&graph, second, 0)));
    assert_eq!(graph.get_input(inp(&graph, second, 0)).unwrap().typ.direction, NFDirection::Outgoing);
    assert_eq!(graph.get_output(out(&graph, second, 1)).unwrap().typ.direction, NFDirection::Outgoing);
    assert!(graph.connect(out(&graph, first, 1), inp(&graph, second, 0)));
    assert_eq!(graph.get_input(inp(&graph, second, 0)).unwrap().typ.direction, NFDirection::Outgoing);
}

#[test]
fn inferring_directions_twice_is_inferring_once() {
    let (mut graph, source, _localhost) = new_graph();
    let first = filter(&mut graph);
    let second = filter(&mut graph);
    let third = add(&mut graph, NFNodeData::FamilySplitter);
    assert!(graph.connect(out(&graph, first, 0), inp(&graph, second, 0)));
    assert!(graph.connect(out(&graph, first, 1), inp(&graph, third, 0)));
    assert!(graph.connect(out(&graph, source, 0), inp(&graph, first, 0)));
    let once = directions(&graph);
    assert_eq!(once.0, vec![NFDirection::Incoming; 4]);
    assert_eq!(once.1[0], NFDirection::Incoming);
    assert_eq!(once.1[1], NFDirection::Outgoing);
    assert_eq!(once.1[2..].to_vec(), vec![NFDirection::Incoming; 6]);
    assert_eq!(graph.propagate_data_types(inp(&graph, first, 0), out(&graph, source, 0)), Some(()));
    assert_eq!(directions(&graph), once);
    assert_eq!(graph.propagate_data_types(inp(&graph, second, 0), out(&graph, first, 0)), Some(()));
    assert_eq!(directions(&graph), once);
}

#[test]
fn a_wildcard_output_gives_no_direction() {
    let mut graph = Graph::new();
    let first = filter(&mut graph);
    let second = filter(&mut graph);
    let before = directions(&graph);
    assert!(graph.connect(out(&graph, first, 0), inp(&graph, second, 0)));
    assert_eq!(directions(&graph), before);
    graph.propagate_to_node(inp(&graph, second, 0), NFDirection::Outgoing);
    assert_eq!(graph.get_input(inp(&graph, second, 0)).unwrap().typ.direction, NFDirection::Outgoing);
    assert_eq!(graph.get_output(out(&graph, second, 0)).unwrap().typ.direction, NFDirection::Outgoing);
    assert_eq!(graph.get_input(inp(&graph, first, 0)).unwrap().typ.direction, NFDirection::Either);
}

#[test]
fn the_configuration_of_a_node_can_be_replaced() {
    let mut graph = Graph::new();
    let a = filter(&mut graph);
    let b = filter(&mut graph);
    assert!(graph.connect(out(&graph, a, 0), inp(&graph, b, 0)));
    assert!(graph.set_user_data(a, NFNodeData::SourceAddressFilter("10.9.9.9".to_string())));
    assert!(matches!(
        &graph.get_node(a).unwrap().user_data,
        NFNodeData::SourceAddressFilter(v) if v == "10.9.9.9"
    ));
    assert!(matches!(
        &graph.get_node(b).unwrap().user_data,
        NFNodeData::SourceAddressFilter(v) if v == "10.0.0.1"
    ));
    assert_eq!(graph.get_node(a).unwrap().outputs.len(), 2);
    assert_eq!(graph.connection(out(&graph, a, 0)), Some(inp(&graph, b, 0)));
    assert!(!graph.set_user_data(NodeId(9), NFNodeData::Drop));
}

#[test]
fn the_wildcard_does_not_flow() {
    let (mut graph, source, _localhost) = new_graph();
    let first = filter(&mut graph);
    assert!(graph.connect(out(&graph, source, 0), inp(&graph, first, 0)));
    let before = directions(&graph);
    graph.propagate_to_node(inp(&graph, first, 0), NFDirection::Either);
    assert_eq!(directions(&graph), before);
    graph.propagate_to_node(InputId(99), NFDirection::Outgoing);
    assert_eq!(directions(&graph), before);
}
