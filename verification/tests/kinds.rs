use netgraph::data_type::{DataType, NFDirection, NFFamily};
use netgraph::error::Error;
use netgraph::graph::Graph;
use netgraph::graph_state::NFGraphState;
use netgraph::id_type::{AnyParameterId, InputId, NodeId, OutputId};
use netgraph::node_data::{NFNodeData, Profile};
use netgraph::node_template_iter::NodeTemplateIter;
use netgraph::plugin::{
    import_plan, plugin_directory, script_in, script_path, NFInput, NFNode, NFOutput, Plugin,
};
use netgraph::predicate::Params;
use netgraph::value_type::ValueType;

#[test]
fn test_nf_node() {
    let a = Plugin {
        id: "test_plugin".to_string(),
        nf: vec![(
            "test".to_string(),
            NFNode {
                display_name: "test_node".to_string(),
                params: Params::new()
                    .with("param1".to_string(), "Parameter A".to_string())
                    .with("param2".to_string(), "Parameter B".to_string()),
                input: NFInput { family: NFFamily::Inet, direction: NFDirection::Either },
                outputs: vec![
                    (
                        "output1".to_string(),
                        NFOutput { family: NFFamily::Inet, direction: NFDirection::Either },
                    ),
                    (
                        "output2".to_string(),
                        NFOutput { family: NFFamily::Inet, direction: NFDirection::Either },
                    ),
                ],
            },
        )],
    };
    let mut nodes = serde_json::Map::new();
    for (id, node) in &a.nf {
        let mut params = serde_json::Map::new();
        for i in 0..node.params.len() {
            params.insert(
                node.params.key_at(i).clone(),
                serde_json::Value::String(node.params.value_at(i).clone()),
            );
        }
        let mut outputs = serde_json::Map::new();
        for (name, output) in &node.outputs {
            let mut typ = serde_json::Map::new();
            typ.insert("family".to_string(), serde_json::Value::String(format!("{:?}", output.family)));
            typ.insert(
                "direction".to_string(),
                serde_json::Value::String(format!("{:?}", output.direction)),
            );
            outputs.insert(name.clone(), serde_json::Value::Object(typ));
        }
        let mut input = serde_json::Map::new();
        input.insert("family".to_string(), serde_json::Value::String(format!("{:?}", node.input.family)));
        input.insert(
            "direction".to_string(),
            serde_json::Value::String(format!("{:?}", node.input.direction)),
        );
        let mut made = serde_json::Map::new();
        made.insert("display_name".to_string(), serde_json::Value::String(node.label()));
        made.insert("params".to_string(), serde_json::Value::Object(params));
        made.insert("input".to_string(), serde_json::Value::Object(input));
        made.insert("outputs".to_string(), serde_json::Value::Object(outputs));
        nodes.insert(id.clone(), serde_json::Value::Object(made));
    }
    let mut whole = serde_json::Map::new();
    whole.insert("id".to_string(), serde_json::Value::String(a.id.clone()));
    whole.insert("nf".to_string(), serde_json::Value::Object(nodes));
    let a = serde_json::to_string_pretty(&serde_json::Value::Object(whole)).unwrap();
    println!("{a}");
    assert!(a.contains("\"test_plugin\""));
    assert!(a.contains("\"Parameter B\""));
    assert!(a.contains("\"output2\""));
}

#[test]
fn port_types_match_through_wildcards() {
    let any = DataType::new(NFFamily::Inet, NFDirection::Either);
    let v4_in = DataType::new(NFFamily::IPv4, NFDirection::Incoming);
    let v4_out = DataType::new(NFFamily::IPv4, NFDirection::Outgoing);
    let v6_in = DataType::new(NFFamily::IPv6, NFDirection::Incoming);
    let inet_in = DataType::new(NFFamily::Inet, NFDirection::Incoming);
    let v4_any = DataType::new(NFFamily::IPv4, NFDirection::Either);
    assert!(any == v4_in);
    assert!(v4_in == any);
    assert!(v4_in == v4_in);
    assert!(v4_in != v4_out);
    assert!(v4_in != v6_in);
    assert!(inet_in == v6_in);
    assert!(inet_in != v4_out);
    assert!(v4_any == v4_out);
    assert!(v4_any != v6_in);
    assert_eq!(any.family, NFFamily::Inet);
    assert_eq!(v4_out.direction, NFDirection::Outgoing);
    assert_eq!(NFFamily::default(), NFFamily::Inet);
    assert_eq!(NFDirection::default(), NFDirection::Either);
    assert_eq!(NFInput::default().family, NFFamily::Inet);
    assert_eq!(NFOutput::default().direction, NFDirection::Either);
    assert_eq!(ValueType::default(), ValueType);
}

#[test]
fn port_types_have_names() {
    assert_eq!(DataType::new(NFFamily::Inet, NFDirection::Either).name(), "inet");
    assert_eq!(DataType::new(NFFamily::IPv4, NFDirection::Incoming).name(), "Incoming ipv4");
    assert_eq!(DataType::new(NFFamily::IPv6, NFDirection::Outgoing).name(), "Outgoing ipv6");
}

#[test]
fn port_handles_know_their_side() {
    let input = AnyParameterId::from(InputId(3));
    let output = AnyParameterId::from(OutputId(4));
    assert_eq!(input, AnyParameterId::Input(InputId(3)));
    assert_eq!(output, AnyParameterId::Output(OutputId(4)));
    assert_eq!(input.assume_input(), InputId(3));
    assert_eq!(output.assume_output(), OutputId(4));
}

fn custom(plugin: &str, id: &str) -> NFNodeData {
    NFNodeData::Custom { plugin: plugin.to_string(), id: id.to_string(), data: Params::new() }
}

#[test]
fn kinds_have_identifiers() {
    let text = || "x".to_string();
    assert_eq!(NFNodeData::Source.get_id(), "core:source");
    assert_eq!(NFNodeData::FileIpList(None).get_id(), "core:file_ip_list");
    assert_eq!(NFNodeData::SourceAddressFilter(text()).get_id(), "core:source_address_filter");
    assert_eq!(
        NFNodeData::DestinationAddressFilter(text()).get_id(),
        "core:destination_address_filter"
    );
    assert_eq!(NFNodeData::SourcePortFilter(text()).get_id(), "core:source_port_filter");
    assert_eq!(NFNodeData::DestinationPortFilter(text()).get_id(), "core:destination_port_filter");
    assert_eq!(NFNodeData::ProtocolFilter(text()).get_id(), "core:protocol_filter");
    assert_eq!(NFNodeData::FamilySplitter.get_id(), "core:family_splitter");
    assert_eq!(NFNodeData::SourceNAT(text()).get_id(), "core:source_nat");
    assert_eq!(NFNodeData::DestinationNAT(text()).get_id(), "core:destination_nat");
    assert_eq!(NFNodeData::Drop.get_id(), "core:drop");
    assert_eq!(NFNodeData::Accept.get_id(), "core:accept");
    assert_eq!(NFNodeData::Localhost.get_id(), "core:localhost");
    assert_eq!(NFNodeData::InterfaceFilter(text()).get_id(), "core:interface_filter");
    assert_eq!(custom("geo", "country").get_id(), "geo:country");
}

#[test]
fn only_the_source_and_the_local_machine_stay() {
    assert!(!NFNodeData::Source.can_delete());
    assert!(!NFNodeData::Localhost.can_delete());
    assert!(NFNodeData::Drop.can_delete());
    assert!(NFNodeData::Accept.can_delete());
    assert!(NFNodeData::FamilySplitter.can_delete());
    assert!(NFNodeData::SourceNAT("a".to_string()).can_delete());
    assert!(custom("p", "n").can_delete());
}

#[test]
fn built_in_kinds_have_labels() {
    let text = || String::new();
    assert_eq!(NFNodeData::FileIpList(None).label().unwrap(), "IP File Filter");
    assert_eq!(NFNodeData::SourceAddressFilter(text()).label().unwrap(), "Source Address Filter");
    assert_eq!(
        NFNodeData::DestinationAddressFilter(text()).label().unwrap(),
        "Destination Address Filter"
    );
    assert_eq!(NFNodeData::SourcePortFilter(text()).label().unwrap(), "Source Port Filter");
    assert_eq!(NFNodeData::DestinationPortFilter(text()).label().unwrap(), "Destination Port Filter");
    assert_eq!(NFNodeData::ProtocolFilter(text()).label().unwrap(), "Protocol Filter");
    assert_eq!(NFNodeData::FamilySplitter.label().unwrap(), "Family Splitter");
    assert_eq!(NFNodeData::SourceNAT(text()).label().unwrap(), "Source Address Translation");
    assert_eq!(NFNodeData::DestinationNAT(text()).label().unwrap(), "Destination Address Translation");
    assert_eq!(NFNodeData::InterfaceFilter(text()).label().unwrap(), "Interface Filter");
    assert_eq!(NFNodeData::Source.label().unwrap(), "Incoming Source");
    assert_eq!(NFNodeData::Localhost.label().unwrap(), "Local Machine");
    assert_eq!(NFNodeData::Drop.label().unwrap(), "Drop");
    assert_eq!(NFNodeData::Accept.label().unwrap(), "Accept");
    assert_eq!(custom("p", "n").label(), None);
}

fn extension(id: &str, nodes: &[(&str, &str)]) -> Plugin {
    Plugin {
        id: id.to_string(),
        nf: nodes
            .iter()
            .map(|(node, name)| {
                (
                    node.to_string(),
                    NFNode {
                        display_name: name.to_string(),
                        params: Params::new(),
                        input: NFInput { family: NFFamily::IPv4, direction: NFDirection::Incoming },
                        outputs: vec![
                            (
                                "yes".to_string(),
                                NFOutput { family: NFFamily::IPv4, direction: NFDirection::Either },
                            ),
                            (
                                "no".to_string(),
                                NFOutput { family: NFFamily::IPv6, direction: NFDirection::Outgoing },
                            ),
                        ],
                    },
                )
            })
            .collect(),
    }
}

#[test]
fn extensions_are_registered_by_identifier() {
    let mut state = NFGraphState::default();
    assert_eq!(state.plugins.len(), 0);
    assert_eq!(state.active_node, None);
    assert!(state.find_node("geo", "country").is_none());
    state.active_node = Some(NodeId(1));
    state.register(extension("geo", &[("country", "Country"), ("city", "City")]));
    state.register(extension("time", &[("hour", "Hour")]));
    assert_eq!(state.active_node, Some(NodeId(1)));
    assert_eq!(state.plugins.len(), 2);
    assert_eq!(state.find_node("geo", "city").unwrap().display_name, "City");
    assert_eq!(state.find_node("geo", "city").unwrap().label(), "City");
    assert_eq!(state.find_node("time", "hour").unwrap().display_name, "Hour");
    assert!(state.find_node("geo", "hour").is_none());
    assert!(state.find_node("space", "hour").is_none());
    state.register(extension("geo", &[("country", "Land")]));
    assert_eq!(state.plugins.len(), 2);
    assert_eq!(state.plugins[0].id, "geo");
    assert_eq!(state.find_node("geo", "country").unwrap().display_name, "Land");
    assert!(state.find_node("geo", "city").is_none());
    assert_eq!(state.plugins[0].node("country").unwrap().display_name, "Land");
    assert!(state.plugins[0].node("city").is_none());
    assert_eq!(custom("geo", "country").node_finder_label(&state), "Land");
    assert_eq!(custom("time", "hour").node_graph_label(&state), "Hour");
    assert_eq!(NFNodeData::Drop.node_finder_label(&state), "Drop");
    assert_eq!(NFNodeData::Localhost.node_graph_label(&state), "Local Machine");
}

#[test]
fn every_registered_kind_is_on_offer() {
    let mut state = NFGraphState::default();
    assert_eq!(state.custom_kinds().len(), 0);
    state.register(extension("geo", &[("country", "Country"), ("city", "City")]));
    state.register(extension("time", &[("hour", "Hour")]));
    let kinds = state.custom_kinds();
    assert_eq!(kinds.len(), 3);
    let ids: Vec<String> = kinds.iter().map(|kind| kind.get_id()).collect();
    assert_eq!(ids, vec!["geo:country", "geo:city", "time:hour"]);
    for kind in &kinds {
        match kind {
            NFNodeData::Custom { data, .. } => assert_eq!(data.len(), 0),
            other => panic!("not an extension kind: {:?}", other),
        }
    }
    let offer = NodeTemplateIter::new(kinds);
    let all = offer.all_kinds();
    assert_eq!(all.len(), 15);
    let ids: Vec<String> = all.iter().map(|kind| kind.get_id()).collect();
    assert_eq!(
        ids,
        vec![
            "core:interface_filter",
            "core:file_ip_list",
            "core:source_address_filter",
            "core:destination_address_filter",
            "core:source_port_filter",
            "core:destination_port_filter",
            "core:protocol_filter",
            "core:family_splitter",
            "core:source_nat",
            "core:destination_nat",
            "core:drop",
            "core:accept",
            "geo:country",
            "geo:city",
            "time:hour",
        ]
    );
    assert!(matches!(&all[0], NFNodeData::InterfaceFilter(v) if v.is_empty()));
    assert!(matches!(&all[1], NFNodeData::FileIpList(None)));
    assert!(matches!(&all[8], NFNodeData::SourceNAT(v) if v.is_empty()));
    assert_eq!(offer.clone().all_kinds().len(), 15);
    assert_eq!(NodeTemplateIter::new(Vec::new()).all_kinds().len(), 12);
}

fn ports(kind: NFNodeData, state: &NFGraphState) -> (Vec<(String, DataType)>, Vec<(String, DataType)>) {
    let mut graph = Graph::new();
    let id = graph.add_node("node".to_string(), kind.user_data());
    kind.build_node(&mut graph, state, id);
    let node = graph.get_node(id).unwrap();
    let inputs = node
        .inputs
        .iter()
        .map(|(name, port)| {
            assert_eq!(graph.get_input(*port).unwrap().node, id);
            assert_eq!(graph.get_input(*port).unwrap().id, *port);
            (name.clone(), graph.get_input(*port).unwrap().typ)
        })
        .collect();
    let outputs = node
        .outputs
        .iter()
        .map(|(name, port)| {
            assert_eq!(graph.get_output(*port).unwrap().node, id);
            assert_eq!(graph.get_output(*port).unwrap().id, *port);
            assert_eq!(graph.connection(*port), None);
            (name.clone(), graph.get_output(*port).unwrap().typ)
        })
        .collect();
    (inputs, outputs)
}

fn same_ports(made: &Vec<(String, DataType)>, wanted: &[(&str, NFFamily, NFDirection)]) -> bool {
    made.len() == wanted.len()
        && made.iter().zip(wanted.iter()).all(|(port, want)| {
            port.0 == want.0 && port.1.family == want.1 && port.1.direction == want.2
        })
}

#[test]
fn every_kind_gets_its_ports() {
    let state = NFGraphState::default();
    let any = (NFFamily::Inet, NFDirection::Either);
    let text = || String::new();
    for kind in [
        NFNodeData::FileIpList(None),
        NFNodeData::SourceAddressFilter(text()),
        NFNodeData::DestinationAddressFilter(text()),
        NFNodeData::SourcePortFilter(text()),
        NFNodeData::DestinationPortFilter(text()),
        NFNodeData::ProtocolFilter(text()),
        NFNodeData::InterfaceFilter(text()),
    ] {
        let (inputs, outputs) = ports(kind, &state);
        assert!(same_ports(&inputs, &[("", any.0, any.1)]));
        assert!(same_ports(&outputs, &[("match", any.0, any.1), ("non-match", any.0, any.1)]));
    }
    for kind in [NFNodeData::SourceNAT(text()), NFNodeData::DestinationNAT(text())] {
        let (inputs, outputs) = ports(kind, &state);
        assert!(same_ports(&inputs, &[("", any.0, any.1)]));
        assert!(same_ports(&outputs, &[("", any.0, any.1)]));
    }
    let (inputs, outputs) = ports(NFNodeData::FamilySplitter, &state);
    assert!(same_ports(&inputs, &[("", any.0, any.1)]));
    assert!(same_ports(
        &outputs,
        &[("ipv4", NFFamily::IPv4, NFDirection::Either), ("ipv6", NFFamily::IPv6, NFDirection::Either)]
    ));
    let (inputs, outputs) = ports(NFNodeData::Drop, &state);
    assert!(same_ports(&inputs, &[("", any.0, any.1)]));
    assert!(same_ports(&outputs, &[]));
    let (inputs, outputs) = ports(NFNodeData::Accept, &state);
    assert!(same_ports(&inputs, &[("outgoing", NFFamily::Inet, NFDirection::Outgoing)]));
    assert!(same_ports(&outputs, &[]));
    let (inputs, outputs) = ports(NFNodeData::Localhost, &state);
    assert!(same_ports(&inputs, &[("incoming", NFFamily::Inet, NFDirection::Incoming)]));
    assert!(same_ports(&outputs, &[("outgoing", NFFamily::Inet, NFDirection::Outgoing)]));
    let (inputs, outputs) = ports(NFNodeData::Source, &state);
    assert!(same_ports(&inputs, &[]));
    assert!(same_ports(&outputs, &[("incoming", NFFamily::Inet, NFDirection::Incoming)]));
}

#[test]
fn an_extension_kind_gets_its_declared_ports() {
    let mut state = NFGraphState::default();
    state.register(extension("geo", &[("country", "Country")]));
    let (inputs, outputs) = ports(custom("geo", "country"), &state);
    assert!(same_ports(&inputs, &[("", NFFamily::IPv4, NFDirection::Incoming)]));
    assert!(same_ports(
        &outputs,
        &[("yes", NFFamily::IPv4, NFDirection::Either), ("no", NFFamily::IPv6, NFDirection::Outgoing)]
    ));
    let mut graph = Graph::new();
    let first = graph.add_node("a".to_string(), NFNodeData::Drop);
    let second = graph.add_node("b".to_string(), custom("geo", "country"));
    NFNodeData::build_custom_node(&mut graph, &state, second, "geo", "country");
    assert_eq!(graph.get_node(first).unwrap().inputs.len(), 0);
    assert_eq!(graph.get_node(second).unwrap().inputs.len(), 1);
    assert_eq!(graph.get_node(second).unwrap().outputs.len(), 2);
    assert_eq!(graph.get_node(second).unwrap().outputs[1].0, "no");
    assert_eq!(graph.get_node(second).unwrap().outputs[1].1, OutputId(1));
    assert_eq!(graph.get_output(OutputId(1)).unwrap().node, second);
}

#[test]
fn templates_copy_their_configuration() {
    let kind = NFNodeData::SourceNAT("1.2.3.4:5".to_string());
    assert!(matches!(kind.user_data(), NFNodeData::SourceNAT(v) if v == "1.2.3.4:5"));
    let kind = NFNodeData::FileIpList(Some("list".to_string()));
    assert!(matches!(kind.clone(), NFNodeData::FileIpList(Some(v)) if v == "list"));
    let kind = NFNodeData::Custom {
        plugin: "p".to_string(),
        id: "n".to_string(),
        data: Params::new().with("k".to_string(), "v".to_string()),
    };
    match kind.user_data() {
        NFNodeData::Custom { plugin, id, data } => {
            assert_eq!(plugin, "p");
            assert_eq!(id, "n");
            assert_eq!(data.get("k"), Some(&"v".to_string()));
        }
        other => panic!("not an extension kind: {:?}", other),
    }
    let profile = Profile { name: "http".to_string(), port: 80 };
    assert_eq!(profile.clone().name, "http");
    assert_eq!(profile.clone().port, 80);
}

#[test]
fn scripts_lie_under_the_project() {
    assert_eq!(plugin_directory("/home/u/fw", "geo"), "/home/u/fw/plugins/geo");
    assert_eq!(script_in("/src/geo", "country"), "/src/geo/country");
    assert_eq!(script_path("/home/u/fw", "geo", "country"), "/home/u/fw/plugins/geo/country");
}

#[test]
fn failures_describe_themselves() {
    assert_eq!(Error::ConfigurationError.message(), "a required field is missing or malformed");
    assert_eq!(Error::UnknownBranch.message(), "the node has no such output branch");
    assert_eq!(Error::UnknownNodeKind.message(), "unknown node kind");
    assert_eq!(Error::PluginError.message(), "the extension script failed");
    assert_eq!(Error::NotFoundError.message(), "no such node, port or extension");
    assert_eq!(Error::UnsupportedLowering.message(), "no lowering rule for this predicate");
}

#[test]
fn an_import_copies_the_extension_and_every_node_script() {
    let plugin = extension("geo", &[("country", "Country"), ("city", "City")]);
    let copies = import_plan("/home/u/fw", "/src/geo", &plugin);
    assert_eq!(
        copies,
        vec![
            ("/src/geo/geo".to_string(), "/home/u/fw/plugins/geo/geo".to_string()),
            ("/src/geo/country".to_string(), "/home/u/fw/plugins/geo/country".to_string()),
            ("/src/geo/city".to_string(), "/home/u/fw/plugins/geo/city".to_string()),
        ]
    );
    let bare = extension("bare", &[]);
    assert_eq!(
        import_plan("p", "s", &bare),
        vec![("s/bare".to_string(), "p/plugins/bare/bare".to_string())]
    );
}
