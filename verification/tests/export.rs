use netgraph::collector::collect_terminal_paths;
use netgraph::error::Error;
use netgraph::evaluator::{Eval, PluginAnswers, PluginReply, PluginRequest};
use netgraph::export::{export, export_paths, Exported};
use netgraph::graph::Graph;
use netgraph::graph_state::NFGraphState;
use netgraph::id_type::{InputId, NodeId, OutputId};
use netgraph::lowering::{
    Action, Chain, ChainKind, Command, Comparison, Field, Hook, Policy, Rule,
};
use netgraph::nft::{render, to_nf_object, to_nf_objects};
use netgraph::node_data::NFNodeData;
use netgraph::node_template::new_graph;
use netgraph::plugin::{NFInput, NFNode, NFOutput, Plugin};
use netgraph::predicate::{clone_path, path_seed, paths_equal, Params, Predicate};
use nftables::expr::Expression;
use nftables::schema::{NfCmd, NfListObject, NfObject, Nftables, Table};
use nftables::stmt::{Statement, NAT, NATFamily};
use nftables::types::{NfChainPolicy, NfChainType, NfFamily, NfHook};

fn add_with(graph: &mut Graph, state: &NFGraphState, kind: NFNodeData) -> NodeId {
    let id = graph.add_node(kind.node_graph_label(state), kind.user_data());
    kind.build_node(graph, state, id);
    id
}

fn add(graph: &mut Graph, kind: NFNodeData) -> NodeId {
    add_with(graph, &NFGraphState::default(), kind)
}

fn out(graph: &Graph, node: NodeId, k: usize) -> OutputId {
    graph.get_node(node).unwrap().outputs[k].1
}

fn inp(graph: &Graph, node: NodeId, k: usize) -> InputId {
    graph.get_node(node).unwrap().inputs[k].1
}

fn params(entries: &[(&str, &str)]) -> Params {
    let mut made = Params::new();
    for (key, value) in entries {
        made = made.with(key.to_string(), value.to_string());
    }
    made
}

fn predicate(variant: &str, entries: &[(&str, &str)]) -> Predicate {
    Predicate::new(variant.to_string(), params(entries))
}

fn exported(graph: &Graph, answers: &PluginAnswers) -> Exported {
    match export(graph, answers) {
        Eval::Done(ruleset) => ruleset,
        other => panic!("not done: {:?}", other),
    }
}

fn paths(graph: &Graph, answers: &PluginAnswers) -> Vec<Vec<Predicate>> {
    match collect_terminal_paths(graph, answers) {
        Eval::Done(found) => found.paths,
        other => panic!("not done: {:?}", other),
    }
}

fn chain(command: &Command) -> Chain {
    match command {
        Command::AddChain(chain) => *chain,
        other => panic!("not a chain: {:?}", other),
    }
}

fn rule(command: &Command) -> &Rule {
    match command {
        Command::AddRule(rule) => rule,
        other => panic!("not a rule: {:?}", other),
    }
}

fn filter_graph() -> Graph {
    let (mut graph, source, _localhost) = new_graph();
    let filter = add(&mut graph, NFNodeData::SourceAddressFilter("10.0.0.1".to_string()));
    let drop = add(&mut graph, NFNodeData::Drop);
    let accept = add(&mut graph, NFNodeData::Accept);
    assert!(graph.connect(out(&graph, source, 0), inp(&graph, filter, 0)));
    assert!(graph.connect(out(&graph, filter, 0), inp(&graph, drop, 0)));
    assert!(graph.connect(out(&graph, filter, 1), inp(&graph, accept, 0)));
    graph
}

fn nat_graph() -> Graph {
    let (mut graph, source, localhost) = new_graph();
    let nat = add(&mut graph, NFNodeData::SourceNAT("192.168.1.5:8080".to_string()));
    let accept = add(&mut graph, NFNodeData::Accept);
    assert!(graph.connect(out(&graph, source, 0), inp(&graph, localhost, 0)));
    assert!(graph.connect(out(&graph, localhost, 0), inp(&graph, nat, 0)));
    assert!(graph.connect(out(&graph, nat, 0), inp(&graph, accept, 0)));
    graph
}

#[test]
fn a_filter_gives_one_path_for_each_branch() {
    let found = paths(&filter_graph(), &PluginAnswers::new());
    assert_eq!(found.len(), 2);
    let dropped = vec![
        predicate("core:source", &[]),
        predicate("core:source_address_filter", &[("filter", "10.0.0.1"), ("rule", "match")]),
        predicate("core:drop", &[]),
    ];
    let accepted = vec![
        predicate("core:source", &[]),
        predicate("core:source_address_filter", &[("filter", "10.0.0.1"), ("rule", "non-match")]),
        predicate("core:accept", &[]),
    ];
    assert!(paths_equal(&found[0], &dropped));
    assert!(paths_equal(&found[1], &accepted));
}

#[test]
fn a_filter_exports_a_drop_on_input_and_an_accept_on_output() {
    let graph = filter_graph();
    let answers = PluginAnswers::new();
    let found = paths(&graph, &answers);
    let ruleset = exported(&graph, &answers);
    assert_eq!(ruleset.skipped, Vec::new());
    assert_eq!(ruleset.failures, Vec::new());
    let commands = &ruleset.commands;
    assert_eq!(commands.len(), 5);
    assert!(matches!(commands[0], Command::AddTable));
    let first = path_seed(&found[0]);
    let second = path_seed(&found[1]);
    assert_ne!(first, second);
    assert_eq!(
        chain(&commands[1]),
        Chain { name: first, kind: ChainKind::Filter, hook: Hook::Input, policy: Policy::Accept }
    );
    assert_eq!(rule(&commands[2]).chain, first);
    assert_eq!(rule(&commands[2]).matches.len(), 1);
    assert_eq!(rule(&commands[2]).matches[0].field, Field::SourceAddress);
    assert_eq!(rule(&commands[2]).matches[0].value, "10.0.0.1");
    assert_eq!(rule(&commands[2]).matches[0].op, Comparison::Equal);
    assert!(matches!(rule(&commands[2]).action, Action::Drop));
    assert_eq!(
        chain(&commands[3]),
        Chain { name: second, kind: ChainKind::Filter, hook: Hook::Output, policy: Policy::Accept }
    );
    assert_eq!(rule(&commands[4]).chain, second);
    assert_eq!(rule(&commands[4]).matches.len(), 1);
    assert_eq!(rule(&commands[4]).matches[0].field, Field::SourceAddress);
    assert_eq!(rule(&commands[4]).matches[0].value, "10.0.0.1");
    assert_eq!(rule(&commands[4]).matches[0].op, Comparison::NotEqual);
    assert!(matches!(rule(&commands[4]).action, Action::Accept));
}

fn add_object(object: NfListObject) -> NfObject {
    NfObject::CmdObject(NfCmd::Add(object))
}

fn chain_object(name: &str, kind: NfChainType, hook: NfHook, policy: NfChainPolicy) -> NfObject {
    add_object(NfListObject::Chain(nftables::schema::Chain::new(
        NfFamily::INet,
        "netgraph".to_string(),
        name.to_string(),
        Some(kind),
        Some(hook),
        None,
        None,
        Some(policy),
    )))
}

fn rule_object(chain: &str, statements: Vec<Statement>) -> NfObject {
    add_object(NfListObject::Rule(nftables::schema::Rule::new(
        NfFamily::INet,
        "netgraph".to_string(),
        chain.to_string(),
        statements,
    )))
}

fn compare(left: &str, right: &str, op: nftables::stmt::Operator) -> Statement {
    Statement::Match(nftables::stmt::Match {
        left: Expression::String(left.to_string()),
        right: Expression::String(right.to_string()),
        op,
    })
}

#[test]
fn local_source_nat_exports_three_chains_in_order() {
    let graph = nat_graph();
    let answers = PluginAnswers::new();
    let found = paths(&graph, &answers);
    assert_eq!(found.len(), 1);
    assert_eq!(found[0].len(), 4);
    let seed = path_seed(&found[0]);
    let ruleset = exported(&graph, &answers);
    assert_eq!(ruleset.commands.len(), 7);
    let names: Vec<String> =
        (0..3u64).map(|k| seed.wrapping_add(k).to_string()).collect();
    let expected = vec![
        add_object(NfListObject::Table(Table::new(NfFamily::INet, "netgraph".to_string()))),
        chain_object(&names[0], NfChainType::Filter, NfHook::Input, NfChainPolicy::Drop),
        rule_object(&names[0], vec![Statement::Accept(Some(nftables::stmt::Accept {}))]),
        chain_object(&names[1], NfChainType::NAT, NfHook::Output, NfChainPolicy::Accept),
        rule_object(
            &names[1],
            vec![Statement::SNAT(Some(NAT {
                addr: Some(Expression::String("192.168.1.5".to_string())),
                family: Some(NATFamily::IP),
                port: Some(8080),
                flags: None,
            }))],
        ),
        chain_object(&names[2], NfChainType::Filter, NfHook::Output, NfChainPolicy::Accept),
        rule_object(
            &names[2],
            vec![
                compare("saddr", "192.168.1.5", nftables::stmt::Operator::EQ),
                Statement::Accept(Some(nftables::stmt::Accept {})),
            ],
        ),
    ];
    let objects = to_nf_objects(&ruleset.commands);
    assert_eq!(objects, expected);
    let text = render(&ruleset.commands).unwrap();
    assert_eq!(text, serde_json::to_string_pretty(&Nftables { objects: expected }).unwrap());
    assert_eq!(to_nf_object(&ruleset.commands[0]), objects[0]);
}

#[test]
fn every_kind_of_object_is_written_as_the_schema_has_it() {
    let commands = vec![
        Command::AddChain(Chain {
            name: 3,
            kind: ChainKind::Nat,
            hook: Hook::Input,
            policy: Policy::Accept,
        }),
        Command::AddRule(Rule {
            chain: 3,
            matches: vec![
                netgraph::lowering::Match {
                    field: Field::DestinationAddress,
                    value: "a".to_string(),
                    op: Comparison::NotEqual,
                },
                netgraph::lowering::Match {
                    field: Field::SourcePort,
                    value: "1".to_string(),
                    op: Comparison::Equal,
                },
                netgraph::lowering::Match {
                    field: Field::DestinationPort,
                    value: "2".to_string(),
                    op: Comparison::Equal,
                },
                netgraph::lowering::Match {
                    field: Field::Protocol,
                    value: "udp".to_string(),
                    op: Comparison::Equal,
                },
                netgraph::lowering::Match {
                    field: Field::InputInterface,
                    value: "eth0".to_string(),
                    op: Comparison::Equal,
                },
                netgraph::lowering::Match {
                    field: Field::OutputInterface,
                    value: "eth1".to_string(),
                    op: Comparison::Equal,
                },
                netgraph::lowering::Match {
                    field: Field::Family,
                    value: "ipv4".to_string(),
                    op: Comparison::Equal,
                },
            ],
            action: Action::DestinationNat { addr: "10.0.0.9".to_string(), port: 53 },
        }),
        Command::AddRule(Rule { chain: 4, matches: Vec::new(), action: Action::Drop }),
    ];
    let eq = nftables::stmt::Operator::EQ;
    let expected = vec![
        chain_object("3", NfChainType::NAT, NfHook::Input, NfChainPolicy::Accept),
        rule_object(
            "3",
            vec![
                compare("daddr", "a", nftables::stmt::Operator::NEQ),
                compare("meta l4proto { tcp, udp } th sport", "1", eq),
                compare("meta l4proto { tcp, udp } th dport", "2", eq),
                compare("ip protocol", "udp", eq),
                compare("iifname", "eth0", eq),
                compare("oifname", "eth1", eq),
                compare("nfproto", "ipv4", eq),
                Statement::DNAT(Some(NAT {
                    addr: Some(Expression::String("10.0.0.9".to_string())),
                    family: Some(NATFamily::IP),
                    port: Some(53),
                    flags: None,
                })),
            ],
        ),
        rule_object("4", vec![Statement::Drop(Some(nftables::stmt::Drop {}))]),
    ];
    assert_eq!(to_nf_objects(&commands), expected);
}

#[test]
fn the_table_alone_is_a_known_document() {
    let text = render(&vec![Command::AddTable]).unwrap();
    let expected = "{\n  \"nftables\": [\n    {\n      \"add\": {\n        \"table\": {\n          \"family\": \"inet\",\n          \"name\": \"netgraph\"\n        }\n      }\n    }\n  ]\n}";
    assert_eq!(text, expected);
    assert_eq!(render(&Vec::new()).unwrap(), "{\n  \"nftables\": []\n}");
}

#[test]
fn collecting_twice_gives_the_same_paths() {
    let graph = filter_graph();
    let answers = PluginAnswers::new();
    let first = paths(&graph, &answers);
    let second = paths(&graph, &answers);
    assert_eq!(first.len(), second.len());
    for (one, other) in first.iter().zip(second.iter()) {
        assert!(paths_equal(one, other));
    }
}

#[test]
fn nodes_that_are_not_connected_are_evaluated_too() {
    let (mut graph, _source, _localhost) = new_graph();
    let lonely = add(&mut graph, NFNodeData::Drop);
    let unset = add(&mut graph, NFNodeData::FileIpList(None));
    let answers = PluginAnswers::new();
    match collect_terminal_paths(&graph, &answers) {
        Eval::Done(found) => {
            assert_eq!(found.paths.len(), 0);
            assert_eq!(found.failures, Vec::new());
        }
        other => panic!("not done: {:?}", other),
    }
    let sender = add(&mut graph, NFNodeData::Source);
    assert!(graph.connect(out(&graph, sender, 0), inp(&graph, unset, 0)));
    assert!(graph.connect(out(&graph, unset, 0), inp(&graph, lonely, 0)));
    match collect_terminal_paths(&graph, &answers) {
        Eval::Done(found) => {
            assert_eq!(found.paths.len(), 0);
            assert_eq!(found.failures, vec![(unset, Error::ConfigurationError)]);
        }
        other => panic!("not done: {:?}", other),
    }
    let ruleset = exported(&graph, &answers);
    assert_eq!(ruleset.commands.len(), 1);
    assert_eq!(ruleset.failures, vec![(unset, Error::ConfigurationError)]);
}

#[test]
fn a_node_without_inputs_starts_from_the_empty_path() {
    let mut graph = Graph::new();
    let _drop = add(&mut graph, NFNodeData::Source);
    let found = paths(&graph, &PluginAnswers::new());
    assert_eq!(found.len(), 0);
    let mut bare = Graph::new();
    bare.add_node("bare".to_string(), NFNodeData::Drop);
    let found = paths(&bare, &PluginAnswers::new());
    assert_eq!(found.len(), 1);
    assert!(paths_equal(&found[0], &vec![predicate("core:drop", &[])]));
}

#[test]
fn fan_in_gathers_the_paths_of_all_senders() {
    let (mut graph, source, _localhost) = new_graph();
    let filter = add(&mut graph, NFNodeData::ProtocolFilter("tcp".to_string()));
    let drop = add(&mut graph, NFNodeData::Drop);
    assert!(graph.connect(out(&graph, source, 0), inp(&graph, filter, 0)));
    assert!(graph.connect(out(&graph, filter, 1), inp(&graph, drop, 0)));
    assert!(graph.connect(out(&graph, filter, 0), inp(&graph, drop, 0)));
    let found = paths(&graph, &PluginAnswers::new());
    assert_eq!(found.len(), 2);
    assert_eq!(found[0][1].params().get("rule"), Some(&"match".to_string()));
    assert_eq!(found[1][1].params().get("rule"), Some(&"non-match".to_string()));
    assert_eq!(found[0][2].variant(), "core:drop");
}

#[test]
fn a_path_that_cannot_be_lowered_is_left_out_and_reported() {
    let (mut graph, source, _localhost) = new_graph();
    let split = add(&mut graph, NFNodeData::FamilySplitter);
    let list = add(&mut graph, NFNodeData::FileIpList(Some("list".to_string())));
    let drop = add(&mut graph, NFNodeData::Drop);
    let accept = add(&mut graph, NFNodeData::Accept);
    assert!(graph.connect(out(&graph, source, 0), inp(&graph, split, 0)));
    assert!(graph.connect(out(&graph, split, 0), inp(&graph, list, 0)));
    assert!(graph.connect(out(&graph, list, 0), inp(&graph, drop, 0)));
    assert!(graph.connect(out(&graph, split, 1), inp(&graph, accept, 0)));
    let ruleset = exported(&graph, &PluginAnswers::new());
    assert_eq!(ruleset.skipped, vec![(0, Error::UnsupportedLowering)]);
    assert_eq!(ruleset.failures, Vec::new());
    assert_eq!(ruleset.commands.len(), 3);
    assert_eq!(chain(&ruleset.commands[1]).hook, Hook::Output);
    assert_eq!(rule(&ruleset.commands[2]).matches[0].value, "ipv6");
    let (commands, skipped) = export_paths(&vec![
        vec![predicate("unknown", &[])],
        vec![predicate("core:drop", &[])],
        vec![predicate("core:file_ip_list", &[])],
    ]);
    assert_eq!(commands.len(), 3);
    assert_eq!(skipped, vec![(0, Error::UnknownNodeKind), (2, Error::UnsupportedLowering)]);
    let (commands, skipped) = export_paths(&Vec::new());
    assert_eq!(commands.len(), 1);
    assert!(matches!(commands[0], Command::AddTable));
    assert_eq!(skipped, Vec::new());
}

fn with_extension() -> (Graph, NFGraphState, NodeId) {
    let mut state = NFGraphState::default();
    state.register(Plugin {
        id: "p".to_string(),
        nf: vec![(
            "n".to_string(),
            NFNode {
                display_name: "Node".to_string(),
                params: Params::new(),
                input: NFInput::default(),
                outputs: vec![("out".to_string(), NFOutput::default())],
            },
        )],
    });
    let (mut graph, source, _localhost) = new_graph();
    let filter = add(&mut graph, NFNodeData::SourceAddressFilter("10.0.0.1".to_string()));
    let custom = add_with(
        &mut graph,
        &state,
        NFNodeData::Custom { plugin: "p".to_string(), id: "n".to_string(), data: Params::new() },
    );
    let drop = add(&mut graph, NFNodeData::Drop);
    let accept = add(&mut graph, NFNodeData::Accept);
    assert!(graph.connect(out(&graph, source, 0), inp(&graph, filter, 0)));
    assert!(graph.connect(out(&graph, filter, 0), inp(&graph, custom, 0)));
    assert!(graph.connect(out(&graph, custom, 0), inp(&graph, drop, 0)));
    assert!(graph.connect(out(&graph, filter, 1), inp(&graph, accept, 0)));
    (graph, state, custom)
}

fn asked(graph: &Graph, answers: &PluginAnswers) -> PluginRequest {
    match export(graph, answers) {
        Eval::Needs(request) => request,
        other => panic!("not asked: {:?}", other),
    }
}

#[test]
fn an_export_asks_for_the_script_of_an_extension_node() {
    let (graph, _state, _custom) = with_extension();
    let answers = PluginAnswers::new();
    let request = asked(&graph, &answers);
    assert_eq!(request.plugin, "p");
    assert_eq!(request.id, "n");
    assert_eq!(request.branch, "out");
    let came_in = vec![
        predicate("core:source", &[]),
        predicate("core:source_address_filter", &[("filter", "10.0.0.1"), ("rule", "match")]),
    ];
    assert!(paths_equal(&request.input, &came_in));
    assert!(matches!(collect_terminal_paths(&graph, &answers), Eval::Needs(_)));
}

#[test]
fn an_echoing_script_adds_nothing_to_the_path() {
    let (graph, _state, _custom) = with_extension();
    let mut answers = PluginAnswers::new();
    let request = asked(&graph, &answers);
    let reply =
        PluginReply { condition_path: clone_path(&request.input), custom_data: Params::new() };
    answers.record(request, Some(reply));
    let found = paths(&graph, &answers);
    assert_eq!(found.len(), 2);
    assert_eq!(found[0].len(), 3);
    assert_eq!(found[0][1].variant(), "core:source_address_filter");
    assert_eq!(found[0][2].variant(), "core:drop");
    assert_eq!(found[1].len(), 3);
    let ruleset = exported(&graph, &answers);
    assert_eq!(ruleset.commands.len(), 5);
    assert_eq!(ruleset.failures, Vec::new());
}

#[test]
fn a_failing_script_fails_its_node_only() {
    let (graph, _state, custom) = with_extension();
    let mut answers = PluginAnswers::new();
    let request = asked(&graph, &answers);
    answers.record(request, None);
    let ruleset = exported(&graph, &answers);
    assert_eq!(ruleset.failures, vec![(custom, Error::PluginError)]);
    assert_eq!(ruleset.skipped, Vec::new());
    assert_eq!(ruleset.commands.len(), 3);
    assert!(matches!(ruleset.commands[0], Command::AddTable));
    assert_eq!(chain(&ruleset.commands[1]).hook, Hook::Output);
    assert_eq!(rule(&ruleset.commands[2]).matches[0].op, Comparison::NotEqual);
    assert!(matches!(rule(&ruleset.commands[2]).action, Action::Accept));
    let found = paths(&graph, &answers);
    assert_eq!(found.len(), 1);
    assert_eq!(found[0][2].variant(), "core:accept");
}

#[test]
fn one_node_can_be_resolved_on_its_own() {
    let graph = filter_graph();
    let answers = PluginAnswers::new();
    let outputs = match netgraph::collector::resolve_node(&graph, &answers, NodeId(2)) {
        Eval::Done(outputs) => outputs,
        other => panic!("not done: {:?}", other),
    };
    assert_eq!(outputs.len(), 2);
    assert_eq!(outputs[0].0, "match");
    assert_eq!(outputs[0].1.len(), 1);
    assert_eq!(outputs[0].1[0].len(), 2);
    assert_eq!(outputs[1].0, "non-match");
    let terminal = match netgraph::collector::resolve_node(&graph, &answers, NodeId(4)) {
        Eval::Done(outputs) => outputs,
        other => panic!("not done: {:?}", other),
    };
    assert_eq!(terminal.len(), 1);
    assert_eq!(terminal[0].0, "terminal");
    assert_eq!(terminal[0].1[0][2].variant(), "core:accept");
    match netgraph::collector::resolve_node(&graph, &answers, NodeId(5)) {
        Eval::Failed(e) => assert_eq!(e, Error::NotFoundError),
        other => panic!("not failed: {:?}", other),
    }
}
