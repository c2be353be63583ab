use netgraph::error::Error;
use netgraph::evaluator::{
    apply, find_group, node_outputs, Eval, PluginAnswers, PluginReply, PluginRequest,
};
use netgraph::graph::Graph;
use netgraph::graph_state::NFGraphState;
use netgraph::node_data::NFNodeData;
use netgraph::predicate::{clone_path, paths_equal, Params, Predicate};

fn params(entries: &[(&str, &str)]) -> Params {
    let mut made = Params::new();
    for (key, value) in entries {
        made = made.with(key.to_string(), value.to_string());
    }
    made
}

fn predicate(variant: &str, entries: &[(&str, &str)]) -> Predicate {
    Predicate::new(variant.to_string(), params(entries))
}

fn done(result: Eval<Vec<Predicate>>) -> Vec<Predicate> {
    match result {
        Eval::Done(path) => path,
        other => panic!("not done: {:?}", other),
    }
}

fn failed(result: Eval<Vec<Predicate>>) -> Error {
    match result {
        Eval::Failed(e) => e,
        other => panic!("not failed: {:?}", other),
    }
}

fn incoming() -> Vec<Predicate> {
    vec![predicate("core:source", &[]), predicate("core:localhost", &[])]
}

#[test]
fn a_filter_appends_its_value_and_the_branch() {
    let answers = PluginAnswers::new();
    let kinds = [
        (NFNodeData::SourceAddressFilter("v".to_string()), "core:source_address_filter"),
        (NFNodeData::DestinationAddressFilter("v".to_string()), "core:destination_address_filter"),
        (NFNodeData::SourcePortFilter("v".to_string()), "core:source_port_filter"),
        (NFNodeData::DestinationPortFilter("v".to_string()), "core:destination_port_filter"),
        (NFNodeData::InterfaceFilter("v".to_string()), "core:interface_filter"),
        (NFNodeData::ProtocolFilter("v".to_string()), "core:protocol_filter"),
    ];
    for (kind, id) in kinds {
        for branch in ["match", "non-match"] {
            let path = done(apply(&answers, &incoming(), &kind, branch));
            assert_eq!(path.len(), 3);
            assert!(paths_equal(&path[..2].to_vec(), &incoming()));
            assert_eq!(path[2], predicate(id, &[("filter", "v"), ("rule", branch)]));
        }
        assert_eq!(failed(apply(&answers, &incoming(), &kind, "terminal")), Error::UnknownBranch);
        assert_eq!(failed(apply(&answers, &incoming(), &kind, "")), Error::UnknownBranch);
    }
}

#[test]
fn an_ip_list_needs_its_file() {
    let answers = PluginAnswers::new();
    let unset = NFNodeData::FileIpList(None);
    assert_eq!(failed(apply(&answers, &incoming(), &unset, "match")), Error::ConfigurationError);
    assert_eq!(failed(apply(&answers, &incoming(), &unset, "other")), Error::ConfigurationError);
    let set = NFNodeData::FileIpList(Some("/etc/list".to_string()));
    let path = done(apply(&answers, &incoming(), &set, "non-match"));
    assert_eq!(path.len(), 3);
    assert_eq!(path[2], predicate("core:file_ip_list", &[("path", "/etc/list"), ("rule", "non-match")]));
    assert_eq!(failed(apply(&answers, &incoming(), &set, "ipv4")), Error::UnknownBranch);
}

#[test]
fn the_family_splitter_appends_the_family() {
    let answers = PluginAnswers::new();
    for branch in ["ipv4", "ipv6"] {
        let path = done(apply(&answers, &incoming(), &NFNodeData::FamilySplitter, branch));
        assert_eq!(path.len(), 3);
        assert_eq!(path[2], predicate("core:family_splitter", &[("family", branch)]));
    }
    assert_eq!(
        failed(apply(&answers, &incoming(), &NFNodeData::FamilySplitter, "match")),
        Error::UnknownBranch
    );
}

#[test]
fn nat_and_verdicts_take_any_branch() {
    let answers = PluginAnswers::new();
    let snat = NFNodeData::SourceNAT("1.2.3.4:5".to_string());
    let path = done(apply(&answers, &incoming(), &snat, ""));
    assert_eq!(path.len(), 3);
    assert_eq!(path[2], predicate("core:source_nat", &[("addr", "1.2.3.4:5")]));
    let dnat = NFNodeData::DestinationNAT("1.2.3.4:5".to_string());
    let path = done(apply(&answers, &incoming(), &dnat, "whatever"));
    assert_eq!(path[2], predicate("core:destination_nat", &[("addr", "1.2.3.4:5")]));
    for (kind, id) in [
        (NFNodeData::Localhost, "core:localhost"),
        (NFNodeData::Drop, "core:drop"),
        (NFNodeData::Accept, "core:accept"),
    ] {
        let path = done(apply(&answers, &incoming(), &kind, "terminal"));
        assert_eq!(path.len(), 3);
        assert!(paths_equal(&path[..2].to_vec(), &incoming()));
        assert_eq!(path[2], predicate(id, &[]));
    }
}

#[test]
fn the_source_starts_a_path_of_its_own() {
    let answers = PluginAnswers::new();
    let path = done(apply(&answers, &incoming(), &NFNodeData::Source, "incoming"));
    assert_eq!(path.len(), 1);
    assert_eq!(path[0], predicate("core:source", &[]));
    let path = done(apply(&answers, &Vec::new(), &NFNodeData::Source, "x"));
    assert_eq!(path.len(), 1);
}

fn custom() -> NFNodeData {
    NFNodeData::Custom { plugin: "p".to_string(), id: "n".to_string(), data: Params::new() }
}

fn request(branch: &str, input: &Vec<Predicate>) -> PluginRequest {
    PluginRequest {
        plugin: "p".to_string(),
        id: "n".to_string(),
        branch: branch.to_string(),
        input: clone_path(input),
    }
}

#[test]
fn an_extension_node_asks_for_its_script() {
    let answers = PluginAnswers::new();
    match apply(&answers, &incoming(), &custom(), "out") {
        Eval::Needs(asked) => {
            assert_eq!(asked.plugin, "p");
            assert_eq!(asked.id, "n");
            assert_eq!(asked.branch, "out");
            assert!(paths_equal(&asked.input, &incoming()));
        }
        other => panic!("not asked: {:?}", other),
    }
}

#[test]
fn a_script_that_echoes_leaves_the_path_unchanged() {
    let mut answers = PluginAnswers::new();
    let reply = PluginReply { condition_path: incoming(), custom_data: Params::new() };
    answers.record(request("out", &incoming()), Some(reply));
    assert_eq!(answers.len(), 1);
    let path = done(apply(&answers, &incoming(), &custom(), "out"));
    assert_eq!(path.len(), incoming().len());
    assert!(paths_equal(&path, &incoming()));
    assert!(matches!(apply(&answers, &incoming(), &custom(), "other"), Eval::Needs(_)));
    assert!(matches!(apply(&answers, &Vec::new(), &custom(), "out"), Eval::Needs(_)));
}

#[test]
fn a_script_decides_the_whole_path() {
    let mut answers = PluginAnswers::new();
    let answer = vec![predicate("p:n", &[("k", "v")])];
    let reply = PluginReply { condition_path: clone_path(&answer), custom_data: params(&[("a", "b")]) };
    answers.record(request("out", &incoming()), Some(reply));
    let later = PluginReply { condition_path: incoming(), custom_data: Params::new() };
    answers.record(request("out", &incoming()), Some(later));
    let path = done(apply(&answers, &incoming(), &custom(), "out"));
    assert!(paths_equal(&path, &answer));
    assert!(answers.find("p", "n", "out", &incoming()).is_some());
    assert!(answers.find("p", "n", "in", &incoming()).is_none());
    assert!(answers.find("q", "n", "out", &incoming()).is_none());
    assert!(answers.find("p", "m", "out", &incoming()).is_none());
}

#[test]
fn a_script_that_failed_fails_the_node() {
    let mut answers = PluginAnswers::new();
    answers.record(request("out", &incoming()), None);
    assert_eq!(failed(apply(&answers, &incoming(), &custom(), "out")), Error::PluginError);
}

fn node_of(kind: NFNodeData) -> Graph {
    let state = NFGraphState::default();
    let mut graph = Graph::new();
    let id = graph.add_node("node".to_string(), kind.user_data());
    kind.build_node(&mut graph, &state, id);
    graph
}

#[test]
fn node_outputs_are_a_cross_product() {
    let answers = PluginAnswers::new();
    let graph = node_of(NFNodeData::SourceAddressFilter("v".to_string()));
    let node = graph.get_node(netgraph::id_type::NodeId(0)).unwrap();
    let paths = vec![Vec::new(), incoming(), vec![predicate("core:source", &[])]];
    let outputs = match node_outputs(&answers, &paths, node) {
        Eval::Done(outputs) => outputs,
        other => panic!("not done: {:?}", other),
    };
    assert_eq!(outputs.len(), 2);
    assert_eq!(outputs[0].0, "match");
    assert_eq!(outputs[1].0, "non-match");
    for group in &outputs {
        assert_eq!(group.1.len(), 3);
        for (made, from) in group.1.iter().zip(paths.iter()) {
            assert_eq!(made.len(), from.len() + 1);
            assert!(paths_equal(&made[..from.len()].to_vec(), from));
            assert_eq!(
                made[from.len()],
                predicate("core:source_address_filter", &[("filter", "v"), ("rule", &group.0)])
            );
        }
    }
    assert_eq!(find_group(&outputs, "match"), Some(0));
    assert_eq!(find_group(&outputs, "non-match"), Some(1));
    assert_eq!(find_group(&outputs, "terminal"), None);
    let none = match node_outputs(&answers, &Vec::new(), node) {
        Eval::Done(outputs) => outputs,
        other => panic!("not done: {:?}", other),
    };
    assert_eq!(none.len(), 2);
    assert_eq!(none[0].1.len(), 0);
    assert_eq!(none[1].1.len(), 0);
}

#[test]
fn a_terminal_node_has_the_one_terminal_branch() {
    let answers = PluginAnswers::new();
    let graph = node_of(NFNodeData::Drop);
    let node = graph.get_node(netgraph::id_type::NodeId(0)).unwrap();
    let paths = vec![incoming(), Vec::new()];
    let outputs = match node_outputs(&answers, &paths, node) {
        Eval::Done(outputs) => outputs,
        other => panic!("not done: {:?}", other),
    };
    assert_eq!(outputs.len(), 1);
    assert_eq!(outputs[0].0, "terminal");
    assert_eq!(outputs[0].1.len(), 2);
    assert_eq!(outputs[0].1[0].len(), 3);
    assert_eq!(outputs[0].1[1].len(), 1);
}

#[test]
fn node_outputs_fail_with_the_first_failure() {
    let answers = PluginAnswers::new();
    let graph = node_of(NFNodeData::FileIpList(None));
    let node = graph.get_node(netgraph::id_type::NodeId(0)).unwrap();
    match node_outputs(&answers, &vec![incoming()], node) {
        Eval::Failed(e) => assert_eq!(e, Error::ConfigurationError),
        other => panic!("not failed: {:?}", other),
    }
    match node_outputs(&answers, &Vec::new(), node) {
        Eval::Done(outputs) => assert_eq!(outputs.len(), 2),
        other => panic!("not done: {:?}", other),
    }
}
