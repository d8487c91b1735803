use onnx_edit::{
    apply_bypasses, contains_name, excise, find_bypasses, find_node, keep_named, remove_ops,
    retain_named, Bypass, Error, Graph, Model, Node, Tensor, ValueInfo,
};

fn s(text: &str) -> String {
    text.to_string()
}

fn names(list: &[&str]) -> Vec<String> {
    list.iter().map(|n| n.to_string()).collect()
}

fn node(name: &str, input: &[&str], output: &[&str]) -> Node {
    Node::new(s(name), names(input), names(output))
}

fn graph_of(nodes: Vec<Node>) -> Graph {
    Graph {
        nodes,
        initializers: vec![Tensor { name: s("w"), payload: vec![9, 9] }],
        inputs: vec![ValueInfo { name: s("x"), type_info: Some(vec![1]) }],
        outputs: vec![ValueInfo { name: s("y"), type_info: None }],
    }
}

fn model_of(nodes: Vec<Node>) -> Model {
    Model { doc_string: s("doc"), ir_version: 8, graph: Some(graph_of(nodes)) }
}

fn chain() -> Vec<Node> {
    vec![node("P", &["x"], &["B"]), node("B", &["P"], &["C"]), node("C", &["B"], &["y"])]
}

#[test]
fn contains_name_finds_what_is_listed() {
    let list = names(&["a", "b", "a"]);
    assert!(contains_name(&list, &s("a")));
    assert!(contains_name(&list, &s("b")));
    assert!(!contains_name(&list, &s("c")));
    assert!(!contains_name(&list, &s("")));
    assert!(!contains_name(&vec![], &s("a")));
}

#[test]
fn find_node_gives_the_place_of_a_name() {
    let nodes = chain();
    assert_eq!(find_node(&nodes, &s("P")), Some(0));
    assert_eq!(find_node(&nodes, &s("B")), Some(1));
    assert_eq!(find_node(&nodes, &s("C")), Some(2));
    assert_eq!(find_node(&nodes, &s("x")), None);
    assert_eq!(find_node(&vec![], &s("P")), None);
}

#[test]
fn find_node_takes_the_last_of_a_repeated_name() {
    let nodes = vec![node("a", &[], &[]), node("b", &[], &[]), node("a", &[], &[])];
    assert_eq!(find_node(&nodes, &s("a")), Some(2));
    assert_eq!(find_node(&nodes, &s("b")), Some(1));
}

#[test]
fn bypass_goes_from_producer_to_consumer() {
    let nodes = chain();
    assert_eq!(
        find_bypasses(&nodes, &names(&["B"])),
        Ok(vec![Bypass { producer: 0, consumer: 2 }])
    );
}

#[test]
fn bypass_adds_the_edge_between_the_neighbours() {
    let mut nodes = chain();
    let list = find_bypasses(&nodes, &names(&["B"])).unwrap();
    apply_bypasses(&mut nodes, &list);
    assert_eq!(
        nodes,
        vec![
            node("P", &["x"], &["B", "C"]),
            node("B", &["P"], &["C"]),
            node("C", &["B", "P"], &["y"]),
        ]
    );
}

#[test]
fn bypasses_come_in_the_order_of_the_nodes() {
    let nodes = vec![
        node("src", &[], &["a", "b"]),
        node("b", &["src"], &["sink"]),
        node("a", &["src"], &["sink"]),
        node("sink", &["a", "b"], &[]),
    ];
    let list = find_bypasses(&nodes, &names(&["a", "b"])).unwrap();
    assert_eq!(
        list,
        vec![Bypass { producer: 0, consumer: 3 }, Bypass { producer: 0, consumer: 3 }]
    );
    let mut linked = nodes.clone();
    apply_bypasses(&mut linked, &list);
    assert_eq!(linked[0], node("src", &[], &["a", "b", "sink", "sink"]));
    assert_eq!(linked[3], node("sink", &["a", "b", "src", "src"], &[]));
    assert_eq!(linked[1], nodes[1]);
    assert_eq!(linked[2], nodes[2]);
}

#[test]
fn apply_bypasses_appends_in_list_order() {
    let mut nodes = vec![node("a", &[], &[]), node("b", &[], &[]), node("c", &[], &[])];
    let list = vec![
        Bypass { producer: 0, consumer: 2 },
        Bypass { producer: 0, consumer: 1 },
        Bypass { producer: 1, consumer: 1 },
    ];
    apply_bypasses(&mut nodes, &list);
    assert_eq!(
        nodes,
        vec![node("a", &[], &["c", "b"]), node("b", &["a", "b"], &["b"]), node("c", &["a"], &[])]
    );
}

#[test]
fn apply_bypasses_with_none_changes_nothing() {
    let mut nodes = chain();
    apply_bypasses(&mut nodes, &vec![]);
    assert_eq!(nodes, chain());
}

#[test]
fn node_with_two_inputs_gets_no_bypass() {
    let nodes = vec![
        node("P", &[], &["B"]),
        node("Q", &[], &["B"]),
        node("B", &["P", "Q"], &["C"]),
        node("C", &["B"], &[]),
    ];
    let list = find_bypasses(&nodes, &names(&["B"])).unwrap();
    assert_eq!(list, vec![]);
    let mut linked = nodes.clone();
    apply_bypasses(&mut linked, &list);
    assert_eq!(linked, nodes);
}

#[test]
fn node_with_two_outputs_gets_no_bypass() {
    let nodes = vec![
        node("P", &[], &["B"]),
        node("B", &["P"], &["C", "D"]),
        node("C", &["B"], &[]),
        node("D", &["B"], &[]),
    ];
    let list = find_bypasses(&nodes, &names(&["B"])).unwrap();
    assert_eq!(list, vec![]);
    let mut linked = nodes.clone();
    apply_bypasses(&mut linked, &list);
    assert_eq!(linked, nodes);
}

#[test]
fn node_without_edges_gets_no_bypass() {
    let nodes = vec![node("B", &[], &[]), node("C", &["nowhere"], &[])];
    assert_eq!(find_bypasses(&nodes, &names(&["B", "C"])), Ok(vec![]));
}

#[test]
fn multi_edge_node_with_unknown_neighbours_does_not_fail() {
    let mut graph = graph_of(vec![node("B", &["u", "v"], &["B"])]);
    assert_eq!(excise(&mut graph, &names(&["B"])), Ok(()));
    assert_eq!(graph, graph_of(vec![node("B", &[], &["B"])]));
}

#[test]
fn unnamed_node_gets_no_bypass() {
    let nodes = chain();
    assert_eq!(find_bypasses(&nodes, &names(&["other"])), Ok(vec![]));
    assert_eq!(find_bypasses(&nodes, &vec![]), Ok(vec![]));
}

#[test]
fn unmatched_input_is_a_dangling_reference() {
    let nodes = vec![node("B", &["ghost"], &["C"]), node("C", &["B"], &[])];
    assert_eq!(find_bypasses(&nodes, &names(&["B"])), Err(Error::DanglingReference));
    let mut graph = graph_of(nodes.clone());
    assert_eq!(excise(&mut graph, &names(&["B"])), Err(Error::DanglingReference));
    assert_eq!(graph, graph_of(nodes));
}

#[test]
fn unmatched_output_is_a_dangling_reference() {
    let nodes = vec![node("P", &[], &["B"]), node("B", &["P"], &["ghost"])];
    assert_eq!(find_bypasses(&nodes, &names(&["B"])), Err(Error::DanglingReference));
    let mut graph = graph_of(nodes.clone());
    assert_eq!(excise(&mut graph, &names(&["B"])), Err(Error::DanglingReference));
    assert_eq!(graph, graph_of(nodes));
}

#[test]
fn dangling_reference_after_a_good_node_changes_nothing() {
    let nodes = vec![
        node("P", &["x"], &["B"]),
        node("B", &["P"], &["C"]),
        node("C", &["B"], &["y"]),
    ];
    let mut model = model_of(nodes.clone());
    assert_eq!(remove_ops(&mut model, names(&["B", "C"])), Err(Error::DanglingReference));
    assert_eq!(model, model_of(nodes));
}

#[test]
fn keep_named_keeps_order_and_repeats() {
    let kept = keep_named(names(&["c", "a", "x", "a", "b"]), &names(&["a", "b"]));
    assert_eq!(kept, names(&["a", "a", "b"]));
    assert_eq!(keep_named(names(&["a"]), &vec![]), names(&[]));
    assert_eq!(keep_named(vec![], &names(&["a"])), names(&[]));
}

#[test]
fn retain_named_keeps_the_named_nodes_in_order() {
    let mut nodes = vec![
        node("d", &["a", "z"], &["b"]),
        node("a", &["q"], &["d", "r", "b"]),
        node("c", &["a"], &["b"]),
        node("b", &["d", "c"], &[]),
    ];
    retain_named(&mut nodes, &names(&["b", "a", "d"]));
    assert_eq!(
        nodes,
        vec![node("d", &["a"], &["b"]), node("a", &[], &["d", "b"]), node("b", &["d"], &[])]
    );
}

#[test]
fn retain_named_keeps_the_payload() {
    let mut nodes = vec![
        Node { name: s("a"), input: vec![], output: vec![], payload: vec![1, 2] },
        Node { name: s("b"), input: vec![], output: vec![], payload: vec![3] },
    ];
    retain_named(&mut nodes, &names(&["b"]));
    assert_eq!(
        nodes,
        vec![Node { name: s("b"), input: vec![], output: vec![], payload: vec![3] }]
    );
}

#[test]
fn retain_named_with_no_names_leaves_nothing() {
    let mut nodes = chain();
    retain_named(&mut nodes, &vec![]);
    assert_eq!(nodes, vec![]);
}

#[test]
fn excise_leaves_the_named_nodes_with_edges_among_them() {
    let mut graph = graph_of(chain());
    assert_eq!(excise(&mut graph, &names(&["B"])), Ok(()));
    assert_eq!(graph, graph_of(vec![node("B", &[], &[])]));
}

#[test]
fn excise_keeps_bypass_edges_between_named_nodes() {
    let mut graph = graph_of(chain());
    assert_eq!(excise(&mut graph, &names(&["P", "B", "C"])), Err(Error::DanglingReference));
    assert_eq!(graph, graph_of(chain()));

    let closed =
        vec![node("P", &["C"], &["B"]), node("B", &["P"], &["C"]), node("C", &["B"], &["P"])];
    let mut graph = graph_of(closed);
    assert_eq!(excise(&mut graph, &names(&["P", "B", "C"])), Ok(()));
    assert_eq!(
        graph,
        graph_of(vec![
            node("P", &["C", "B"], &["B", "C"]),
            node("B", &["P", "C"], &["C", "P"]),
            node("C", &["B", "P"], &["P", "B"]),
        ])
    );
}

#[test]
fn excise_of_a_node_that_feeds_itself() {
    let mut graph = graph_of(vec![node("B", &["B"], &["B"]), node("C", &[], &[])]);
    assert_eq!(excise(&mut graph, &names(&["B"])), Ok(()));
    assert_eq!(graph, graph_of(vec![node("B", &["B", "B"], &["B", "B"])]));
}

#[test]
fn excise_resolves_a_repeated_name_to_its_last_node() {
    let nodes = vec![
        node("P", &[], &[]),
        node("B", &["P"], &["P"]),
        node("P", &[], &[]),
    ];
    assert_eq!(
        find_bypasses(&nodes, &names(&["B"])),
        Ok(vec![Bypass { producer: 2, consumer: 2 }])
    );
}

#[test]
fn excise_leaves_slots_and_constants() {
    let mut graph = graph_of(chain());
    let before = graph.clone();
    assert_eq!(excise(&mut graph, &names(&["C", "nothing"])), Err(Error::DanglingReference));
    assert_eq!(graph, before);
    assert_eq!(excise(&mut graph, &names(&["nothing"])), Ok(()));
    assert_eq!(graph.nodes, vec![]);
    assert_eq!(graph.initializers, before.initializers);
    assert_eq!(graph.inputs, before.inputs);
    assert_eq!(graph.outputs, before.outputs);
}

#[test]
fn remove_ops_edits_the_graph_of_the_model() {
    let mut model = model_of(chain());
    assert_eq!(remove_ops(&mut model, names(&["B"])), Ok(()));
    assert_eq!(model, model_of(vec![node("B", &[], &[])]));
}

#[test]
fn remove_ops_needs_a_graph() {
    let mut model = Model { doc_string: s("doc"), ir_version: 8, graph: None };
    assert_eq!(remove_ops(&mut model, names(&["B"])), Err(Error::MissingGraph));
    assert_eq!(model, Model { doc_string: s("doc"), ir_version: 8, graph: None });
}

#[test]
fn node_new_has_an_empty_payload() {
    let n = Node::new(s("a"), names(&["i"]), names(&["o"]));
    assert_eq!(
        n,
        Node { name: s("a"), input: names(&["i"]), output: names(&["o"]), payload: vec![] }
    );
}
