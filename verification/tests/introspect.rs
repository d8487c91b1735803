use onnx_edit::{
    describe, dynamic_inputs, names_initializer, DynamicInput, Entry, Error, Graph, Model, Node,
    Report, Tensor, ValueInfo,
};

fn s(text: &str) -> String {
    text.to_string()
}

fn slot(name: &str, type_info: Option<Vec<u8>>) -> ValueInfo {
    ValueInfo { name: s(name), type_info }
}

fn constant(name: &str) -> Tensor {
    Tensor { name: s(name), payload: vec![1, 2, 3] }
}

fn model_with(graph: Option<Graph>) -> Model {
    Model { doc_string: s("a small model"), ir_version: 7, graph }
}

fn sample_graph() -> Graph {
    Graph {
        nodes: vec![
            Node::new(s("conv"), vec![s("x"), s("w")], vec![s("relu")]),
            Node::new(s("relu"), vec![s("conv")], vec![s("y")]),
        ],
        initializers: vec![constant("w")],
        inputs: vec![slot("x", Some(vec![10])), slot("w", Some(vec![20]))],
        outputs: vec![slot("y", None), slot("z", Some(vec![30]))],
    }
}

#[test]
fn describe_lists_nodes_and_outputs_with_their_places() {
    let report = describe(&model_with(Some(sample_graph())));
    assert_eq!(
        report,
        Report {
            doc_string: s("a small model"),
            ir_version: 7,
            nodes: vec![
                Entry { index: 0, name: s("conv") },
                Entry { index: 1, name: s("relu") },
            ],
            outputs: vec![Entry { index: 0, name: s("y") }, Entry { index: 1, name: s("z") }],
        }
    );
}

#[test]
fn describe_without_graph_names_nothing() {
    let report = describe(&model_with(None));
    assert_eq!(
        report,
        Report { doc_string: s("a small model"), ir_version: 7, nodes: vec![], outputs: vec![] }
    );
}

#[test]
fn describe_twice_gives_the_same_report_and_leaves_the_model() {
    let model = model_with(Some(sample_graph()));
    let before = model.clone();
    let first = describe(&model);
    let second = describe(&model);
    assert_eq!(first, second);
    assert_eq!(model, before);
}

#[test]
fn dynamic_inputs_twice_gives_the_same_list() {
    let model = model_with(Some(sample_graph()));
    let before = model.clone();
    assert_eq!(dynamic_inputs(&model), dynamic_inputs(&model));
    assert_eq!(model, before);
}

#[test]
fn dynamic_inputs_leave_out_the_constants() {
    let found = dynamic_inputs(&model_with(Some(sample_graph())));
    assert_eq!(
        found,
        Ok(vec![DynamicInput { index: 0, name: s("x"), type_info: Some(vec![10]) }])
    );
}

#[test]
fn dynamic_inputs_keep_the_place_among_all_inputs() {
    let mut graph = sample_graph();
    graph.inputs = vec![
        slot("w", Some(vec![20])),
        slot("x", Some(vec![10])),
        slot("b", None),
        slot("mask", Some(vec![40, 41])),
    ];
    graph.initializers = vec![constant("b"), constant("w")];
    let found = dynamic_inputs(&model_with(Some(graph)));
    assert_eq!(
        found,
        Ok(vec![
            DynamicInput { index: 1, name: s("x"), type_info: Some(vec![10]) },
            DynamicInput { index: 3, name: s("mask"), type_info: Some(vec![40, 41]) },
        ])
    );
}

#[test]
fn dynamic_inputs_list_an_input_without_descriptor() {
    let mut graph = sample_graph();
    graph.inputs = vec![slot("x", None), slot("w", None)];
    let found = dynamic_inputs(&model_with(Some(graph)));
    assert_eq!(found, Ok(vec![DynamicInput { index: 0, name: s("x"), type_info: None }]));
}

#[test]
fn dynamic_inputs_without_constants_are_all_inputs() {
    let mut graph = sample_graph();
    graph.initializers = vec![];
    let found = dynamic_inputs(&model_with(Some(graph)));
    assert_eq!(
        found,
        Ok(vec![
            DynamicInput { index: 0, name: s("x"), type_info: Some(vec![10]) },
            DynamicInput { index: 1, name: s("w"), type_info: Some(vec![20]) },
        ])
    );
}

#[test]
fn dynamic_inputs_of_no_inputs_are_none() {
    let mut graph = sample_graph();
    graph.inputs = vec![];
    assert_eq!(dynamic_inputs(&model_with(Some(graph))), Ok(vec![]));
}

#[test]
fn dynamic_inputs_need_a_graph() {
    let model = model_with(None);
    let before = model.clone();
    assert_eq!(dynamic_inputs(&model), Err(Error::MissingGraph));
    assert_eq!(model, before);
}

#[test]
fn names_initializer_goes_by_the_name_alone() {
    let constants = vec![constant("w"), constant("b")];
    assert!(names_initializer(&constants, &s("b")));
    assert!(names_initializer(&constants, &s("w")));
    assert!(!names_initializer(&constants, &s("x")));
    assert!(!names_initializer(&constants, &s("")));
    assert!(!names_initializer(&vec![], &s("w")));
}
