//! The graph model: a model, its graph, the graph's nodes and its declared
//! slots, each with the mathematical value that the contracts speak of.

use vstd::prelude::*;

verus! {

/// The names held by a sequence of strings, in the same order.
pub open spec fn names_of(strings: Seq<String>) -> Seq<Seq<char>> {
    strings.map_values(|s: String| s@)
}

/// The abstract value of a [`Node`].
pub ghost struct NodeView {
    pub name: Seq<char>,
    pub input: Seq<Seq<char>>,
    pub output: Seq<Seq<char>>,
    pub payload: Seq<u8>,
}

/// One computation step.
///
/// The strings in `input` and `output` name the step's neighbours. Whatever
/// else the step carries (its operator, its attributes) travels in `payload`
/// as opaque bytes: no operation reads or changes them.
#[derive(Clone, Debug, PartialEq, Eq)]
pub struct Node {
    pub name: String,
    pub input: Vec<String>,
    pub output: Vec<String>,
    pub payload: Vec<u8>,
}

impl View for Node {
    type V = NodeView;

    open spec fn view(&self) -> NodeView {
        NodeView {
            name: self.name@,
            input: names_of(self.input@),
            output: names_of(self.output@),
            payload: self.payload@,
        }
    }
}

impl Node {
    /// A node with the given name and neighbours and an empty payload.
    pub fn new(name: String, input: Vec<String>, output: Vec<String>) -> (node: Node)
        ensures
            node@ == (NodeView {
                name: name@,
                input: names_of(input@),
                output: names_of(output@),
                payload: Seq::<u8>::empty(),
            }),
    {
        Node { name, input, output, payload: Vec::new() }
    }
}

/// The abstract value of a [`Tensor`].
pub ghost struct TensorView {
    pub name: Seq<char>,
    pub payload: Seq<u8>,
}

/// A named constant tensor baked into the graph. Only the name matters to
/// the queries; the payload is carried along untouched.
#[derive(Clone, Debug, PartialEq, Eq)]
pub struct Tensor {
    pub name: String,
    pub payload: Vec<u8>,
}

impl View for Tensor {
    type V = TensorView;

    open spec fn view(&self) -> TensorView {
        TensorView { name: self.name@, payload: self.payload@ }
    }
}

/// The abstract value of a [`ValueInfo`].
pub ghost struct ValueInfoView {
    pub name: Seq<char>,
    pub type_info: Option<Seq<u8>>,
}

/// A declared input or output slot: a name and, where one was declared, an
/// opaque type and shape descriptor.
#[derive(Clone, Debug, PartialEq, Eq)]
pub struct ValueInfo {
    pub name: String,
    pub type_info: Option<Vec<u8>>,
}

impl View for ValueInfo {
    type V = ValueInfoView;

    open spec fn view(&self) -> ValueInfoView {
        ValueInfoView {
            name: self.name@,
            type_info: match self.type_info {
                Some(t) => Some(t@),
                None => None,
            },
        }
    }
}

/// The values of a sequence of nodes, in the same order.
pub open spec fn nodes_of(nodes: Seq<Node>) -> Seq<NodeView> {
    nodes.map_values(|n: Node| n@)
}

/// The values of a sequence of tensors, in the same order.
pub open spec fn tensors_of(tensors: Seq<Tensor>) -> Seq<TensorView> {
    tensors.map_values(|t: Tensor| t@)
}

/// The values of a sequence of slots, in the same order.
pub open spec fn slots_of(slots: Seq<ValueInfo>) -> Seq<ValueInfoView> {
    slots.map_values(|v: ValueInfo| v@)
}

/// The abstract value of a [`Graph`].
pub ghost struct GraphView {
    pub nodes: Seq<NodeView>,
    pub initializers: Seq<TensorView>,
    pub inputs: Seq<ValueInfoView>,
    pub outputs: Seq<ValueInfoView>,
}

/// The node sequence with the declared inputs, outputs and constants.
///
/// The order of `nodes` is the order of declaration and is kept by every
/// operation. Nothing here requires node names to be unique, the nodes to be
/// free of cycles, or a neighbour's name to belong to a node.
#[derive(Clone, Debug, PartialEq, Eq)]
pub struct Graph {
    pub nodes: Vec<Node>,
    pub initializers: Vec<Tensor>,
    pub inputs: Vec<ValueInfo>,
    pub outputs: Vec<ValueInfo>,
}

impl View for Graph {
    type V = GraphView;

    open spec fn view(&self) -> GraphView {
        GraphView {
            nodes: nodes_of(self.nodes@),
            initializers: tensors_of(self.initializers@),
            inputs: slots_of(self.inputs@),
            outputs: slots_of(self.outputs@),
        }
    }
}

/// The abstract value of a [`Model`].
pub ghost struct ModelView {
    pub doc_string: Seq<char>,
    pub ir_version: int,
    pub graph: Option<GraphView>,
}

/// The root: a documentation string, the revision of the format, and the
/// graph, if the model has one.
#[derive(Clone, Debug, PartialEq, Eq)]
pub struct Model {
    pub doc_string: String,
    pub ir_version: i64,
    pub graph: Option<Graph>,
}

impl View for Model {
    type V = ModelView;

    open spec fn view(&self) -> ModelView {
        ModelView {
            doc_string: self.doc_string@,
            ir_version: self.ir_version as int,
            graph: match self.graph {
                Some(g) => Some(g@),
                None => None,
            },
        }
    }
}

} // verus!
