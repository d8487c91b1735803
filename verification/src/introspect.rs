//! Read-only queries: what a model declares, and which of its declared inputs
//! are fed at run time.

use vstd::prelude::*;
use crate::error::Error;
use crate::model::{
    nodes_of, slots_of, tensors_of, GraphView, Model, ModelView, NodeView, Tensor, TensorView,
    ValueInfoView,
};

verus! {

/// The abstract value of an [`Entry`].
pub ghost struct EntryView {
    pub index: int,
    pub name: Seq<char>,
}

/// A place in a sequence and the name found there.
#[derive(Clone, Debug, PartialEq, Eq)]
pub struct Entry {
    pub index: usize,
    pub name: String,
}

impl View for Entry {
    type V = EntryView;

    open spec fn view(&self) -> EntryView {
        EntryView { index: self.index as int, name: self.name@ }
    }
}

/// The values of a sequence of entries, in the same order.
pub open spec fn entries_of(entries: Seq<Entry>) -> Seq<EntryView> {
    entries.map_values(|e: Entry| e@)
}

/// The abstract value of a [`Report`].
pub ghost struct ReportView {
    pub doc_string: Seq<char>,
    pub ir_version: int,
    pub nodes: Seq<EntryView>,
    pub outputs: Seq<EntryView>,
}

/// What a model declares: its documentation string, the revision of its
/// format, and the place and name of each node and of each declared output.
#[derive(Clone, Debug, PartialEq, Eq)]
pub struct Report {
    pub doc_string: String,
    pub ir_version: i64,
    pub nodes: Vec<Entry>,
    pub outputs: Vec<Entry>,
}

impl View for Report {
    type V = ReportView;

    open spec fn view(&self) -> ReportView {
        ReportView {
            doc_string: self.doc_string@,
            ir_version: self.ir_version as int,
            nodes: entries_of(self.nodes@),
            outputs: entries_of(self.outputs@),
        }
    }
}

/// The abstract value of a [`DynamicInput`].
pub ghost struct DynamicInputView {
    pub index: int,
    pub name: Seq<char>,
    pub type_info: Option<Seq<u8>>,
}

/// A declared input that is fed at run time: its place among the declared
/// inputs, its name, and its descriptor where one was declared.
#[derive(Clone, Debug, PartialEq, Eq)]
pub struct DynamicInput {
    pub index: usize,
    pub name: String,
    pub type_info: Option<Vec<u8>>,
}

impl View for DynamicInput {
    type V = DynamicInputView;

    open spec fn view(&self) -> DynamicInputView {
        DynamicInputView {
            index: self.index as int,
            name: self.name@,
            type_info: match self.type_info {
                Some(t) => Some(t@),
                None => None,
            },
        }
    }
}

/// The values of a sequence of dynamic inputs, in the same order.
pub open spec fn dynamic_inputs_of(list: Seq<DynamicInput>) -> Seq<DynamicInputView> {
    list.map_values(|d: DynamicInput| d@)
}

/// Each node with its place.
pub open spec fn node_entries(nodes: Seq<NodeView>) -> Seq<EntryView> {
    Seq::new(nodes.len(), |i: int| EntryView { index: i, name: nodes[i].name })
}

/// Each slot with its place.
pub open spec fn slot_entries(slots: Seq<ValueInfoView>) -> Seq<EntryView> {
    Seq::new(slots.len(), |i: int| EntryView { index: i, name: slots[i].name })
}

/// The report on a model. Where the model has no graph, the report names no
/// node and no output.
pub open spec fn report_of(model: ModelView) -> ReportView {
    ReportView {
        doc_string: model.doc_string,
        ir_version: model.ir_version,
        nodes: match model.graph {
            Some(g) => node_entries(g.nodes),
            None => Seq::empty(),
        },
        outputs: match model.graph {
            Some(g) => slot_entries(g.outputs),
            None => Seq::empty(),
        },
    }
}

/// Whether `name` is the name of one of the constants.
pub open spec fn is_initializer(initializers: Seq<TensorView>, name: Seq<char>) -> bool {
    exists|k: int| 0 <= k < initializers.len() && (#[trigger] initializers[k]).name == name
}

/// Each declared input with its place, as a candidate for a dynamic input.
pub open spec fn input_candidates(inputs: Seq<ValueInfoView>) -> Seq<DynamicInputView> {
    Seq::new(
        inputs.len(),
        |i: int| DynamicInputView { index: i, name: inputs[i].name, type_info: inputs[i].type_info },
    )
}

/// Not being the name of a constant, as a predicate on candidates. Whether a
/// descriptor was declared plays no part.
pub open spec fn fed_at_run_time(initializers: Seq<TensorView>) -> spec_fn(
    DynamicInputView,
) -> bool {
    |d: DynamicInputView| !is_initializer(initializers, d.name)
}

/// The dynamic inputs of a graph: the declared inputs whose name is not the
/// name of a constant, in the order of declaration, each with the place it has
/// among all declared inputs.
pub open spec fn dynamic_inputs_in(graph: GraphView) -> Seq<DynamicInputView> {
    input_candidates(graph.inputs).filter(fed_at_run_time(graph.initializers))
}

/// A copy of `bytes`.
fn copy_bytes(bytes: &Vec<u8>) -> (copy: Vec<u8>)
    ensures
        copy@ == bytes@,
{
    let mut copy: Vec<u8> = Vec::new();
    let mut i: usize = 0;
    while i < bytes.len()
        invariant
            i <= bytes.len(),
            copy@ == bytes@.take(i as int),
        decreases bytes.len() - i,
    {
        copy.push(bytes[i]);
        proof {
            assert(copy@ =~= bytes@.take(i + 1));
        }
        i += 1;
    }
    proof {
        assert(bytes@.take(i as int) =~= bytes@);
    }
    copy
}

/// Whether `name` is the name of one of the constants.
pub fn names_initializer(initializers: &Vec<Tensor>, name: &String) -> (found: bool)
    ensures
        found == is_initializer(tensors_of(initializers@), name@),
{
    let mut k: usize = 0;
    while k < initializers.len()
        invariant
            k <= initializers.len(),
            forall|j: int| 0 <= j < k ==> (#[trigger] tensors_of(initializers@)[j]).name != name@,
        decreases initializers.len() - k,
    {
        if initializers[k].name == *name {
            assert(tensors_of(initializers@)[k as int].name == name@);
            return true;
        }
        k += 1;
    }
    false
}

/// Reports what the model declares. The model is only read.
pub fn describe(model: &Model) -> (report: Report)
    ensures
        report@ == report_of(model@),
{
    let mut nodes: Vec<Entry> = Vec::new();
    let mut outputs: Vec<Entry> = Vec::new();
    match &model.graph {
        Some(graph) => {
            let mut i: usize = 0;
            while i < graph.nodes.len()
                invariant
                    i <= graph.nodes.len(),
                    entries_of(nodes@) == node_entries(nodes_of(graph.nodes@)).take(i as int),
                decreases graph.nodes.len() - i,
            {
                let ghost before = nodes@;
                let entry = Entry { index: i, name: graph.nodes[i].name.clone() };
                nodes.push(entry);
                proof {
                    assert(entries_of(before.push(entry)) =~= entries_of(before).push(entry@));
                    assert(entries_of(nodes@) =~= node_entries(nodes_of(graph.nodes@)).take(i + 1));
                }
                i += 1;
            }
            let mut i: usize = 0;
            while i < graph.outputs.len()
                invariant
                    i <= graph.outputs.len(),
                    entries_of(outputs@) == slot_entries(slots_of(graph.outputs@)).take(i as int),
                decreases graph.outputs.len() - i,
            {
                let ghost before = outputs@;
                let entry = Entry { index: i, name: graph.outputs[i].name.clone() };
                outputs.push(entry);
                proof {
                    assert(entries_of(before.push(entry)) =~= entries_of(before).push(entry@));
                    assert(entries_of(outputs@) =~= slot_entries(slots_of(graph.outputs@)).take(
                        i + 1,
                    ));
                }
                i += 1;
            }
            proof {
                assert(entries_of(nodes@) =~= node_entries(nodes_of(graph.nodes@)));
                assert(entries_of(outputs@) =~= slot_entries(slots_of(graph.outputs@)));
            }
        },
        None => {
            proof {
                assert(entries_of(nodes@) =~= Seq::<EntryView>::empty());
                assert(entries_of(outputs@) =~= Seq::<EntryView>::empty());
            }
        },
    }
    Report { doc_string: model.doc_string.clone(), ir_version: model.ir_version, nodes, outputs }
}

/// Lists the declared inputs that are fed at run time: those whose name is
/// not the name of a constant, in the order of declaration, each with the
/// place it has among all declared inputs. An input without a descriptor is
/// listed like any other.
///
/// Fails with [`Error::MissingGraph`], and only then, where the model has no
/// graph.
pub fn dynamic_inputs(model: &Model) -> (found: Result<Vec<DynamicInput>, Error>)
    ensures
        match model@.graph {
            Some(g) => found is Ok && dynamic_inputs_of(found->Ok_0@) == dynamic_inputs_in(g),
            None => found == Err::<Vec<DynamicInput>, Error>(Error::MissingGraph),
        },
{
    match &model.graph {
        Some(graph) => {
            let ghost all = input_candidates(slots_of(graph.inputs@));
            let ghost pred = fed_at_run_time(tensors_of(graph.initializers@));
            let mut list: Vec<DynamicInput> = Vec::new();
            let mut i: usize = 0;
            proof {
                reveal(Seq::filter);
                assert(dynamic_inputs_of(list@) =~= all.take(0).filter(pred));
            }
            while i < graph.inputs.len()
                invariant
                    i <= graph.inputs.len(),
                    all == input_candidates(slots_of(graph.inputs@)),
                    pred == fed_at_run_time(tensors_of(graph.initializers@)),
                    dynamic_inputs_of(list@) == all.take(i as int).filter(pred),
                decreases graph.inputs.len() - i,
            {
                let slot = &graph.inputs[i];
                proof {
                    assert(all.take(i + 1) =~= all.take(i as int).push(all[i as int]));
                    all.take(i as int).lemma_filter_push(all[i as int], pred);
                }
                if !names_initializer(&graph.initializers, &slot.name) {
                    let type_info = match &slot.type_info {
                        Some(t) => Some(copy_bytes(t)),
                        None => None,
                    };
                    let ghost before = list@;
                    let item = DynamicInput { index: i, name: slot.name.clone(), type_info };
                    list.push(item);
                    proof {
                        assert(item@ == all[i as int]);
                        assert(dynamic_inputs_of(before.push(item)) =~= dynamic_inputs_of(
                            before,
                        ).push(item@));
                    }
                }
                i += 1;
            }
            proof {
                assert(all.take(i as int) =~= all);
            }
            Ok(list)
        },
        None => Err(Error::MissingGraph),
    }
}

} // verus!
