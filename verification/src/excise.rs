//! Removal of named nodes: finding the bypass connections, linking the
//! neighbours, and cutting the node sequence and its edge lists down to the
//! given names.

use vstd::prelude::*;
use crate::error::Error;
use crate::model::{names_of, nodes_of, Graph, GraphView, Model, Node, NodeView};
use crate::names::{
    contains_name, find_node, has_node, index_of, lemma_index_of, name_set,
};

verus! {

/// The abstract value of a [`Bypass`].
pub ghost struct BypassView {
    pub producer: int,
    pub consumer: int,
}

/// A connection to make: the node at `producer` is to feed the node at
/// `consumer` directly.
#[derive(Clone, Copy, Debug, PartialEq, Eq, Structural)]
pub struct Bypass {
    pub producer: usize,
    pub consumer: usize,
}

impl View for Bypass {
    type V = BypassView;

    open spec fn view(&self) -> BypassView {
        BypassView { producer: self.producer as int, consumer: self.consumer as int }
    }
}

/// The values of a sequence of bypass connections, in the same order.
pub open spec fn bypasses_of(list: Seq<Bypass>) -> Seq<BypassView> {
    list.map_values(|b: Bypass| b@)
}

/// Whether a bypass is attempted for node `n`: it is named for removal and has
/// exactly one input and exactly one output.
pub open spec fn eligible(n: NodeView, names: Set<Seq<char>>) -> bool {
    names.contains(n.name) && n.input.len() == 1 && n.output.len() == 1
}

/// [`eligible`] as a predicate on nodes.
pub open spec fn eligible_in(names: Set<Seq<char>>) -> spec_fn(NodeView) -> bool {
    |n: NodeView| eligible(n, names)
}

/// Whether the single input and the single output of `n` are both names of
/// nodes.
pub open spec fn resolvable(nodes: Seq<NodeView>, n: NodeView) -> bool {
    has_node(nodes, n.input[0]) && has_node(nodes, n.output[0])
}

/// Whether some node for which a bypass is attempted names a neighbour that no
/// node is called.
pub open spec fn dangling(nodes: Seq<NodeView>, names: Set<Seq<char>>) -> bool {
    exists|i: int|
        0 <= i < nodes.len() && eligible(#[trigger] nodes[i], names) && !resolvable(nodes, nodes[i])
}

/// The bypass around `n`: from the node that its input names to the node that
/// its output names.
pub open spec fn bypass_around(nodes: Seq<NodeView>) -> spec_fn(NodeView) -> BypassView {
    |n: NodeView|
        BypassView {
            producer: index_of(nodes, n.input[0]),
            consumer: index_of(nodes, n.output[0]),
        }
}

/// The bypass connections for the removal of `names`: one around each node for
/// which a bypass is attempted, in the order of the nodes.
pub open spec fn bypasses(nodes: Seq<NodeView>, names: Set<Seq<char>>) -> Seq<BypassView> {
    nodes.filter(eligible_in(names)).map_values(bypass_around(nodes))
}

/// Whether both ends of every connection of `list` are places below `len`.
pub open spec fn within(list: Seq<BypassView>, len: nat) -> bool {
    forall|k: int|
        0 <= k < list.len() ==> 0 <= (#[trigger] list[k]).producer < len && 0 <= list[k].consumer
            < len
}

/// Finds the bypass connections for the removal of `names`.
///
/// Fails, and only then, where a node for which a bypass is attempted names a
/// neighbour that no node is called.
pub fn find_bypasses(nodes: &Vec<Node>, names: &Vec<String>) -> (found: Result<Vec<Bypass>, Error>)
    ensures
        match found {
            Ok(list) => {
                &&& !dangling(nodes_of(nodes@), name_set(names@))
                &&& bypasses_of(list@) == bypasses(nodes_of(nodes@), name_set(names@))
                &&& within(bypasses_of(list@), nodes@.len())
            },
            Err(e) => e == Error::DanglingReference && dangling(
                nodes_of(nodes@),
                name_set(names@),
            ),
        },
{
    let ghost all = nodes_of(nodes@);
    let ghost set = name_set(names@);
    let mut list: Vec<Bypass> = Vec::new();
    let mut i: usize = 0;
    proof {
        reveal(Seq::filter);
        assert(all.take(0).filter(eligible_in(set)) =~= Seq::<NodeView>::empty());
    }
    while i < nodes.len()
        invariant
            i <= nodes.len(),
            all == nodes_of(nodes@),
            set == name_set(names@),
            forall|j: int| 0 <= j < i && eligible(#[trigger] all[j], set) ==> resolvable(all, all[j]),
            bypasses_of(list@) == all.take(i as int).filter(eligible_in(set)).map_values(
                bypass_around(all),
            ),
            within(bypasses_of(list@), nodes@.len()),
        decreases nodes.len() - i,
    {
        let node = &nodes[i];
        let ghost seen = all.take(i as int);
        proof {
            assert(all.take(i + 1) =~= seen.push(all[i as int]));
            seen.lemma_filter_push(all[i as int], eligible_in(set));
            assert(node@ == all[i as int]);
        }
        if contains_name(names, &node.name) && node.input.len() == 1 && node.output.len() == 1 {
            let producer = find_node(nodes, &node.input[0]);
            let consumer = find_node(nodes, &node.output[0]);
            match (producer, consumer) {
                (Some(p), Some(c)) => {
                    proof {
                        lemma_index_of(all, node@.input[0], p as int);
                        lemma_index_of(all, node@.output[0], c as int);
                    }
                    let ghost before = bypasses_of(list@);
                    let bypass = Bypass { producer: p, consumer: c };
                    list.push(bypass);
                    proof {
                        assert(bypasses_of(list@) =~= before.push(bypass@));
                        assert(seen.filter(eligible_in(set)).push(all[i as int]).map_values(
                            bypass_around(all),
                        ) =~= seen.filter(eligible_in(set)).map_values(bypass_around(all)).push(
                            bypass@,
                        ));
                    }
                },
                _ => {
                    assert(eligible(all[i as int], set) && !resolvable(all, all[i as int]));
                    return Err(Error::DanglingReference);
                },
            }
        }
        i += 1;
    }
    proof {
        assert(all.take(i as int) =~= all);
    }
    Ok(list)
}

/// The connections of a list that start at place `k`.
pub open spec fn produced_by(k: int) -> spec_fn(BypassView) -> bool {
    |b: BypassView| b.producer == k
}

/// The connections of a list that end at place `k`.
pub open spec fn consumed_by(k: int) -> spec_fn(BypassView) -> bool {
    |b: BypassView| b.consumer == k
}

/// The name of the node at which a connection ends.
pub open spec fn consumer_name(nodes: Seq<NodeView>) -> spec_fn(BypassView) -> Seq<char> {
    |b: BypassView| nodes[b.consumer].name
}

/// The name of the node at which a connection starts.
pub open spec fn producer_name(nodes: Seq<NodeView>) -> spec_fn(BypassView) -> Seq<char> {
    |b: BypassView| nodes[b.producer].name
}

/// What the connections of `list` add to the outputs of the node at `k`: the
/// names of the nodes that it is to feed, in the order of the list.
pub open spec fn added_outputs(nodes: Seq<NodeView>, list: Seq<BypassView>, k: int) -> Seq<
    Seq<char>,
> {
    list.filter(produced_by(k)).map_values(consumer_name(nodes))
}

/// What the connections of `list` add to the inputs of the node at `k`: the
/// names of the nodes that are to feed it, in the order of the list.
pub open spec fn added_inputs(nodes: Seq<NodeView>, list: Seq<BypassView>, k: int) -> Seq<
    Seq<char>,
> {
    list.filter(consumed_by(k)).map_values(producer_name(nodes))
}

/// The node at `k` once the connections of `list` are made: its edge lists
/// grow at the end, and nothing else changes.
pub open spec fn connected_node(nodes: Seq<NodeView>, list: Seq<BypassView>, k: int) -> NodeView {
    NodeView {
        name: nodes[k].name,
        input: nodes[k].input + added_inputs(nodes, list, k),
        output: nodes[k].output + added_outputs(nodes, list, k),
        payload: nodes[k].payload,
    }
}

/// The nodes once the connections of `list` are made. The new edges carry the
/// names of the nodes that they join.
pub open spec fn connected(nodes: Seq<NodeView>, list: Seq<BypassView>) -> Seq<NodeView> {
    Seq::new(nodes.len(), |k: int| connected_node(nodes, list, k))
}

/// With no connection to make, the nodes stay as they are.
pub proof fn lemma_connected_nothing(nodes: Seq<NodeView>)
    ensures
        connected(nodes, Seq::<BypassView>::empty()) == nodes,
{
    reveal(Seq::filter);
    let none = Seq::<BypassView>::empty();
    assert forall|k: int| 0 <= k < nodes.len() implies connected_node(nodes, none, k)
        == nodes[k] by {
        assert(added_inputs(nodes, none, k) =~= Seq::<Seq<char>>::empty());
        assert(added_outputs(nodes, none, k) =~= Seq::<Seq<char>>::empty());
        assert(nodes[k].input + Seq::<Seq<char>>::empty() =~= nodes[k].input);
        assert(nodes[k].output + Seq::<Seq<char>>::empty() =~= nodes[k].output);
    }
    assert(connected(nodes, none) =~= nodes);
}

/// One more connection at the end of a list adds one name to the outputs of
/// its producer and one to the inputs of its consumer, and nothing elsewhere.
proof fn lemma_connected_push(nodes: Seq<NodeView>, list: Seq<BypassView>, b: BypassView, k: int)
    ensures
        added_outputs(nodes, list.push(b), k) == if b.producer == k {
            added_outputs(nodes, list, k).push(nodes[b.consumer].name)
        } else {
            added_outputs(nodes, list, k)
        },
        added_inputs(nodes, list.push(b), k) == if b.consumer == k {
            added_inputs(nodes, list, k).push(nodes[b.producer].name)
        } else {
            added_inputs(nodes, list, k)
        },
{
    list.lemma_filter_push(b, produced_by(k));
    list.lemma_filter_push(b, consumed_by(k));
    if b.producer == k {
        assert(list.filter(produced_by(k)).push(b).map_values(consumer_name(nodes))
            =~= list.filter(produced_by(k)).map_values(consumer_name(nodes)).push(
            nodes[b.consumer].name,
        ));
    }
    if b.consumer == k {
        assert(list.filter(consumed_by(k)).push(b).map_values(producer_name(nodes))
            =~= list.filter(consumed_by(k)).map_values(producer_name(nodes)).push(
            nodes[b.producer].name,
        ));
    }
}

/// Appends `name` to the outputs of the node at `k`.
fn push_output(nodes: &mut Vec<Node>, k: usize, name: String)
    requires
        k < old(nodes)@.len(),
    ensures
        final(nodes)@.len() == old(nodes)@.len(),
        nodes_of(final(nodes)@) == nodes_of(old(nodes)@).update(
            k as int,
            NodeView {
                output: nodes_of(old(nodes)@)[k as int].output.push(name@),
                ..nodes_of(old(nodes)@)[k as int]
            },
        ),
{
    let ghost before = nodes[k as int].output@;
    nodes[k].output.push(name);
    proof {
        assert(names_of(before.push(name)) =~= names_of(before).push(name@));
        assert(nodes_of(nodes@) =~= nodes_of(old(nodes)@).update(
            k as int,
            NodeView {
                output: nodes_of(old(nodes)@)[k as int].output.push(name@),
                ..nodes_of(old(nodes)@)[k as int]
            },
        ));
    }
}

/// Appends `name` to the inputs of the node at `k`.
fn push_input(nodes: &mut Vec<Node>, k: usize, name: String)
    requires
        k < old(nodes)@.len(),
    ensures
        final(nodes)@.len() == old(nodes)@.len(),
        nodes_of(final(nodes)@) == nodes_of(old(nodes)@).update(
            k as int,
            NodeView {
                input: nodes_of(old(nodes)@)[k as int].input.push(name@),
                ..nodes_of(old(nodes)@)[k as int]
            },
        ),
{
    let ghost before = nodes[k as int].input@;
    nodes[k].input.push(name);
    proof {
        assert(names_of(before.push(name)) =~= names_of(before).push(name@));
        assert(nodes_of(nodes@) =~= nodes_of(old(nodes)@).update(
            k as int,
            NodeView {
                input: nodes_of(old(nodes)@)[k as int].input.push(name@),
                ..nodes_of(old(nodes)@)[k as int]
            },
        ));
    }
}

/// Makes the connections of `list`, in order: for each, the consumer's name is
/// appended to the producer's outputs and the producer's name to the
/// consumer's inputs.
pub fn apply_bypasses(nodes: &mut Vec<Node>, list: &Vec<Bypass>)
    requires
        within(bypasses_of(list@), old(nodes)@.len()),
    ensures
        nodes_of(final(nodes)@) == connected(nodes_of(old(nodes)@), bypasses_of(list@)),
{
    let ghost initial = nodes_of(nodes@);
    let ghost all = bypasses_of(list@);
    let mut j: usize = 0;
    proof {
        assert(all.take(0) =~= Seq::<BypassView>::empty());
        lemma_connected_nothing(initial);
    }
    while j < list.len()
        invariant
            j <= list.len(),
            all == bypasses_of(list@),
            within(all, initial.len()),
            nodes@.len() == initial.len(),
            nodes_of(nodes@) == connected(initial, all.take(j as int)),
        decreases list.len() - j,
    {
        let bypass = list[j];
        let ghost done = all.take(j as int);
        let ghost b = all[j as int];
        assert(b == bypass@);
        let ghost mid = nodes_of(nodes@);
        let name = nodes[bypass.consumer].name.clone();
        assert(name@ == mid[b.consumer].name);
        push_output(nodes, bypass.producer, name);
        let ghost half = nodes_of(nodes@);
        let name = nodes[bypass.producer].name.clone();
        assert(name@ == half[b.producer].name);
        push_input(nodes, bypass.consumer, name);
        proof {
            assert(all.take(j + 1) =~= done.push(b));
            assert forall|k: int| 0 <= k < initial.len() implies nodes_of(nodes@)[k]
                == connected_node(initial, done.push(b), k) by {
                lemma_connected_push(initial, done, b, k);
                assert(mid[k] == connected_node(initial, done, k));
                assert(mid[b.consumer] == connected_node(initial, done, b.consumer));
                assert(mid[b.producer] == connected_node(initial, done, b.producer));
                if b.producer == k {
                    assert(initial[k].output + added_outputs(initial, done, k).push(
                        initial[b.consumer].name,
                    ) =~= (initial[k].output + added_outputs(initial, done, k)).push(
                        initial[b.consumer].name,
                    ));
                }
                if b.consumer == k {
                    assert(initial[k].input + added_inputs(initial, done, k).push(initial[b.producer].name)
                        =~= (initial[k].input + added_inputs(initial, done, k)).push(
                        initial[b.producer].name,
                    ));
                }
            }
            assert(nodes_of(nodes@) =~= connected(initial, all.take(j + 1)));
        }
        j += 1;
    }
    proof {
        assert(all.take(j as int) =~= all);
    }
}

/// Membership in `names` as a predicate on names.
pub open spec fn in_names(names: Set<Seq<char>>) -> spec_fn(Seq<char>) -> bool {
    |s: Seq<char>| names.contains(s)
}

/// Being called one of `names` as a predicate on nodes.
pub open spec fn named_in(names: Set<Seq<char>>) -> spec_fn(NodeView) -> bool {
    |n: NodeView| names.contains(n.name)
}

/// A node with its edge lists cut down to the entries that are among `names`.
pub open spec fn restricted_to(names: Set<Seq<char>>) -> spec_fn(NodeView) -> NodeView {
    |n: NodeView|
        NodeView {
            name: n.name,
            input: n.input.filter(in_names(names)),
            output: n.output.filter(in_names(names)),
            payload: n.payload,
        }
}

/// The nodes that are called one of `names`, in their order, each with its
/// edge lists cut down to the entries that are among `names`.
///
/// The nodes that stay are the named ones, and the edges that stay are those
/// to named nodes: the rest of the graph is what goes.
pub open spec fn retained(nodes: Seq<NodeView>, names: Set<Seq<char>>) -> Seq<NodeView> {
    nodes.filter(named_in(names)).map_values(restricted_to(names))
}

/// The node sequence after the removal of `names`: the bypass connections are
/// made, then the sequence and its edge lists are cut down to `names`.
pub open spec fn excised(nodes: Seq<NodeView>, names: Set<Seq<char>>) -> Seq<NodeView> {
    retained(connected(nodes, bypasses(nodes, names)), names)
}

/// The entries of `list` that are among `names`, in their order.
pub fn keep_named(list: Vec<String>, names: &Vec<String>) -> (kept: Vec<String>)
    ensures
        names_of(kept@) == names_of(list@).filter(in_names(name_set(names@))),
{
    let ghost all = names_of(list@);
    let ghost pred = in_names(name_set(names@));
    let mut kept: Vec<String> = Vec::new();
    proof {
        reveal(Seq::filter);
        assert(names_of(kept@) =~= all.take(0).filter(pred));
    }
    for entry in iter: list
        invariant
            iter.seq() == list@,
            all == names_of(list@),
            pred == in_names(name_set(names@)),
            names_of(kept@) == all.take(iter.index() as int).filter(pred),
    {
        let ghost i = iter.index() as int;
        proof {
            assert(all.take(i + 1) =~= all.take(i).push(entry@));
            all.take(i).lemma_filter_push(entry@, pred);
        }
        if contains_name(names, &entry) {
            let ghost before = kept@;
            kept.push(entry);
            proof {
                assert(names_of(before.push(entry)) =~= names_of(before).push(entry@));
            }
        }
    }
    proof {
        assert(all.take(list@.len() as int) =~= all);
    }
    kept
}

/// Cuts the node sequence down to the nodes that are called one of `names`,
/// and the edge lists of those down to the entries that are among `names`.
/// The nodes that stay keep their order.
pub fn retain_named(nodes: &mut Vec<Node>, names: &Vec<String>)
    ensures
        nodes_of(final(nodes)@) == retained(nodes_of(old(nodes)@), name_set(names@)),
{
    let ghost set = name_set(names@);
    let mut all: Vec<Node> = Vec::new();
    std::mem::swap(nodes, &mut all);
    let ghost initial = nodes_of(all@);
    proof {
        reveal(Seq::filter);
        assert(nodes_of(nodes@) =~= initial.take(0).filter(named_in(set)).map_values(
            restricted_to(set),
        ));
    }
    for node in iter: all
        invariant
            iter.seq() == all@,
            initial == nodes_of(all@),
            set == name_set(names@),
            nodes_of(nodes@) == initial.take(iter.index() as int).filter(named_in(set)).map_values(
                restricted_to(set),
            ),
    {
        let ghost i = iter.index() as int;
        let ghost seen = initial.take(i);
        proof {
            assert(node@ == initial[i]);
            assert(initial.take(i + 1) =~= seen.push(node@));
            seen.lemma_filter_push(node@, named_in(set));
        }
        if contains_name(names, &node.name) {
            let ghost before = nodes@;
            let Node { name, input, output, payload } = node;
            let kept = Node {
                name,
                input: keep_named(input, names),
                output: keep_named(output, names),
                payload,
            };
            nodes.push(kept);
            proof {
                assert(kept@ == restricted_to(set)(node@));
                assert(nodes_of(before.push(kept)) =~= nodes_of(before).push(kept@));
                assert(seen.filter(named_in(set)).push(node@).map_values(restricted_to(set))
                    =~= seen.filter(named_in(set)).map_values(restricted_to(set)).push(kept@));
            }
        }
    }
    proof {
        assert(initial.take(all@.len() as int) =~= initial);
    }
}

/// Removes `names` from the graph: finds the bypass connections, makes them,
/// and cuts the node sequence and its edge lists down to `names`.
///
/// What stays is the named nodes, in their order, with the edges among them;
/// every other node, and every edge to one, goes.
///
/// Fails with [`Error::DanglingReference`], and only then, where a node for
/// which a bypass is attempted names a neighbour that no node is called; the
/// graph is then as it was. The declared inputs, outputs and constants are
/// never touched.
pub fn excise(graph: &mut Graph, names: &Vec<String>) -> (done: Result<(), Error>)
    ensures
        match done {
            Ok(_) => {
                &&& !dangling(old(graph)@.nodes, name_set(names@))
                &&& final(graph)@ == (GraphView {
                    nodes: excised(old(graph)@.nodes, name_set(names@)),
                    ..old(graph)@
                })
                &&& final(graph).initializers == old(graph).initializers
                &&& final(graph).inputs == old(graph).inputs
                &&& final(graph).outputs == old(graph).outputs
            },
            Err(e) => {
                &&& e == Error::DanglingReference
                &&& dangling(old(graph)@.nodes, name_set(names@))
                &&& *final(graph) == *old(graph)
            },
        },
{
    match find_bypasses(&graph.nodes, names) {
        Ok(list) => {
            apply_bypasses(&mut graph.nodes, &list);
            retain_named(&mut graph.nodes, names);
            Ok(())
        },
        Err(e) => Err(e),
    }
}

/// Removes the nodes `ops` from the model's graph, as [`excise`] does.
///
/// Fails with [`Error::MissingGraph`] where the model has no graph, and with
/// [`Error::DanglingReference`] where [`excise`] does; the model is then as it
/// was. Nothing but the graph's node sequence is ever changed.
pub fn remove_ops(model: &mut Model, ops: Vec<String>) -> (done: Result<(), Error>)
    ensures
        final(model).doc_string == old(model).doc_string,
        final(model).ir_version == old(model).ir_version,
        match old(model)@.graph {
            None => done == Err::<(), Error>(Error::MissingGraph) && *final(model) == *old(model),
            Some(g) => if dangling(g.nodes, name_set(ops@)) {
                done == Err::<(), Error>(Error::DanglingReference) && *final(model) == *old(model)
            } else {
                &&& done is Ok
                &&& final(model)@.graph == Some(
                    GraphView { nodes: excised(g.nodes, name_set(ops@)), ..g },
                )
            },
        },
{
    match &mut model.graph {
        Some(graph) => excise(graph, &ops),
        None => Err(Error::MissingGraph),
    }
}

} // verus!
