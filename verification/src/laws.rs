//! What holds of the queries and of the removal on every graph.

use vstd::prelude::*;
use crate::excise::{
    added_inputs, added_outputs, bypass_around, bypasses, connected, connected_node, consumed_by,
    dangling, eligible, eligible_in, excised, in_names, lemma_connected_nothing, named_in,
    produced_by, resolvable, restricted_to, retained, BypassView,
};
use crate::introspect::{
    dynamic_inputs_in, fed_at_run_time, input_candidates, is_initializer, DynamicInputView,
};
use crate::model::{GraphView, NodeView};
use crate::names::{has_node, index_of, is_last_named, lemma_index_of_exists};

verus! {

/// A dynamic input is exactly a declared input whose name is not the name of
/// a constant, with the place it has among the declared inputs; whether it
/// has a descriptor plays no part.
pub proof fn lemma_dynamic_inputs_exact(graph: GraphView, d: DynamicInputView)
    ensures
        dynamic_inputs_in(graph).contains(d) <==> {
            &&& 0 <= d.index < graph.inputs.len()
            &&& d.name == graph.inputs[d.index].name
            &&& d.type_info == graph.inputs[d.index].type_info
            &&& !is_initializer(graph.initializers, d.name)
        },
{
    let all = input_candidates(graph.inputs);
    let pred = fed_at_run_time(graph.initializers);
    if dynamic_inputs_in(graph).contains(d) {
        let k = choose|k: int| 0 <= k < all.filter(pred).len() && all.filter(pred)[k] == d;
        all.lemma_filter_pred(pred, k);
        all.lemma_filter_contains_rev(pred, d);
        let i = choose|i: int| 0 <= i < all.len() && all[i] == d;
        assert(d.index == i);
    }
    if 0 <= d.index < graph.inputs.len() && d.name == graph.inputs[d.index].name && d.type_info
        == graph.inputs[d.index].type_info && !is_initializer(graph.initializers, d.name) {
        assert(all[d.index] == d);
        all.lemma_filter_contains(pred, d.index);
    }
}

/// Filtering keeps a strictly rising key strictly rising.
proof fn lemma_filter_rising(
    all: Seq<DynamicInputView>,
    pred: spec_fn(DynamicInputView) -> bool,
)
    requires
        forall|i: int| 0 <= i < all.len() ==> (#[trigger] all[i]).index == i,
    ensures
        forall|a: int, b: int|
            0 <= a < b < all.filter(pred).len() ==> (#[trigger] all.filter(pred)[a]).index < (
            #[trigger] all.filter(pred)[b]).index,
        forall|a: int|
            0 <= a < all.filter(pred).len() ==> 0 <= (#[trigger] all.filter(pred)[a]).index
                < all.len(),
    decreases all.len(),
{
    reveal(Seq::filter);
    if all.len() > 0 {
        let front = all.drop_last();
        lemma_filter_rising(front, pred);
        let kept = front.filter(pred);
        assert forall|a: int, b: int| 0 <= a < b < all.filter(pred).len() implies (
        #[trigger] all.filter(pred)[a]).index < (#[trigger] all.filter(pred)[b]).index by {
            if b < kept.len() {
                assert(all.filter(pred)[a] == kept[a]);
                assert(all.filter(pred)[b] == kept[b]);
            } else {
                assert(all.filter(pred)[a] == kept[a]);
                assert(all.filter(pred)[b] == all.last());
            }
        }
    }
}

/// The dynamic inputs come in the order of declaration: their places among
/// the declared inputs rise strictly.
pub proof fn lemma_dynamic_inputs_ordered(graph: GraphView, a: int, b: int)
    requires
        0 <= a < b < dynamic_inputs_in(graph).len(),
    ensures
        dynamic_inputs_in(graph)[a].index < dynamic_inputs_in(graph)[b].index,
{
    lemma_filter_rising(input_candidates(graph.inputs), fed_at_run_time(graph.initializers));
}

/// A node for which a bypass is attempted, and whose single input matches no
/// node's name, makes the removal fail; so does one whose single output
/// matches none.
pub proof fn lemma_unmatched_neighbour_dangles(
    nodes: Seq<NodeView>,
    names: Set<Seq<char>>,
    i: int,
)
    requires
        0 <= i < nodes.len(),
        eligible(nodes[i], names),
        !has_node(nodes, nodes[i].input[0]) || !has_node(nodes, nodes[i].output[0]),
    ensures
        dangling(nodes, names),
{
    assert(eligible(nodes[i], names) && !resolvable(nodes, nodes[i]));
}

/// Every bypass connection is the one around some node that is named for
/// removal and has exactly one input and one output: a named node with more
/// or fewer edges on either side causes none.
pub proof fn lemma_bypass_has_cause(nodes: Seq<NodeView>, names: Set<Seq<char>>, k: int)
    requires
        0 <= k < bypasses(nodes, names).len(),
    ensures
        exists|i: int|
            0 <= i < nodes.len() && eligible(#[trigger] nodes[i], names) && bypasses(
                nodes,
                names,
            )[k] == bypass_around(nodes)(nodes[i]),
{
    let picked = nodes.filter(eligible_in(names));
    nodes.lemma_filter_pred(eligible_in(names), k);
    assert(picked.contains(picked[k]));
    nodes.lemma_filter_contains_rev(eligible_in(names), picked[k]);
    let i = choose|i: int| 0 <= i < nodes.len() && nodes[i] == picked[k];
    assert(eligible(nodes[i], names));
}

/// Every entry that the removal adds to a node's outputs is owed to a node
/// that is named for removal, has exactly one input and one output, and names
/// the first node as its input: the entry is the name of the node that its
/// output stands for.
pub proof fn lemma_added_output_has_cause(
    nodes: Seq<NodeView>,
    names: Set<Seq<char>>,
    k: int,
    e: int,
)
    requires
        0 <= e < added_outputs(nodes, bypasses(nodes, names), k).len(),
    ensures
        exists|i: int|
            0 <= i < nodes.len() && eligible(#[trigger] nodes[i], names) && index_of(
                nodes,
                nodes[i].input[0],
            ) == k && added_outputs(nodes, bypasses(nodes, names), k)[e] == nodes[index_of(
                nodes,
                nodes[i].output[0],
            )].name,
{
    let list = bypasses(nodes, names);
    let from = list.filter(produced_by(k));
    list.lemma_filter_pred(produced_by(k), e);
    assert(from.contains(from[e]));
    list.lemma_filter_contains_rev(produced_by(k), from[e]);
    let j = choose|j: int| 0 <= j < list.len() && list[j] == from[e];
    lemma_bypass_has_cause(nodes, names, j);
    let i = choose|i: int|
        0 <= i < nodes.len() && eligible(#[trigger] nodes[i], names) && list[j] == bypass_around(
            nodes,
        )(nodes[i]);
    assert(eligible(nodes[i], names));
}

/// Every entry that the removal adds to a node's inputs is owed to a node
/// that is named for removal, has exactly one input and one output, and names
/// the first node as its output: the entry is the name of the node that its
/// input stands for.
pub proof fn lemma_added_input_has_cause(
    nodes: Seq<NodeView>,
    names: Set<Seq<char>>,
    k: int,
    e: int,
)
    requires
        0 <= e < added_inputs(nodes, bypasses(nodes, names), k).len(),
    ensures
        exists|i: int|
            0 <= i < nodes.len() && eligible(#[trigger] nodes[i], names) && index_of(
                nodes,
                nodes[i].output[0],
            ) == k && added_inputs(nodes, bypasses(nodes, names), k)[e] == nodes[index_of(
                nodes,
                nodes[i].input[0],
            )].name,
{
    let list = bypasses(nodes, names);
    let to = list.filter(consumed_by(k));
    list.lemma_filter_pred(consumed_by(k), e);
    assert(to.contains(to[e]));
    list.lemma_filter_contains_rev(consumed_by(k), to[e]);
    let j = choose|j: int| 0 <= j < list.len() && list[j] == to[e];
    lemma_bypass_has_cause(nodes, names, j);
    let i = choose|i: int|
        0 <= i < nodes.len() && eligible(#[trigger] nodes[i], names) && list[j] == bypass_around(
            nodes,
        )(nodes[i]);
    assert(eligible(nodes[i], names));
}

/// Where no named node has exactly one input and one output, there is no
/// bypass connection, no edge list gains an entry, and the removal only cuts
/// the graph down.
pub proof fn lemma_no_bypass_without_single_edges(nodes: Seq<NodeView>, names: Set<Seq<char>>)
    requires
        forall|i: int|
            0 <= i < nodes.len() && names.contains((#[trigger] nodes[i]).name) ==> nodes[i].input.len()
                != 1 || nodes[i].output.len() != 1,
    ensures
        bypasses(nodes, names) == Seq::<BypassView>::empty(),
        connected(nodes, bypasses(nodes, names)) == nodes,
        excised(nodes, names) == retained(nodes, names),
{
    let list = bypasses(nodes, names);
    if list.len() > 0 {
        lemma_bypass_has_cause(nodes, names, 0);
    }
    assert(list =~= Seq::<BypassView>::empty());
    lemma_connected_nothing(nodes);
}

/// Making connections changes no name and no payload, drops no node, and only
/// lengthens edge lists at their end.
pub proof fn lemma_connected_extends(nodes: Seq<NodeView>, list: Seq<BypassView>, k: int)
    requires
        0 <= k < nodes.len(),
    ensures
        connected(nodes, list).len() == nodes.len(),
        connected(nodes, list)[k].name == nodes[k].name,
        connected(nodes, list)[k].payload == nodes[k].payload,
        nodes[k].input.is_prefix_of(connected(nodes, list)[k].input),
        nodes[k].output.is_prefix_of(connected(nodes, list)[k].output),
{
    let after = connected(nodes, list)[k];
    assert(after.input.subrange(0, nodes[k].input.len() as int) =~= nodes[k].input);
    assert(after.output.subrange(0, nodes[k].output.len() as int) =~= nodes[k].output);
}

/// Where the removal does not fail, the bypass around a node with exactly one
/// input and one output links its neighbours: the node that its input names
/// gains the name of the node that its output names among its outputs, and
/// that node gains the name of the first among its inputs.
pub proof fn lemma_bypass_links_neighbours(nodes: Seq<NodeView>, names: Set<Seq<char>>, i: int)
    requires
        0 <= i < nodes.len(),
        eligible(nodes[i], names),
        !dangling(nodes, names),
    ensures
        ({
            let p = index_of(nodes, nodes[i].input[0]);
            let c = index_of(nodes, nodes[i].output[0]);
            let linked = connected(nodes, bypasses(nodes, names));
            &&& is_last_named(nodes, nodes[i].input[0], p)
            &&& is_last_named(nodes, nodes[i].output[0], c)
            &&& added_outputs(nodes, bypasses(nodes, names), p).contains(nodes[c].name)
            &&& added_inputs(nodes, bypasses(nodes, names), c).contains(nodes[p].name)
            &&& linked[p].output.contains(nodes[c].name)
            &&& linked[c].input.contains(nodes[p].name)
        }),
{
    let p = index_of(nodes, nodes[i].input[0]);
    let c = index_of(nodes, nodes[i].output[0]);
    let list = bypasses(nodes, names);
    let b = bypass_around(nodes)(nodes[i]);
    assert(resolvable(nodes, nodes[i]));
    lemma_index_of_exists(nodes, nodes[i].input[0]);
    lemma_index_of_exists(nodes, nodes[i].output[0]);

    let picked = nodes.filter(eligible_in(names));
    nodes.lemma_filter_contains(eligible_in(names), i);
    let at = choose|at: int| 0 <= at < picked.len() && picked[at] == nodes[i];
    assert(list[at] == b);

    list.lemma_filter_contains(produced_by(p), at);
    let from = list.filter(produced_by(p));
    let fa = choose|fa: int| 0 <= fa < from.len() && from[fa] == b;
    let outs = added_outputs(nodes, list, p);
    assert(outs[fa] == nodes[c].name);
    assert(outs.contains(nodes[c].name));

    list.lemma_filter_contains(consumed_by(c), at);
    let to = list.filter(consumed_by(c));
    let ta = choose|ta: int| 0 <= ta < to.len() && to[ta] == b;
    let ins = added_inputs(nodes, list, c);
    assert(ins[ta] == nodes[p].name);
    assert(ins.contains(nodes[p].name));

    let linked = connected(nodes, list);
    assert(linked[p].output[nodes[p].output.len() + fa] == nodes[c].name);
    assert(linked[c].input[nodes[c].input.len() + ta] == nodes[p].name);
}

/// Being the place of a node that is called one of `names`, as a predicate on
/// places.
pub open spec fn named_at(nodes: Seq<NodeView>, names: Set<Seq<char>>) -> spec_fn(int) -> bool {
    |i: int| 0 <= i < nodes.len() && names.contains(nodes[i].name)
}

/// The places of the nodes that are called one of `names`, rising.
pub open spec fn survivors(nodes: Seq<NodeView>, names: Set<Seq<char>>) -> Seq<int> {
    Seq::new(nodes.len(), |i: int| i).filter(named_at(nodes, names))
}

/// Among the first `n` of `after`, the nodes called one of `names` are those
/// at the places that `named_at(before, names)` accepts, where the two
/// sequences give each place the same name.
proof fn lemma_filter_by_place(
    before: Seq<NodeView>,
    after: Seq<NodeView>,
    names: Set<Seq<char>>,
    n: int,
)
    requires
        0 <= n <= before.len(),
        after.len() == before.len(),
        forall|i: int| 0 <= i < before.len() ==> (#[trigger] after[i]).name == before[i].name,
    ensures
        ({
            let kept = after.take(n).filter(named_in(names));
            let places = Seq::new(n as nat, |i: int| i).filter(named_at(before, names));
            &&& kept.len() == places.len()
            &&& forall|k: int|
                0 <= k < places.len() ==> 0 <= (#[trigger] places[k]) < n && kept[k]
                    == after[places[k]]
            &&& forall|a: int, b: int|
                0 <= a < b < places.len() ==> (#[trigger] places[a]) < (#[trigger] places[b])
        }),
    decreases n,
{
    reveal(Seq::filter);
    if n > 0 {
        lemma_filter_by_place(before, after, names, n - 1);
        let ids = Seq::new((n - 1) as nat, |i: int| i);
        assert(Seq::new(n as nat, |i: int| i) =~= ids.push(n - 1));
        assert(after.take(n) =~= after.take(n - 1).push(after[n - 1]));
        ids.lemma_filter_push(n - 1, named_at(before, names));
        after.take(n - 1).lemma_filter_push(after[n - 1], named_in(names));
    }
}

/// What the removal leaves, place by place: the nodes that are called one of
/// `names`, each once and in the order they had, each with the edges that the
/// bypass connections gave it and with its edge lists cut down to `names`.
pub proof fn lemma_excised_by_place(nodes: Seq<NodeView>, names: Set<Seq<char>>)
    ensures
        excised(nodes, names).len() == survivors(nodes, names).len(),
        forall|k: int|
            0 <= k < survivors(nodes, names).len() ==> {
                let at = #[trigger] survivors(nodes, names)[k];
                &&& 0 <= at < nodes.len()
                &&& names.contains(nodes[at].name)
                &&& excised(nodes, names)[k] == restricted_to(names)(
                    connected_node(nodes, bypasses(nodes, names), at),
                )
                &&& excised(nodes, names)[k].name == nodes[at].name
                &&& excised(nodes, names)[k].payload == nodes[at].payload
            },
        forall|a: int, b: int|
            0 <= a < b < survivors(nodes, names).len() ==> (#[trigger] survivors(nodes, names)[a])
                < (#[trigger] survivors(nodes, names)[b]),
        forall|i: int|
            0 <= i < nodes.len() && names.contains((#[trigger] nodes[i]).name) ==> survivors(
                nodes,
                names,
            ).contains(i),
{
    let linked = connected(nodes, bypasses(nodes, names));
    let n = nodes.len() as int;
    lemma_filter_by_place(nodes, linked, names, n);
    assert(linked.take(n) =~= linked);
    let places = survivors(nodes, names);
    let ids = Seq::new(nodes.len(), |i: int| i);
    assert forall|k: int| 0 <= k < places.len() implies names.contains(
        nodes[#[trigger] places[k]].name,
    ) by {
        ids.lemma_filter_pred(named_at(nodes, names), k);
    }
    assert forall|i: int|
        0 <= i < nodes.len() && names.contains((#[trigger] nodes[i]).name) implies places.contains(
        i,
    ) by {
        assert(ids[i] == i);
        ids.lemma_filter_contains(named_at(nodes, names), i);
    }
}

/// After the removal every node is called one of `names`, and so is every
/// entry of every edge list.
pub proof fn lemma_excised_within_names(nodes: Seq<NodeView>, names: Set<Seq<char>>, k: int)
    requires
        0 <= k < excised(nodes, names).len(),
    ensures
        names.contains(excised(nodes, names)[k].name),
        forall|e: int|
            0 <= e < excised(nodes, names)[k].input.len() ==> names.contains(
                #[trigger] excised(nodes, names)[k].input[e],
            ),
        forall|e: int|
            0 <= e < excised(nodes, names)[k].output.len() ==> names.contains(
                #[trigger] excised(nodes, names)[k].output[e],
            ),
{
    let linked = connected(nodes, bypasses(nodes, names));
    let kept = linked.filter(named_in(names));
    linked.lemma_filter_pred(named_in(names), k);
    let node = excised(nodes, names)[k];
    assert(node == restricted_to(names)(kept[k]));
    assert forall|e: int| 0 <= e < node.input.len() implies names.contains(
        #[trigger] node.input[e],
    ) by {
        kept[k].input.lemma_filter_pred(in_names(names), e);
    }
    assert forall|e: int| 0 <= e < node.output.len() implies names.contains(
        #[trigger] node.output[e],
    ) by {
        kept[k].output.lemma_filter_pred(in_names(names), e);
    }
}

} // verus!
