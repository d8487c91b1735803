//! Names as keys: membership of a name in a list of names, and the node that a
//! name stands for.

use vstd::prelude::*;
use crate::model::{names_of, nodes_of, Node, NodeView};

verus! {

/// The set of names that a list of strings holds.
pub open spec fn name_set(strings: Seq<String>) -> Set<Seq<char>> {
    names_of(strings).to_set()
}

/// Whether some node of `nodes` is called `name`.
pub open spec fn has_node(nodes: Seq<NodeView>, name: Seq<char>) -> bool {
    exists|i: int| 0 <= i < nodes.len() && (#[trigger] nodes[i]).name == name
}

/// Whether `i` is the place of the last node of `nodes` that is called `name`.
///
/// Names are meant to be unique. Where they are not, the last node of a name
/// is the one that the name stands for.
pub open spec fn is_last_named(nodes: Seq<NodeView>, name: Seq<char>, i: int) -> bool {
    &&& 0 <= i < nodes.len()
    &&& nodes[i].name == name
    &&& forall|j: int| i < j < nodes.len() ==> (#[trigger] nodes[j]).name != name
}

/// The place of the node that `name` stands for, where there is one.
pub open spec fn index_of(nodes: Seq<NodeView>, name: Seq<char>) -> int {
    choose|i: int| is_last_named(nodes, name, i)
}

/// A name stands for at most one place.
pub proof fn lemma_last_named_unique(nodes: Seq<NodeView>, name: Seq<char>, i: int, j: int)
    requires
        is_last_named(nodes, name, i),
        is_last_named(nodes, name, j),
    ensures
        i == j,
{
    if i < j {
        assert(nodes[j].name != name);
    } else if j < i {
        assert(nodes[i].name != name);
    }
}

/// The place that `index_of` gives is the one that `is_last_named` accepts.
pub proof fn lemma_index_of(nodes: Seq<NodeView>, name: Seq<char>, i: int)
    requires
        is_last_named(nodes, name, i),
    ensures
        index_of(nodes, name) == i,
{
    lemma_last_named_unique(nodes, name, i, index_of(nodes, name));
}

/// Every name that some node has stands for a place, and that place holds a
/// node of that name.
pub proof fn lemma_index_of_exists(nodes: Seq<NodeView>, name: Seq<char>)
    requires
        has_node(nodes, name),
    ensures
        is_last_named(nodes, name, index_of(nodes, name)),
    decreases nodes.len(),
{
    let last = nodes.len() - 1;
    if nodes[last].name == name {
        assert(is_last_named(nodes, name, last));
    } else {
        let front = nodes.drop_last();
        let w = choose|i: int| 0 <= i < nodes.len() && (#[trigger] nodes[i]).name == name;
        assert(front[w].name == name);
        lemma_index_of_exists(front, name);
        let k = index_of(front, name);
        assert forall|j: int| k < j < nodes.len() implies (#[trigger] nodes[j]).name != name by {
            if j < last {
                assert(front[j].name != name);
            }
        }
        assert(is_last_named(nodes, name, k));
    }
}

/// Whether `name` is one of `names`.
pub fn contains_name(names: &Vec<String>, name: &String) -> (found: bool)
    ensures
        found == name_set(names@).contains(name@),
{
    let mut i: usize = 0;
    while i < names.len()
        invariant
            i <= names.len(),
            forall|j: int| 0 <= j < i ==> names_of(names@)[j] != name@,
        decreases names.len() - i,
    {
        if *name == names[i] {
            assert(names_of(names@)[i as int] == name@);
            return true;
        }
        i += 1;
    }
    false
}

/// The place of the node that `name` stands for: the last node of that name,
/// or `None` where no node has it.
pub fn find_node(nodes: &Vec<Node>, name: &String) -> (place: Option<usize>)
    ensures
        match place {
            Some(i) => is_last_named(nodes_of(nodes@), name@, i as int),
            None => !has_node(nodes_of(nodes@), name@),
        },
{
    let mut i: usize = nodes.len();
    while i > 0
        invariant
            i <= nodes.len(),
            forall|j: int| i <= j < nodes.len() ==> (#[trigger] nodes_of(nodes@)[j]).name != name@,
        decreases i,
    {
        i -= 1;
        if nodes[i].name == *name {
            return Some(i);
        }
    }
    None
}

} // verus!
