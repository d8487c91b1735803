//! The conditions under which an operation on a model is refused.

use vstd::prelude::*;

verus! {

/// Why an operation on a model was refused.
#[derive(Clone, Copy, Debug, PartialEq, Eq, Structural)]
pub enum Error {
    /// The model carries no graph.
    MissingGraph,
    /// A node picked for a bypass names a neighbour that no node of the graph
    /// is called.
    DanglingReference,
}

} // verus!
