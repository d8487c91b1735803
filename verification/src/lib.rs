//! Inspection and structural editing of a computation graph held in memory:
//! what a model declares, which of its declared inputs are fed at run time,
//! and the removal of named nodes with their neighbours linked up.
//!
//! Every operation is stated over the mathematical value of the model (its
//! view), and the laws that hold of them on every graph are proved in
//! [`laws`].

pub mod error;
pub mod excise;
pub mod introspect;
pub mod laws;
pub mod model;
pub mod names;

pub use crate::error::Error;
pub use crate::excise::{
    apply_bypasses, excise, find_bypasses, keep_named, remove_ops, retain_named, Bypass,
};
pub use crate::introspect::{
    describe, dynamic_inputs, names_initializer, DynamicInput, Entry, Report,
};
pub use crate::model::{Graph, Model, Node, Tensor, ValueInfo};
pub use crate::names::{contains_name, find_node};
