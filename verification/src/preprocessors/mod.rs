//! What works on the syntax tree of a document before it is rendered.

pub mod cell_outputs;
pub mod ordinals;
