//! The integer bookkeeping of the reference prediction engine: the prediction
//! configuration, the validation and row materialization of sparse CSR
//! inputs, the per-kind output shape, the layout of the output buffer (cell
//! indexing, leaf routing and tree-averaging counts), checked access to a
//! tree's node columns, and the resolution of postprocessor names.

pub mod accessor;
pub mod config;
pub mod error;
pub mod layout;
pub mod postprocess;
pub mod shape;
pub mod tree;


