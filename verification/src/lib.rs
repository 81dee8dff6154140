//! Evaluation core of a text templating engine: the value carrier, the
//! scoped variable context, the tree of evaluation nodes and the catalogue
//! of built-in operations, each with a machine-checked contract.

pub mod error;
pub mod text;
pub mod integer;
pub mod value;
pub mod document;
pub mod data;
pub mod context;
pub mod execution;
