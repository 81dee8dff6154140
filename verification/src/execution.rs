//! Evaluation: the tree of nodes, the executors that give an operation its
//! shape, and the catalogue of built-in operations.

pub mod executors;
pub mod laws;
pub mod node;
pub mod operation;
