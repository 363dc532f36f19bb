//! Streaming speech enhancement: a small dense tensor graph and its operators.

pub mod arith;
pub mod conv;
pub mod enhancer;
pub mod error;
pub mod execute;
pub mod faults;
pub mod graph;
pub mod guards;
pub mod joining;
pub mod linear;
pub mod load;
pub mod nodes;
pub mod part_nodes;
pub mod pieces;
pub mod shape;
pub mod single;
pub mod slicing;
pub mod spectral;
pub mod tens;
pub mod turning;
