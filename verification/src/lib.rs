//! Cartesian Genetic Programming: a fixed-size graph of primitive operators,
//! evolved by a (1 + lambda) strategy with neutral drift.
//!
//! The genotype is an array of genes whose connections only point to smaller
//! positions, so the array is at once an acyclic graph and a valid evaluation
//! order. The genes that the outputs depend on form the phenotype, which is
//! decoded into a program and run on the data.
//!
//! The library is generic in the values that flow through the graph: the
//! caller supplies the operators on them and the reduction of the output
//! values to a cost. Costs are totally ordered integers, lower being better.

pub mod datasets;
pub mod global_params;
pub mod utils;
pub mod vanilla_cgp;
