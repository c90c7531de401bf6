use vstd::prelude::*;

verus! {

/// The role of a gene inside the graph.
#[derive(Clone, Copy, PartialEq, Eq, Structural, Debug)]
pub enum NodeType {
    InputNode,
    ComputationalNode,
    OutputNode,
}

} // verus!
