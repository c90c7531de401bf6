use crate::utils::node_type::NodeType;
use crate::utils::random::random_below;
use crate::utils::utility_funcs::{gen_random_number_for_node, redrawn};
use vstd::prelude::*;

verus! {

/// Stored in a connection slot that reads from nowhere.
pub const NO_CONNECTION: usize = usize::MAX;

/// Number of primitive operators a computational gene can select.
pub const NBR_FUNCTIONS: usize = 8;

/// Operators with an id up to this one take two operands, the others one.
pub const LAST_BINARY_FUNCTION: usize = 3;

/// One gene of the graph: its place, its role, the operator it selects and
/// the positions it reads from.
#[derive(Clone, Copy, Debug)]
pub struct Node {
    pub position: usize,
    pub node_type: NodeType,
    pub nbr_inputs: usize,
    pub graph_width: usize,
    pub function_id: usize,
    pub connection0: usize,
    pub connection1: usize,
}

impl Node {
    /// The gene's invariant. A connection always points to a smaller
    /// position, which is what keeps the graph acyclic.
    pub open spec fn wf(self) -> bool {
        &&& self.function_id < NBR_FUNCTIONS
        &&& match self.node_type {
            NodeType::InputNode => {
                self.connection0 == NO_CONNECTION && self.connection1 == NO_CONNECTION
            },
            NodeType::ComputationalNode => {
                self.connection0 < self.position && self.connection1 < self.position
            },
            NodeType::OutputNode => {
                &&& self.nbr_inputs + self.graph_width <= self.position
                &&& self.connection0 < self.nbr_inputs + self.graph_width
                &&& self.connection1 == NO_CONNECTION
            },
        }
    }

    /// Whether the selected operator takes two operands.
    pub open spec fn is_binary(self) -> bool {
        self.function_id <= LAST_BINARY_FUNCTION
    }

    /// Whether this gene reads the value produced at position `p`. The second
    /// connection of a computational gene counts only under a binary operator.
    pub open spec fn reads(self, p: int) -> bool {
        match self.node_type {
            NodeType::InputNode => false,
            NodeType::ComputationalNode => {
                self.connection0 == p || (self.is_binary() && self.connection1 == p)
            },
            NodeType::OutputNode => self.connection0 == p,
        }
    }

    /// Number of positions a connection of this gene may point to.
    pub open spec fn connection_range(self) -> int {
        match self.node_type {
            NodeType::InputNode => 0,
            NodeType::ComputationalNode => self.position as int,
            NodeType::OutputNode => self.nbr_inputs + self.graph_width,
        }
    }

    /// Whether both genes sit at the same place of the same graph layout.
    pub open spec fn same_placement(self, other: Node) -> bool {
        &&& self.position == other.position
        &&& self.node_type == other.node_type
        &&& self.nbr_inputs == other.nbr_inputs
        &&& self.graph_width == other.graph_width
    }

    /// Whether `self` is `before` with its first connection redrawn.
    pub open spec fn connection0_redrawn(self, before: Node) -> bool {
        &&& self.same_placement(before)
        &&& self.function_id == before.function_id
        &&& self.connection1 == before.connection1
        &&& before.connection_range() <= usize::MAX
        &&& redrawn(before.connection0, before.connection_range() as usize, self.connection0)
    }

    /// Whether `self` is `before` with its second connection redrawn.
    pub open spec fn connection1_redrawn(self, before: Node) -> bool {
        &&& self.same_placement(before)
        &&& self.function_id == before.function_id
        &&& self.connection0 == before.connection0
        &&& redrawn(before.connection1, before.position, self.connection1)
    }

    /// Whether `self` is `before` with another operator selected.
    pub open spec fn function_redrawn(self, before: Node) -> bool {
        &&& self.same_placement(before)
        &&& self.connection0 == before.connection0
        &&& self.connection1 == before.connection1
        &&& redrawn(before.function_id, NBR_FUNCTIONS, self.function_id)
    }

    /// Whether `self` can come out of one mutation of `before`: an output gene
    /// has its connection redrawn; a computational gene has exactly one of its
    /// two connections and its operator redrawn.
    pub open spec fn mutated_from(self, before: Node) -> bool {
        match before.node_type {
            NodeType::InputNode => false,
            NodeType::ComputationalNode => {
                ||| self.connection0_redrawn(before)
                ||| self.connection1_redrawn(before)
                ||| self.function_redrawn(before)
            },
            NodeType::OutputNode => self.connection0_redrawn(before),
        }
    }

    /// Whether the two genes differ in a connection or in the operator.
    pub open spec fn genes_differ(self, other: Node) -> bool {
        ||| self.function_id != other.function_id
        ||| self.connection0 != other.connection0
        ||| self.connection1 != other.connection1
    }

    /// Tests the gene's invariant.
    pub fn is_well_formed(&self) -> (ok: bool)
        ensures
            ok == self.wf(),
    {
        if self.function_id >= NBR_FUNCTIONS {
            return false;
        }
        match self.node_type {
            NodeType::InputNode => {
                self.connection0 == NO_CONNECTION && self.connection1 == NO_CONNECTION
            },
            NodeType::ComputationalNode => {
                self.connection0 < self.position && self.connection1 < self.position
            },
            NodeType::OutputNode => {
                if self.nbr_inputs > usize::MAX - self.graph_width {
                    return false;
                }
                let output_start: usize = self.nbr_inputs + self.graph_width;
                output_start <= self.position && self.connection0 < output_start
                    && self.connection1 == NO_CONNECTION
            },
        }
    }

    /// Builds a gene from values already drawn: `function_id` selects the
    /// operator, and the two connection draws are kept as far as the role
    /// has connections at all.
    pub fn with_genes(
        position: usize,
        nbr_inputs: usize,
        graph_width: usize,
        node_type: NodeType,
        function_id: usize,
        draw0: usize,
        draw1: usize,
    ) -> (node: Node)
        ensures
            node.position == position,
            node.node_type == node_type,
            node.nbr_inputs == nbr_inputs,
            node.graph_width == graph_width,
            node.function_id == function_id,
            node.connection0 == if node_type == NodeType::InputNode {
                NO_CONNECTION
            } else {
                draw0
            },
            node.connection1 == if node_type == NodeType::ComputationalNode {
                draw1
            } else {
                NO_CONNECTION
            },
    {
        let connection0: usize = match node_type {
            NodeType::InputNode => NO_CONNECTION,
            _ => draw0,
        };
        let connection1: usize = match node_type {
            NodeType::ComputationalNode => draw1,
            _ => NO_CONNECTION,
        };
        Node { position, node_type, nbr_inputs, graph_width, function_id, connection0, connection1 }
    }

    /// Builds a gene with a random operator and random connections into the
    /// range its role allows: a computational gene reads any smaller position,
    /// an output gene any input or computational gene, an input gene nothing.
    pub fn new(position: usize, nbr_inputs: usize, graph_width: usize, node_type: NodeType) -> (node:
        Node)
        requires
            node_type == NodeType::ComputationalNode ==> position > 0,
            node_type == NodeType::OutputNode ==> 0 < nbr_inputs + graph_width <= usize::MAX,
        ensures
            node.position == position,
            node.node_type == node_type,
            node.nbr_inputs == nbr_inputs,
            node.graph_width == graph_width,
            node.function_id < NBR_FUNCTIONS,
            match node_type {
                NodeType::InputNode => {
                    node.connection0 == NO_CONNECTION && node.connection1 == NO_CONNECTION
                },
                NodeType::ComputationalNode => {
                    node.connection0 < position && node.connection1 < position
                },
                NodeType::OutputNode => {
                    node.connection0 < nbr_inputs + graph_width && node.connection1
                        == NO_CONNECTION
                },
            },
            node_type == NodeType::OutputNode && nbr_inputs + graph_width > position
                || node.wf(),
    {
        let function_id: usize = random_below(NBR_FUNCTIONS);
        match node_type {
            NodeType::InputNode => Node::with_genes(
                position,
                nbr_inputs,
                graph_width,
                node_type,
                function_id,
                NO_CONNECTION,
                NO_CONNECTION,
            ),
            NodeType::ComputationalNode => {
                let draw0: usize = random_below(position);
                let draw1: usize = random_below(position);
                Node::with_genes(
                    position,
                    nbr_inputs,
                    graph_width,
                    node_type,
                    function_id,
                    draw0,
                    draw1,
                )
            },
            NodeType::OutputNode => {
                let draw0: usize = random_below(nbr_inputs + graph_width);
                Node::with_genes(
                    position,
                    nbr_inputs,
                    graph_width,
                    node_type,
                    function_id,
                    draw0,
                    NO_CONNECTION,
                )
            },
        }
    }

    /// Mutates the gene once. An output gene gets another connection; a
    /// computational gene gets another first connection, another second
    /// connection or another operator, each with the same chance. The redrawn
    /// value differs from the one it replaces whenever its range holds a
    /// second value.
    pub fn mutate(&mut self)
        requires
            old(self).node_type != NodeType::InputNode,
            old(self).wf(),
        ensures
            final(self).mutated_from(*old(self)),
            final(self).wf(),
    {
        match self.node_type {
            NodeType::OutputNode => self.mutate_output_node(),
            _ => self.mutate_computational_node(),
        }
    }

    /// Replaces `connection` by another position below `upper_range`.
    pub fn mutate_connection(connection: &mut usize, upper_range: usize)
        ensures
            redrawn(*old(connection), upper_range, *final(connection)),
    {
        *connection = gen_random_number_for_node(*connection, upper_range);
    }

    /// Selects another operator.
    pub fn mutate_function(&mut self)
        ensures
            final(self).function_redrawn(*old(self)),
    {
        self.function_id = gen_random_number_for_node(self.function_id, NBR_FUNCTIONS);
    }

    /// Redraws the single connection of an output gene.
    pub fn mutate_output_node(&mut self)
        requires
            old(self).node_type == NodeType::OutputNode,
            old(self).wf(),
        ensures
            final(self).connection0_redrawn(*old(self)),
            final(self).wf(),
    {
        let upper_range: usize = self.graph_width + self.nbr_inputs;
        Node::mutate_connection(&mut self.connection0, upper_range);
    }

    /// Applies the mutation selected by `target` to a computational gene:
    /// 0 redraws the first connection, 1 the second, anything else the
    /// operator.
    pub fn mutate_target(&mut self, target: usize)
        requires
            old(self).node_type == NodeType::ComputationalNode,
            old(self).wf(),
        ensures
            target == 0 ==> final(self).connection0_redrawn(*old(self)),
            target == 1 ==> final(self).connection1_redrawn(*old(self)),
            target >= 2 ==> final(self).function_redrawn(*old(self)),
            final(self).wf(),
    {
        let position: usize = self.position;
        if target == 0 {
            Node::mutate_connection(&mut self.connection0, position);
        } else if target == 1 {
            Node::mutate_connection(&mut self.connection1, position);
        } else {
            self.mutate_function();
        }
    }

    /// Picks one of the three mutation targets of a computational gene at
    /// random and applies it.
    pub fn mutate_computational_node(&mut self)
        requires
            old(self).node_type == NodeType::ComputationalNode,
            old(self).wf(),
        ensures
            final(self).mutated_from(*old(self)),
            final(self).wf(),
    {
        let target: usize = random_below(3);
        self.mutate_target(target);
    }
}

/// A mutation keeps a gene well formed and in its place.
pub proof fn lemma_mutation_keeps_wf(before: Node, after: Node)
    requires
        before.wf(),
        after.mutated_from(before),
    ensures
        after.wf(),
        after.same_placement(before),
{
}

/// A mutation changes the gene whenever the redrawn value has an alternative:
/// always for a computational gene at position 2 or above, and for an output gene as
/// soon as two positions are open to it.
pub proof fn lemma_mutation_changes_gene(before: Node, after: Node)
    requires
        before.wf(),
        after.mutated_from(before),
        before.node_type == NodeType::ComputationalNode ==> before.position >= 2,
        before.node_type == NodeType::OutputNode ==> before.nbr_inputs + before.graph_width >= 2,
    ensures
        after.genes_differ(before),
{
}

} // verus!
