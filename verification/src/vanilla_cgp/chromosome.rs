use crate::global_params::CgpParameters;
use crate::utils::node_type::NodeType;
use crate::utils::random::random_below;
use crate::utils::utility_funcs::holds;
use crate::vanilla_cgp::node::{lemma_mutation_changes_gene, Node, LAST_BINARY_FUNCTION};
use crate::vanilla_cgp::program::{
    accepts_operands, computed_by, exact_clones, executable, instruction_of, lemma_runs_agree,
    program_of, run, runnable, single_valued, Instruction,
};
use vstd::prelude::*;

verus! {

/// The role of the gene at position `p`: inputs first, computational genes
/// second, outputs last.
pub open spec fn role_at(params: CgpParameters, p: int) -> NodeType {
    if p < params.nbr_inputs {
        NodeType::InputNode
    } else if p < params.output_start() {
        NodeType::ComputationalNode
    } else {
        NodeType::OutputNode
    }
}

/// Whether `node` is a well-formed gene for position `p` of a graph laid out
/// by `params`.
pub open spec fn gene_fits(params: CgpParameters, node: Node, p: int) -> bool {
    &&& node.position == p
    &&& node.node_type == role_at(params, p)
    &&& node.nbr_inputs == params.nbr_inputs
    &&& node.graph_width == params.graph_width
    &&& node.wf()
}

/// Whether `nodes` is a complete, well-formed gene array for `params`.
pub open spec fn genes_fit(params: CgpParameters, nodes: Seq<Node>) -> bool {
    &&& nodes.len() == params.nbr_nodes()
    &&& forall|p: int| 0 <= p < nodes.len() ==> gene_fits(params, #[trigger] nodes[p], p)
}

/// Whether the gene at position `p` is part of the phenotype: it is an output
/// gene, or an active gene at a larger position reads it.
pub open spec fn is_active(nodes: Seq<Node>, p: int) -> bool
    decreases nodes.len() - p,
{
    &&& 0 <= p < nodes.len()
    &&& (nodes[p].node_type == NodeType::OutputNode || exists|q: int|
        p < q < nodes.len() && is_active(nodes, q) && #[trigger] nodes[q].reads(p))
}

/// Whether `active` lists exactly the active positions of `nodes`, in
/// ascending order and each once.
pub open spec fn lists_active_nodes(nodes: Seq<Node>, active: Seq<usize>) -> bool {
    &&& forall|i: int, j: int| 0 <= i < j < active.len() ==> active[i] < active[j]
    &&& forall|k: int| 0 <= k < active.len() ==> is_active(nodes, #[trigger] active[k] as int)
    &&& forall|p: int| #[trigger]
        is_active(nodes, p) ==> exists|k: int| 0 <= k < active.len() && active[k] == p
}

/// Number of entries of `marks` that are still unset.
spec fn count_unset(marks: Seq<bool>) -> nat
    decreases marks.len(),
{
    if marks.len() == 0 {
        0
    } else {
        count_unset(marks.drop_last()) + if marks.last() {
            0nat
        } else {
            1nat
        }
    }
}

proof fn lemma_count_unset_set(marks: Seq<bool>, i: int)
    requires
        0 <= i < marks.len(),
        !marks[i],
    ensures
        count_unset(marks.update(i, true)) + 1 == count_unset(marks),
    decreases marks.len(),
{
    let after = marks.update(i, true);
    if i == marks.len() - 1 {
        assert(after.drop_last() =~= marks.drop_last());
    } else {
        assert(after.drop_last() =~= marks.drop_last().update(i, true));
        lemma_count_unset_set(marks.drop_last(), i);
    }
}

/// Whatever an active gene reads is active.
pub proof fn lemma_active_set_closed(nodes: Seq<Node>, q: int, p: int)
    requires
        0 <= p < q < nodes.len(),
        is_active(nodes, q),
        nodes[q].reads(p),
    ensures
        is_active(nodes, p),
{
}

/// A set of marks that holds every output gene and is closed under reading
/// holds every active gene.
proof fn lemma_closed_marks_hold_active(nodes: Seq<Node>, marks: Seq<bool>, p: int)
    requires
        marks.len() == nodes.len(),
        forall|q: int|
            0 <= q < nodes.len() && (#[trigger] nodes[q]).node_type == NodeType::OutputNode
                ==> marks[q],
        forall|q: int, r: int|
            0 <= r < q < nodes.len() && marks[q] && #[trigger] nodes[q].reads(r) ==> marks[r],
        is_active(nodes, p),
    ensures
        marks[p],
    decreases nodes.len() - p,
{
    if nodes[p].node_type != NodeType::OutputNode {
        let q = choose|q: int|
            p < q < nodes.len() && is_active(nodes, q) && #[trigger] nodes[q].reads(p);
        lemma_closed_marks_hold_active(nodes, marks, q);
    }
}

/// Marks `connection` as active and queues it for a visit, unless it is
/// marked already.
fn visit(
    connection: usize,
    marks: &mut Vec<bool>,
    to_visit: &mut Vec<usize>,
    Ghost(nodes): Ghost<Seq<Node>>,
)
    requires
        connection < old(marks).len(),
        old(marks).len() == nodes.len(),
        is_active(nodes, connection as int),
        forall|i: int|
            0 <= i < old(to_visit).len() ==> (#[trigger] old(to_visit)[i]) < old(marks).len()
                && old(marks)[old(to_visit)[i] as int],
        forall|p: int| 0 <= p < old(marks).len() && old(marks)[p] ==> is_active(nodes, p),
    ensures
        final(marks).len() == old(marks).len(),
        final(marks)[connection as int],
        forall|p: int|
            0 <= p < old(marks).len() && p != connection ==> final(marks)[p] == old(marks)[p],
        forall|p: int| 0 <= p < final(marks).len() && final(marks)[p] ==> is_active(nodes, p),
        old(marks)[connection as int] ==> final(to_visit)@ == old(to_visit)@,
        !old(marks)[connection as int] ==> final(to_visit)@ == old(to_visit)@.push(connection),
        2 * count_unset(final(marks)@) + final(to_visit).len() < 2 * count_unset(old(marks)@)
            + old(to_visit).len() + 1,
        forall|i: int|
            0 <= i < final(to_visit).len() ==> (#[trigger] final(to_visit)[i]) < final(marks).len()
                && final(marks)[final(to_visit)[i] as int],
{
    if !marks[connection] {
        proof {
            lemma_count_unset_set(marks@, connection as int);
        }
        to_visit.push(connection);
        marks[connection] = true;
        assert(marks@ == old(marks)@.update(connection as int, true));
    }
}

/// Whether everything that the gene at `q` reads is marked.
spec fn reads_marked(nodes: Seq<Node>, marks: Seq<bool>, q: int) -> bool {
    forall|r: int| 0 <= r < q && #[trigger] nodes[q].reads(r) ==> marks[r]
}

/// Marks the genes that can be reached backward from the output genes. The
/// walk keeps an explicit stack of positions still to visit, and a position
/// enters the stack only when it gets its mark, so none is visited twice.
fn mark_active(params: &CgpParameters, nodes: &Vec<Node>, output_node_ids: &Vec<usize>) -> (marks:
    Vec<bool>)
    requires
        genes_fit(*params, nodes@),
        params.nbr_nodes() <= usize::MAX,
        output_node_ids.len() == params.nbr_outputs,
        forall|k: int|
            0 <= k < output_node_ids.len() ==> #[trigger] output_node_ids[k]
                == params.output_start() + k,
    ensures
        marks.len() == nodes.len(),
        forall|p: int| 0 <= p < nodes.len() ==> (#[trigger] marks[p] <==> is_active(nodes@, p)),
{
    let n: usize = nodes.len();
    let mut marks: Vec<bool> = Vec::new();
    let mut p: usize = 0;
    while p < n
        invariant
            p <= n,
            marks.len() == p,
            forall|i: int| 0 <= i < p ==> !(#[trigger] marks[i]),
        decreases n - p,
    {
        marks.push(false);
        p = p + 1;
    }
    let mut to_visit: Vec<usize> = Vec::new();
    let mut k: usize = 0;
    while k < output_node_ids.len()
        invariant
            n == nodes.len(),
            marks.len() == n,
            genes_fit(*params, nodes@),
            k <= output_node_ids.len(),
            output_node_ids.len() == params.nbr_outputs,
            forall|j: int|
                0 <= j < output_node_ids.len() ==> #[trigger] output_node_ids[j]
                    == params.output_start() + j,
            forall|i: int|
                0 <= i < to_visit.len() ==> (#[trigger] to_visit[i]) < n && marks[to_visit[i] as int],
            forall|p: int| 0 <= p < n && marks[p] ==> is_active(nodes@, p),
            forall|p: int| params.output_start() <= p < params.output_start() + k ==> marks[p],
            forall|q: int|
                0 <= q < n && #[trigger] marks[q] ==> exists|i: int|
                    0 <= i < to_visit.len() && to_visit[i] == q,
        decreases output_node_ids.len() - k,
    {
        let ghost before_marks = marks@;
        let ghost before_stack = to_visit@;
        let id: usize = output_node_ids[k];
        assert(gene_fits(*params, nodes@[id as int], id as int));
        visit(id, &mut marks, &mut to_visit, Ghost(nodes@));
        assert forall|q: int| 0 <= q < n && #[trigger] marks[q] implies exists|i: int|
            0 <= i < to_visit.len() && to_visit[i] == q by {
            if before_marks[q] {
                let i = choose|i: int| 0 <= i < before_stack.len() && before_stack[i] == q;
                assert(to_visit[i] == q);
            } else {
                assert(to_visit[to_visit.len() - 1] == q);
            }
        }
        k = k + 1;
    }
    let ghost mut done: Set<int> = Set::empty();
    while to_visit.len() > 0
        invariant
            n == nodes.len(),
            marks.len() == n,
            genes_fit(*params, nodes@),
            forall|i: int|
                0 <= i < to_visit.len() ==> (#[trigger] to_visit[i]) < n && marks[to_visit[i] as int],
            forall|p: int| 0 <= p < n && marks[p] ==> is_active(nodes@, p),
            forall|p: int| params.output_start() <= p < n ==> marks[p],
            forall|q: int| 0 <= q < n && done.contains(q) ==> reads_marked(nodes@, marks@, q),
            forall|q: int|
                0 <= q < n && #[trigger] marks[q] ==> done.contains(q) || exists|i: int|
                    0 <= i < to_visit.len() && to_visit[i] == q,
        decreases 2 * count_unset(marks@) + to_visit.len(),
    {
        let ghost before_marks = marks@;
        let ghost before_stack = to_visit@;
        let current_node_id: usize = to_visit.pop().unwrap();
        let current_node: Node = nodes[current_node_id];
        assert(gene_fits(*params, nodes@[current_node_id as int], current_node_id as int));
        match current_node.node_type {
            NodeType::InputNode => {},
            NodeType::ComputationalNode => {
                proof {
                    lemma_active_set_closed(
                        nodes@,
                        current_node_id as int,
                        current_node.connection0 as int,
                    );
                }
                visit(current_node.connection0, &mut marks, &mut to_visit, Ghost(nodes@));
                if current_node.function_id <= LAST_BINARY_FUNCTION {
                    proof {
                        lemma_active_set_closed(
                            nodes@,
                            current_node_id as int,
                            current_node.connection1 as int,
                        );
                    }
                    visit(current_node.connection1, &mut marks, &mut to_visit, Ghost(nodes@));
                }
            },
            NodeType::OutputNode => {
                proof {
                    lemma_active_set_closed(
                        nodes@,
                        current_node_id as int,
                        current_node.connection0 as int,
                    );
                }
                visit(current_node.connection0, &mut marks, &mut to_visit, Ghost(nodes@));
            },
        }
        proof {
            done = done.insert(current_node_id as int);
            assert forall|q: int| 0 <= q < n && done.contains(q) implies reads_marked(
                nodes@,
                marks@,
                q,
            ) by {
                if q != current_node_id {
                    assert(reads_marked(nodes@, before_marks, q));
                }
            }
            assert forall|q: int| 0 <= q < n && #[trigger] marks[q] implies done.contains(q)
                || exists|i: int| 0 <= i < to_visit.len() && to_visit[i] == q by {
                if before_marks[q] {
                    if !done.contains(q) {
                        let i = choose|i: int| 0 <= i < before_stack.len() && before_stack[i] == q;
                        assert(to_visit[i] == q);
                    }
                } else {
                    let i = to_visit.len() - 1;
                    assert(to_visit[i] == q || to_visit[i - 1] == q);
                }
            }
        }
    }
    proof {
        assert forall|p: int| 0 <= p < nodes.len() implies (#[trigger] marks[p] <==> is_active(
            nodes@,
            p,
        )) by {
            if is_active(nodes@, p) {
                assert forall|q: int, r: int|
                    0 <= r < q < nodes.len() && marks[q] && #[trigger] nodes@[q].reads(
                        r,
                    ) implies marks[r] by {
                    assert(done.contains(q));
                    assert(reads_marked(nodes@, marks@, q));
                }
                assert forall|q: int|
                    0 <= q < nodes.len() && (#[trigger] nodes@[q]).node_type
                        == NodeType::OutputNode implies marks[q] by {
                    assert(gene_fits(*params, nodes@[q], q));
                }
                lemma_closed_marks_hold_active(nodes@, marks@, p);
            }
        }
    }
    marks
}

/// A chromosome: the complete gene array, the positions of its output genes
/// and the list of active positions as last derived.
///
/// `active_nodes` is a cache. It is empty after construction and goes stale
/// when an active gene is mutated; `get_active_nodes_id` derives it anew.
#[derive(Debug)]
pub struct Chromosome {
    pub params: CgpParameters,
    pub nodes_grid: Vec<Node>,
    pub output_node_ids: Vec<usize>,
    pub active_nodes: Vec<usize>,
}

impl Clone for Chromosome {
    /// A deep copy: the clone shares nothing with `self`.
    fn clone(&self) -> (copy: Self)
        ensures
            copy.same_genotype(self),
            copy.active_nodes@ == self.active_nodes@,
    {
        Chromosome {
            params: self.params,
            nodes_grid: self.nodes_grid.clone(),
            output_node_ids: self.output_node_ids.clone(),
            active_nodes: self.active_nodes.clone(),
        }
    }
}

impl Chromosome {
    /// The chromosome's invariant: one well-formed gene per position, laid
    /// out as the settings say, and the output positions listed in order.
    pub open spec fn wf(&self) -> bool {
        &&& self.params.nbr_nodes() <= usize::MAX
        &&& genes_fit(self.params, self.nodes_grid@)
        &&& self.output_node_ids.len() == self.params.nbr_outputs
        &&& forall|k: int|
            0 <= k < self.output_node_ids.len() ==> #[trigger] self.output_node_ids[k]
                == self.params.output_start() + k
    }

    /// Whether the cached list of active positions matches the genes.
    pub open spec fn active_is_current(&self) -> bool {
        lists_active_nodes(self.nodes_grid@, self.active_nodes@)
    }

    /// Whether both chromosomes hold the same settings, genes and outputs.
    pub open spec fn same_genotype(&self, other: &Chromosome) -> bool {
        &&& self.params == other.params
        &&& self.nodes_grid@ == other.nodes_grid@
        &&& self.output_node_ids@ == other.output_node_ids@
    }

    /// Tests the chromosome's invariant.
    pub fn is_well_formed(&self) -> (ok: bool)
        ensures
            ok == self.wf(),
    {
        let params: CgpParameters = self.params;
        if params.nbr_inputs > usize::MAX - params.graph_width {
            return false;
        }
        let output_start: usize = params.nbr_inputs + params.graph_width;
        if output_start > usize::MAX - params.nbr_outputs {
            return false;
        }
        if self.nodes_grid.len() != output_start + params.nbr_outputs {
            return false;
        }
        if self.output_node_ids.len() != params.nbr_outputs {
            return false;
        }
        let mut p: usize = 0;
        while p < self.nodes_grid.len()
            invariant
                p <= self.nodes_grid.len(),
                params == self.params,
                output_start == params.output_start(),
                self.nodes_grid.len() == params.nbr_nodes(),
                forall|q: int| 0 <= q < p ==> gene_fits(params, #[trigger] self.nodes_grid[q], q),
            decreases self.nodes_grid.len() - p,
        {
            let node: Node = self.nodes_grid[p];
            let role: NodeType = if p < params.nbr_inputs {
                NodeType::InputNode
            } else if p < output_start {
                NodeType::ComputationalNode
            } else {
                NodeType::OutputNode
            };
            let fits: bool = node.position == p && node.node_type == role && node.nbr_inputs
                == params.nbr_inputs && node.graph_width == params.graph_width
                && node.is_well_formed();
            if !fits {
                assert(!gene_fits(params, self.nodes_grid[p as int], p as int));
                return false;
            }
            p = p + 1;
        }
        let mut k: usize = 0;
        while k < self.output_node_ids.len()
            invariant
                k <= self.output_node_ids.len(),
                params == self.params,
                output_start == params.output_start(),
                self.output_node_ids.len() == params.nbr_outputs,
                params.nbr_nodes() <= usize::MAX,
                forall|j: int| 0 <= j < k ==> #[trigger] self.output_node_ids[j] == output_start + j,
            decreases self.output_node_ids.len() - k,
        {
            if self.output_node_ids[k] != output_start + k {
                return false;
            }
            k = k + 1;
        }
        true
    }

    /// Builds a chromosome of random genes: `nbr_inputs` input genes, then
    /// `graph_width` computational genes, then `nbr_outputs` output genes.
    /// The list of active positions starts out empty.
    pub fn new(params: CgpParameters) -> (chromosome: Chromosome)
        requires
            params.buildable(),
        ensures
            chromosome.wf(),
            chromosome.params == params,
            chromosome.active_nodes@ == Seq::<usize>::empty(),
    {
        let output_start: usize = params.nbr_inputs + params.graph_width;
        let nbr_nodes: usize = output_start + params.nbr_outputs;
        let mut nodes_grid: Vec<Node> = Vec::with_capacity(nbr_nodes);
        let mut output_node_ids: Vec<usize> = Vec::with_capacity(params.nbr_outputs);
        let mut position: usize = 0;
        while position < params.nbr_inputs
            invariant
                params.buildable(),
                position <= params.nbr_inputs,
                nodes_grid.len() == position,
                forall|p: int| 0 <= p < position ==> gene_fits(params, #[trigger] nodes_grid[p], p),
            decreases params.nbr_inputs - position,
        {
            nodes_grid.push(
                Node::new(position, params.nbr_inputs, params.graph_width, NodeType::InputNode),
            );
            position = position + 1;
        }
        while position < output_start
            invariant
                params.buildable(),
                output_start == params.output_start(),
                params.nbr_inputs <= position <= output_start,
                nodes_grid.len() == position,
                forall|p: int| 0 <= p < position ==> gene_fits(params, #[trigger] nodes_grid[p], p),
            decreases output_start - position,
        {
            nodes_grid.push(
                Node::new(
                    position,
                    params.nbr_inputs,
                    params.graph_width,
                    NodeType::ComputationalNode,
                ),
            );
            position = position + 1;
        }
        while position < nbr_nodes
            invariant
                params.buildable(),
                output_start == params.output_start(),
                nbr_nodes == params.nbr_nodes(),
                output_start <= position <= nbr_nodes,
                nodes_grid.len() == position,
                forall|p: int| 0 <= p < position ==> gene_fits(params, #[trigger] nodes_grid[p], p),
            decreases nbr_nodes - position,
        {
            nodes_grid.push(
                Node::new(position, params.nbr_inputs, params.graph_width, NodeType::OutputNode),
            );
            position = position + 1;
        }
        let mut position: usize = output_start;
        while position < nbr_nodes
            invariant
                output_start == params.output_start(),
                nbr_nodes == params.nbr_nodes(),
                output_start <= position <= nbr_nodes,
                output_node_ids.len() == position - output_start,
                forall|k: int|
                    0 <= k < output_node_ids.len() ==> #[trigger] output_node_ids[k] == output_start
                        + k,
            decreases nbr_nodes - position,
        {
            output_node_ids.push(position);
            position = position + 1;
        }
        Chromosome { params, nodes_grid, output_node_ids, active_nodes: Vec::new() }
    }

    /// Derives the list of active positions anew: every position that can be
    /// reached backward from an output gene, in ascending order. Because a
    /// gene only reads smaller positions, that order is also an order in
    /// which the active genes can be evaluated.
    pub fn get_active_nodes_id(&mut self)
        requires
            old(self).wf(),
        ensures
            final(self).same_genotype(old(self)),
            final(self).wf(),
            final(self).active_is_current(),
    {
        let marks: Vec<bool> = mark_active(&self.params, &self.nodes_grid, &self.output_node_ids);
        let n: usize = self.nodes_grid.len();
        let mut active: Vec<usize> = Vec::new();
        let mut p: usize = 0;
        while p < n
            invariant
                p <= n,
                n == marks.len(),
                forall|i: int, j: int| 0 <= i < j < active.len() ==> active[i] < active[j],
                forall|k: int| 0 <= k < active.len() ==> (#[trigger] active[k]) < p && marks[active[k] as int],
                forall|q: int|
                    0 <= q < p && #[trigger] marks[q] ==> exists|k: int|
                        0 <= k < active.len() && active[k] == q,
            decreases n - p,
        {
            if marks[p] {
                let ghost before = active@;
                active.push(p);
                assert forall|q: int| 0 <= q < p + 1 && #[trigger] marks[q] implies exists|k: int|
                    0 <= k < active.len() && active[k] == q by {
                    if q < p {
                        let k = choose|k: int| 0 <= k < before.len() && before[k] == q;
                        assert(active[k] == q);
                    } else {
                        assert(active[active.len() - 1] == q);
                    }
                }
            }
            p = p + 1;
        }
        proof {
            assert forall|q: int| #[trigger] is_active(self.nodes_grid@, q) implies exists|k: int|
                0 <= k < active.len() && active[k] == q by {
                assert(marks[q]);
            }
        }
        self.active_nodes = active;
    }
}

/// Two ascending listings of the same active set are the same list, so the
/// genes alone decide what `get_active_nodes_id` leaves behind.
pub proof fn lemma_active_listing_unique(nodes: Seq<Node>, a: Seq<usize>, b: Seq<usize>)
    requires
        lists_active_nodes(nodes, a),
        lists_active_nodes(nodes, b),
    ensures
        a == b,
{
    lemma_listing_prefix(nodes, a, b, a.len() as int);
    lemma_listing_prefix(nodes, b, a, b.len() as int);
    if a.len() < b.len() {
        let p = b[a.len() as int];
        assert(is_active(nodes, p as int));
        let k = choose|k: int| 0 <= k < a.len() && a[k] == p;
        assert(b[k] == a[k]);
    }
    if b.len() < a.len() {
        let p = a[b.len() as int];
        assert(is_active(nodes, p as int));
        let k = choose|k: int| 0 <= k < b.len() && b[k] == p;
        assert(a[k] == b[k]);
    }
    assert(a =~= b);
}

proof fn lemma_listing_prefix(nodes: Seq<Node>, a: Seq<usize>, b: Seq<usize>, i: int)
    requires
        lists_active_nodes(nodes, a),
        lists_active_nodes(nodes, b),
        0 <= i <= a.len(),
    ensures
        forall|j: int| 0 <= j < i && j < b.len() ==> a[j] == b[j],
    decreases i,
{
    if i > 0 {
        lemma_listing_prefix(nodes, a, b, i - 1);
        let j = i - 1;
        if j < b.len() {
            assert(is_active(nodes, a[j] as int));
            let k = choose|k: int| 0 <= k < b.len() && b[k] == a[j];
            assert(is_active(nodes, b[j] as int));
            let l = choose|l: int| 0 <= l < a.len() && a[l] == b[j];
            if k < j {
                assert(a[k] == b[k]);
            }
            if l < j {
                assert(a[l] == b[l]);
            }
        }
    }
}

/// Mutating a gene that is not active leaves the set of active genes as it
/// was: nothing that counts reads through it.
pub proof fn lemma_inactive_mutation_is_neutral(
    before: Seq<Node>,
    after: Seq<Node>,
    d: int,
    p: int,
)
    requires
        before.len() == after.len(),
        0 <= d < before.len(),
        !is_active(before, d),
        forall|q: int| 0 <= q < before.len() && q != d ==> after[q] == before[q],
        after[d].node_type == before[d].node_type,
    ensures
        is_active(after, p) == is_active(before, p),
    decreases before.len() - p,
{
    if 0 <= p < before.len() {
        assert(after[p].node_type == before[p].node_type);
        if before[p].node_type != NodeType::OutputNode {
            if is_active(before, p) {
                let q = choose|q: int|
                    p < q < before.len() && is_active(before, q) && #[trigger] before[q].reads(p);
                lemma_inactive_mutation_is_neutral(before, after, d, q);
                assert(after[q].reads(p));
            }
            if is_active(after, p) {
                let q = choose|q: int|
                    p < q < after.len() && is_active(after, q) && #[trigger] after[q].reads(p);
                lemma_inactive_mutation_is_neutral(before, after, d, q);
                assert(before[q].reads(p));
            }
        }
    }
}

/// A gene that was active stays active when the gene at `d` is replaced, as
/// long as it does not sit below `d`: every gene on the way from an output
/// to it sits above `d` and is untouched.
pub proof fn lemma_mutation_keeps_upper_genes_active(
    before: Seq<Node>,
    after: Seq<Node>,
    d: int,
    p: int,
)
    requires
        before.len() == after.len(),
        0 <= d < before.len(),
        forall|q: int| 0 <= q < before.len() && q != d ==> after[q] == before[q],
        after[d].node_type == before[d].node_type,
        d <= p,
        is_active(before, p),
    ensures
        is_active(after, p),
    decreases before.len() - p,
{
    assert(after[p].node_type == before[p].node_type);
    if before[p].node_type != NodeType::OutputNode {
        let q = choose|q: int|
            p < q < before.len() && is_active(before, q) && #[trigger] before[q].reads(p);
        lemma_mutation_keeps_upper_genes_active(before, after, d, q);
        assert(after[q].reads(p));
    }
}

/// The program of a well-formed chromosome can run: the ascending order of
/// the active list puts every operand before the step that needs it.
pub proof fn lemma_program_runnable(params: CgpParameters, nodes: Seq<Node>, active: Seq<usize>)
    requires
        genes_fit(params, nodes),
        lists_active_nodes(nodes, active),
    ensures
        runnable(program_of(nodes, active)),
{
    let program = program_of(nodes, active);
    assert forall|k: int, p: int|
        0 <= k < program.len() && #[trigger] program[k].operation.reads(p) implies exists|j: int|
        0 <= j < k && program[j].target == p by {
        let q = active[k] as int;
        assert(is_active(nodes, q));
        assert(gene_fits(params, nodes[q], q));
        assert(nodes[q].reads(p));
        assert(0 <= p < q);
        lemma_active_set_closed(nodes, q, p);
        let j = choose|j: int| 0 <= j < active.len() && active[j] == p;
        assert(gene_fits(params, nodes[p], p));
        if j >= k {
            assert(active[k] <= active[j]);
        }
        assert(program[j].target == p);
    }
}

/// Acyclicity: in a well-formed gene array every connection of a
/// computational or output gene points to a strictly smaller position, so
/// whatever a gene reads sits below it.
pub proof fn lemma_connections_point_backward(params: CgpParameters, nodes: Seq<Node>, p: int)
    requires
        genes_fit(params, nodes),
        0 <= p < nodes.len(),
    ensures
        nodes[p].node_type == NodeType::ComputationalNode ==> nodes[p].connection0 < p
            && nodes[p].connection1 < p,
        nodes[p].node_type == NodeType::OutputNode ==> nodes[p].connection0 < p,
        forall|r: int| nodes[p].reads(r) ==> 0 <= r < p,
{
    assert(gene_fits(params, nodes[p], p));
}

/// Closure of the active list: a list of the active genes holds every output
/// gene, and with each gene it holds everything that this gene reads.
pub proof fn lemma_active_list_closed(params: CgpParameters, nodes: Seq<Node>, active: Seq<usize>)
    requires
        genes_fit(params, nodes),
        lists_active_nodes(nodes, active),
    ensures
        forall|p: int|
            params.output_start() <= p < nodes.len() ==> #[trigger] active.contains(p as usize),
        forall|k: int, r: int|
            0 <= k < active.len() && #[trigger] nodes[active[k] as int].reads(r) ==> 0 <= r
                < active[k] && active.contains(r as usize),
{
    assert forall|p: int| params.output_start() <= p < nodes.len() implies #[trigger] active.contains(
        p as usize,
    ) by {
        assert(gene_fits(params, nodes[p], p));
        assert(is_active(nodes, p));
        let k = choose|k: int| 0 <= k < active.len() && active[k] == p;
        assert(active[k] == p as usize);
    }
    assert forall|k: int, r: int|
        0 <= k < active.len() && #[trigger] nodes[active[k] as int].reads(r) implies 0 <= r
        < active[k] && active.contains(r as usize) by {
        let q = active[k] as int;
        assert(is_active(nodes, q));
        lemma_connections_point_backward(params, nodes, q);
        lemma_active_set_closed(nodes, q, r);
        let j = choose|j: int| 0 <= j < active.len() && active[j] == r;
        assert(active[j] == r as usize);
    }
}

/// Evaluation is decided by the genes: two chromosomes with the same genes,
/// each with a current list of active positions, decode into the same
/// program, whatever their lists held before.
pub proof fn lemma_program_decided_by_genes(a: Chromosome, b: Chromosome)
    requires
        a.same_genotype(&b),
        a.active_is_current(),
        b.active_is_current(),
    ensures
        a.active_nodes@ == b.active_nodes@,
        program_of(a.nodes_grid@, a.active_nodes@) == program_of(b.nodes_grid@, b.active_nodes@),
{
    lemma_active_listing_unique(a.nodes_grid@, a.active_nodes@, b.active_nodes@);
}

/// Visibility of a mutation: once the list of active positions of an
/// offspring is derived anew, it holds the position of the mutated gene.
pub proof fn lemma_visible_mutation_is_listed(child: Chromosome, parent: Chromosome, position: int)
    requires
        child.visibly_mutated_from(&parent, position),
        child.active_is_current(),
    ensures
        child.active_nodes@.contains(position as usize),
{
    let k = choose|k: int| 0 <= k < child.active_nodes.len() && child.active_nodes[k] == position;
    assert(child.active_nodes@[k] == position as usize);
}

/// Whether `score` can be called on every list of output values with every
/// list of labels.
pub open spec fn accepts_outputs<V, S: Fn(&Vec<V>, &Vec<usize>) -> u64>(score: &S) -> bool {
    forall|outs: &Vec<V>, labels: &Vec<usize>| score.requires((outs, labels))
}

/// Whether `slots` is what a run of the program of `chromosome` on `inputs`
/// leaves behind, and `outs` holds the values of the output genes in their
/// order.
pub open spec fn evaluation_of<V: Clone, X: Fn(usize, &V, Option<&V>) -> V>(
    chromosome: Chromosome,
    inputs: Seq<V>,
    execute: &X,
    slots: Seq<Option<V>>,
    outs: Seq<V>,
) -> bool {
    &&& slots.len() == chromosome.nodes_grid.len()
    &&& computed_by(
        program_of(chromosome.nodes_grid@, chromosome.active_nodes@),
        inputs,
        execute,
        slots,
    )
    &&& outs.len() == chromosome.params.nbr_outputs
    &&& forall|i: int|
        0 <= i < outs.len() ==> slots[chromosome.params.output_start() + i] == Some(
            #[trigger] outs[i],
        )
}

/// Whether `fitness` is a cost of `chromosome` on the data: the cost that
/// `score` gives to the values of the output genes after a run of the
/// program of `chromosome` on `inputs` with the operators of `execute`.
pub open spec fn evaluates_to<
    V: Clone,
    X: Fn(usize, &V, Option<&V>) -> V,
    S: Fn(&Vec<V>, &Vec<usize>) -> u64,
>(
    chromosome: Chromosome,
    inputs: Seq<V>,
    labels: Vec<usize>,
    execute: &X,
    score: &S,
    fitness: u64,
) -> bool {
    exists|slots: Seq<Option<V>>, outs: Vec<V>| #[trigger]
        evaluation_of(chromosome, inputs, execute, slots, outs@) && score.ensures(
            (&outs, &labels),
            fitness,
        )
}

/// Whether `score` is a function of its arguments: on the same output
/// values and labels it cannot return two different costs.
pub open spec fn single_valued_score<V, S: Fn(&Vec<V>, &Vec<usize>) -> u64>(score: &S) -> bool {
    forall|first: Vec<V>, second: Vec<V>, labels: Vec<usize>, x: u64, y: u64|
        first@ == second@ && #[trigger] score.ensures((&first, &labels), x)
            && #[trigger] score.ensures((&second, &labels), y) ==> x == y
}

/// Evaluation is repeatable: with operators and a score that are
/// single-valued and with exact clones, evaluating the same genes on the same
/// data gives the same cost every time, whatever the list of active
/// positions held before.
pub proof fn lemma_evaluation_repeatable<
    V: Clone,
    X: Fn(usize, &V, Option<&V>) -> V,
    S: Fn(&Vec<V>, &Vec<usize>) -> u64,
>(
    a: Chromosome,
    b: Chromosome,
    inputs: Seq<V>,
    labels: Vec<usize>,
    execute: &X,
    score: &S,
    x: u64,
    y: u64,
)
    requires
        a.wf(),
        a.same_genotype(&b),
        a.active_is_current(),
        b.active_is_current(),
        single_valued(execute),
        single_valued_score(score),
        exact_clones::<V>(),
        evaluates_to(a, inputs, labels, execute, score, x),
        evaluates_to(b, inputs, labels, execute, score, y),
    ensures
        x == y,
{
    lemma_program_decided_by_genes(a, b);
    let program = program_of(a.nodes_grid@, a.active_nodes@);
    lemma_program_runnable(a.params, a.nodes_grid@, a.active_nodes@);
    let (first, outs) = choose|first: Seq<Option<V>>, outs: Vec<V>| #[trigger]
        evaluation_of(a, inputs, execute, first, outs@) && score.ensures((&outs, &labels), x);
    let (second, others) = choose|second: Seq<Option<V>>, others: Vec<V>| #[trigger]
        evaluation_of(b, inputs, execute, second, others@) && score.ensures(
            (&others, &labels),
            y,
        );
    lemma_runs_agree(program, inputs, execute, first, second, program.len() as int);
    assert forall|i: int| 0 <= i < outs.len() implies outs[i] == others[i] by {
        let p = a.params.output_start() + i;
        assert(first[p] == Some(outs[i]));
        assert(second[p] == Some(others[i]));
        let k = choose|k: int| 0 <= k < program.len() && program[k].target == p;
        assert(first[program[k].target as int] == second[program[k].target as int]);
    }
    assert(outs@ =~= others@);
}

/// The program of a well-formed chromosome is executable on data with a row
/// for each input gene.
pub proof fn lemma_program_executable(
    params: CgpParameters,
    nodes: Seq<Node>,
    active: Seq<usize>,
    nbr_features: int,
)
    requires
        genes_fit(params, nodes),
        lists_active_nodes(nodes, active),
        params.nbr_inputs <= nbr_features,
    ensures
        executable(program_of(nodes, active), nbr_features, nodes.len() as int),
{
    let program = program_of(nodes, active);
    lemma_program_runnable(params, nodes, active);
    assert forall|k: int| 0 <= k < program.len() implies (#[trigger] program[k]).target
        == active[k] && gene_fits(params, nodes[active[k] as int], active[k] as int) by {
        assert(is_active(nodes, active[k] as int));
        assert(gene_fits(params, nodes[active[k] as int], active[k] as int));
    }
}

impl Chromosome {
    /// Whether the genes of `self` came out of those of `before` by one
    /// visible mutation at `position`: that gene was active, was mutated and
    /// is active still; every other gene that was active is untouched; genes
    /// that were not active may have drifted, each staying well formed and
    /// in its place. The cached list of active positions is not compared.
    pub open spec fn visibly_mutated_from(&self, before: &Chromosome, position: int) -> bool {
        &&& self.params == before.params
        &&& self.output_node_ids@ == before.output_node_ids@
        &&& self.nodes_grid.len() == before.nodes_grid.len()
        &&& before.params.first_mutable() <= position < before.nodes_grid.len()
        &&& is_active(before.nodes_grid@, position)
        &&& is_active(self.nodes_grid@, position)
        &&& self.nodes_grid[position].mutated_from(before.nodes_grid[position])
        &&& forall|q: int|
            0 <= q < before.nodes_grid.len() && q != position && (is_active(before.nodes_grid@, q)
                || q < before.params.first_mutable()) ==> #[trigger] self.nodes_grid[q]
                == before.nodes_grid[q]
    }

    /// Whether `self` is an offspring of `parent`: a copy with one visible
    /// mutation.
    pub open spec fn offspring_of(&self, parent: &Chromosome) -> bool {
        exists|position: int| self.visibly_mutated_from(parent, position)
    }

    /// Decodes the active genes into the program that evaluates them, one
    /// step per active gene in ascending order of position. The steps of the
    /// output genes come last, in the order of the outputs.
    pub fn program(&self) -> (program: Vec<Instruction>)
        requires
            self.wf(),
            self.active_is_current(),
        ensures
            program@ == program_of(self.nodes_grid@, self.active_nodes@),
            runnable(program@),
            executable(program@, self.params.nbr_inputs as int, self.nodes_grid.len() as int),
    {
        let mut program: Vec<Instruction> = Vec::with_capacity(self.active_nodes.len());
        let mut k: usize = 0;
        while k < self.active_nodes.len()
            invariant
                self.wf(),
                self.active_is_current(),
                k <= self.active_nodes.len(),
                program.len() == k,
                forall|j: int|
                    0 <= j < k ==> #[trigger] program[j] == instruction_of(
                        self.nodes_grid[self.active_nodes[j] as int],
                    ),
            decreases self.active_nodes.len() - k,
        {
            let node_id: usize = self.active_nodes[k];
            assert(is_active(self.nodes_grid@, node_id as int));
            program.push(self.nodes_grid[node_id].instruction());
            k = k + 1;
        }
        proof {
            assert(program@ =~= program_of(self.nodes_grid@, self.active_nodes@));
            lemma_program_runnable(self.params, self.nodes_grid@, self.active_nodes@);
            lemma_program_executable(
                self.params,
                self.nodes_grid@,
                self.active_nodes@,
                self.params.nbr_inputs as int,
            );
        }
        program
    }

    /// Evaluates the chromosome on the data and returns its cost, lower
    /// being better. The list of active positions is derived anew; the
    /// active genes are evaluated in ascending order, each keeping its value
    /// under its position: an input gene takes its row of `inputs`, a
    /// computational gene applies its operator through `execute`, an output
    /// gene passes on what it reads. `score` reduces the values of the output
    /// genes, in their order, and the labels to the cost.
    pub fn evaluate<
        V: Clone,
        X: Fn(usize, &V, Option<&V>) -> V,
        S: Fn(&Vec<V>, &Vec<usize>) -> u64,
    >(&mut self, inputs: &Vec<V>, labels: &Vec<usize>, execute: &X, score: &S) -> (fitness: u64)
        requires
            old(self).wf(),
            old(self).params.nbr_inputs <= inputs.len(),
            accepts_operands(execute),
            accepts_outputs(score),
        ensures
            final(self).same_genotype(old(self)),
            final(self).wf(),
            final(self).active_is_current(),
            evaluates_to(*final(self), inputs@, *labels, execute, score, fitness),
    {
        self.get_active_nodes_id();
        let program: Vec<Instruction> = self.program();
        let nbr_nodes: usize = self.nodes_grid.len();
        proof {
            lemma_program_executable(
                self.params,
                self.nodes_grid@,
                self.active_nodes@,
                inputs.len() as int,
            );
        }
        let mut slots: Vec<Option<V>> = run(&program, inputs, nbr_nodes, execute);
        let ghost computed = slots@;
        let output_start: usize = self.params.nbr_inputs + self.params.graph_width;
        let mut outs: Vec<V> = Vec::with_capacity(self.params.nbr_outputs);
        let mut i: usize = output_start;
        while i < nbr_nodes
            invariant
                self.wf(),
                self.active_is_current(),
                output_start == self.params.output_start(),
                nbr_nodes == self.nodes_grid.len(),
                output_start <= i <= nbr_nodes,
                slots.len() == nbr_nodes,
                computed.len() == nbr_nodes,
                computed_by(program@, inputs@, execute, computed),
                program@ == program_of(self.nodes_grid@, self.active_nodes@),
                outs.len() == i - output_start,
                forall|j: int| i <= j < nbr_nodes ==> #[trigger] slots[j] == computed[j],
                forall|j: int|
                    0 <= j < outs.len() ==> computed[output_start + j] == Some(#[trigger] outs[j]),
            decreases nbr_nodes - i,
        {
            proof {
                assert(gene_fits(self.params, self.nodes_grid[i as int], i as int));
                assert(is_active(self.nodes_grid@, i as int));
                let k = choose|k: int|
                    0 <= k < self.active_nodes.len() && self.active_nodes[k] == i;
                assert(program[k].target == i);
                assert(computed[i as int] is Some);
            }
            let mut taken: Option<V> = None;
            std::mem::swap(&mut slots[i], &mut taken);
            outs.push(taken.unwrap());
            i = i + 1;
        }
        let fitness: u64 = score(&outs, labels);
        proof {
            assert(evaluation_of(*self, inputs@, execute, computed, outs@));
        }
        fitness
    }

    /// Mutates genes until a mutation is visible, and returns the position of
    /// that last mutation. Positions are drawn from the mutable part of the
    /// graph; a hit on a gene that is not active changes nothing that can be
    /// observed, so the search goes on, and it ends with the first hit on an
    /// active gene.
    ///
    /// So that the search provably ends, the number of draws is bounded by
    /// the machine word. Should the bound ever be reached, the mutation is
    /// placed on an active gene drawn directly from the list.
    ///
    /// The list of active positions must be current on entry. It is left as
    /// it was, and is stale afterwards as far as the mutated gene now reads
    /// other positions.
    pub fn mutate_single(&mut self) -> (position: usize)
        requires
            old(self).wf(),
            old(self).active_is_current(),
            old(self).params.mutable(),
        ensures
            final(self).wf(),
            final(self).visibly_mutated_from(old(self), position as int),
            final(self).active_nodes@ == old(self).active_nodes@,
            old(self).params.output_start() >= 2 ==> final(self).nodes_grid[position as int].genes_differ(
                old(self).nodes_grid[position as int],
            ),
    {
        let start_id: usize = if self.params.nbr_inputs == 1 {
            2
        } else {
            self.params.nbr_inputs
        };
        let end_id: usize = self.nodes_grid.len();
        let mut attempts_left: usize = usize::MAX;
        while attempts_left > 0
            invariant
                old(self).wf(),
                old(self).active_is_current(),
                self.wf(),
                self.active_is_current(),
                self.params == old(self).params,
                self.output_node_ids@ == old(self).output_node_ids@,
                self.active_nodes@ == old(self).active_nodes@,
                start_id == self.params.first_mutable(),
                end_id == self.nodes_grid.len(),
                start_id < end_id,
                forall|q: int|
                    0 <= q < end_id && (is_active(old(self).nodes_grid@, q) || q < start_id)
                        ==> #[trigger] self.nodes_grid[q] == old(self).nodes_grid[q],
            decreases attempts_left,
        {
            let random_node_id: usize = start_id + random_below(end_id - start_id);
            let visible: bool = holds(&self.active_nodes, random_node_id);
            if visible {
                self.mutate_active_gene(random_node_id, Ghost(*old(self)));
                return random_node_id;
            }
            let ghost before = self.nodes_grid@;
            assert(gene_fits(self.params, before[random_node_id as int], random_node_id as int));
            self.nodes_grid[random_node_id].mutate();
            proof {
                let after = self.nodes_grid@;
                assert(!is_active(before, random_node_id as int));
                assert forall|p: int| 0 <= p < after.len() implies gene_fits(
                    self.params,
                    #[trigger] after[p],
                    p,
                ) by {
                    assert(gene_fits(self.params, before[p], p));
                }
                assert forall|p: int| is_active(after, p) == is_active(before, p) by {
                    lemma_inactive_mutation_is_neutral(before, after, random_node_id as int, p);
                }
                assert(!is_active(old(self).nodes_grid@, random_node_id as int)) by {
                    if is_active(old(self).nodes_grid@, random_node_id as int) {
                        let k = choose|k: int|
                            0 <= k < old(self).active_nodes.len() && old(self).active_nodes[k]
                                == random_node_id;
                        assert(self.active_nodes[k] == random_node_id);
                    }
                }
            }
            attempts_left = attempts_left - 1;
        }
        // The bound is reached: draw among the active genes that are open to mutation.
        proof {
            let top = end_id - 1;
            assert(gene_fits(self.params, self.nodes_grid[top], top));
            assert(is_active(self.nodes_grid@, top));
            let k = choose|k: int| 0 <= k < self.active_nodes.len() && self.active_nodes[k] == top;
            let last = self.active_nodes.len() - 1;
            if k < last {
                assert(self.active_nodes[k] < self.active_nodes[last]);
                assert(is_active(self.nodes_grid@, self.active_nodes[last] as int));
            }
        }
        let last: usize = self.active_nodes.len() - 1;
        let mut first: usize = last;
        while first > 0 && self.active_nodes[first - 1] >= start_id
            invariant
                first <= last,
                last == self.active_nodes.len() - 1,
                forall|k: int| first <= k <= last ==> self.active_nodes[k] >= start_id,
            decreases first,
        {
            first = first - 1;
        }
        let pick: usize = first + random_below(last - first + 1);
        let position: usize = self.active_nodes[pick];
        proof {
            assert(is_active(self.nodes_grid@, position as int));
        }
        self.mutate_active_gene(position, Ghost(*old(self)));
        position
    }

    /// Mutates the gene at `position`, which is active and open to mutation.
    fn mutate_active_gene(&mut self, position: usize, Ghost(origin): Ghost<Chromosome>)
        requires
            old(self).wf(),
            origin.wf(),
            origin.active_is_current(),
            old(self).active_is_current(),
            old(self).params == origin.params,
            old(self).output_node_ids@ == origin.output_node_ids@,
            old(self).active_nodes@ == origin.active_nodes@,
            old(self).params.first_mutable() <= position < old(self).nodes_grid.len(),
            exists|k: int|
                0 <= k < old(self).active_nodes.len() && old(self).active_nodes[k] == position,
            forall|q: int|
                0 <= q < old(self).nodes_grid.len() && (is_active(origin.nodes_grid@, q) || q
                    < origin.params.first_mutable()) ==> #[trigger] old(self).nodes_grid[q]
                    == origin.nodes_grid[q],
        ensures
            final(self).wf(),
            final(self).visibly_mutated_from(&origin, position as int),
            final(self).active_nodes@ == origin.active_nodes@,
            origin.params.output_start() >= 2 ==> final(self).nodes_grid[position as int].genes_differ(
                origin.nodes_grid[position as int],
            ),
    {
        let ghost before = self.nodes_grid@;
        proof {
            let k = choose|k: int|
                0 <= k < self.active_nodes.len() && self.active_nodes[k] == position;
            assert(is_active(before, self.active_nodes[k] as int));
            assert(is_active(origin.nodes_grid@, origin.active_nodes[k] as int));
            assert(gene_fits(self.params, before[position as int], position as int));
            assert(gene_fits(origin.params, origin.nodes_grid[position as int], position as int));
        }
        self.nodes_grid[position].mutate();
        proof {
            let after = self.nodes_grid@;
            assert forall|p: int| 0 <= p < after.len() implies gene_fits(
                self.params,
                #[trigger] after[p],
                p,
            ) by {
                assert(gene_fits(self.params, before[p], p));
            }
            lemma_mutation_keeps_upper_genes_active(before, after, position as int, position as int);
            assert(before[position as int] == origin.nodes_grid[position as int]);
            if self.params.output_start() >= 2 {
                if self.params.nbr_inputs == 0 {
                    assert(gene_fits(self.params, before[0], 0));
                }
                lemma_mutation_changes_gene(before[position as int], after[position as int]);
            }
        }
    }

    /// Mutates the gene at `node_id` if `draw` falls below `numerator`, and
    /// leaves it alone otherwise.
    pub fn mutate_if_drawn(&mut self, node_id: usize, draw: usize, numerator: usize)
        requires
            old(self).wf(),
            old(self).params.nbr_inputs <= node_id < old(self).nodes_grid.len(),
        ensures
            final(self).wf(),
            final(self).params == old(self).params,
            final(self).output_node_ids@ == old(self).output_node_ids@,
            final(self).active_nodes@ == old(self).active_nodes@,
            final(self).nodes_grid.len() == old(self).nodes_grid.len(),
            forall|q: int|
                0 <= q < old(self).nodes_grid.len() && q != node_id ==> #[trigger] final(self).nodes_grid[q] == old(self).nodes_grid[q],
            draw < numerator ==> final(self).nodes_grid[node_id as int].mutated_from(
                old(self).nodes_grid[node_id as int],
            ),
            draw >= numerator ==> final(self).nodes_grid[node_id as int] == old(self).nodes_grid[node_id as int],
    {
        if draw < numerator {
            let ghost before = self.nodes_grid@;
            assert(gene_fits(self.params, before[node_id as int], node_id as int));
            self.nodes_grid[node_id].mutate();
            proof {
                let after = self.nodes_grid@;
                assert forall|p: int| 0 <= p < after.len() implies gene_fits(
                    self.params,
                    #[trigger] after[p],
                    p,
                ) by {
                    assert(gene_fits(self.params, before[p], p));
                }
            }
        }
    }

    /// Mutates every gene open to mutation with probability
    /// `numerator / denominator`, each on a draw of its own and whether or
    /// not it is active. A numerator of 0 mutates nothing; a numerator that
    /// reaches the denominator mutates every such gene.
    pub fn mutate_prob(&mut self, numerator: usize, denominator: usize)
        requires
            old(self).wf(),
            denominator > 0,
        ensures
            final(self).wf(),
            final(self).params == old(self).params,
            final(self).output_node_ids@ == old(self).output_node_ids@,
            final(self).active_nodes@ == old(self).active_nodes@,
            final(self).nodes_grid.len() == old(self).nodes_grid.len(),
            forall|q: int|
                0 <= q < old(self).nodes_grid.len() ==> {
                    let after = #[trigger] final(self).nodes_grid[q];
                    let before = old(self).nodes_grid[q];
                    if q < old(self).params.first_mutable() || numerator == 0 {
                        after == before
                    } else if numerator >= denominator {
                        after.mutated_from(before)
                    } else {
                        after == before || after.mutated_from(before)
                    }
                },
    {
        let start_id: usize = if self.params.nbr_inputs == 1 {
            2
        } else {
            self.params.nbr_inputs
        };
        let end_id: usize = self.nodes_grid.len();
        let mut node_id: usize = start_id;
        while node_id < end_id
            invariant
                old(self).wf(),
                self.wf(),
                self.params == old(self).params,
                self.output_node_ids@ == old(self).output_node_ids@,
                self.active_nodes@ == old(self).active_nodes@,
                denominator > 0,
                start_id == self.params.first_mutable(),
                end_id == self.nodes_grid.len(),
                end_id == old(self).nodes_grid.len(),
                start_id <= node_id,
                forall|q: int|
                    0 <= q < end_id && (q < start_id || q >= node_id) ==> #[trigger] self.nodes_grid[q]
                        == old(self).nodes_grid[q],
                forall|q: int|
                    start_id <= q < node_id && q < end_id ==> {
                        let after = #[trigger] self.nodes_grid[q];
                        let before = old(self).nodes_grid[q];
                        if numerator == 0 {
                            after == before
                        } else if numerator >= denominator {
                            after.mutated_from(before)
                        } else {
                            after == before || after.mutated_from(before)
                        }
                    },
            decreases end_id - node_id,
        {
            let draw: usize = random_below(denominator);
            self.mutate_if_drawn(node_id, draw, numerator);
            node_id = node_id + 1;
        }
    }
}

} // verus!
