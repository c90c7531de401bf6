use crate::utils::node_type::NodeType;
use crate::vanilla_cgp::node::{Node, LAST_BINARY_FUNCTION, NBR_FUNCTIONS};
use vstd::pervasive::cloned;
use vstd::prelude::*;

verus! {

/// What one step of a decoded program does with the values produced so far.
#[derive(Clone, Copy, PartialEq, Eq, Structural, Debug)]
pub enum Operation {
    /// Take row `feature` of the data.
    Load { feature: usize },
    /// Pass on the value produced at `source`, unchanged.
    Forward { source: usize },
    /// Apply the one-operand operator `function_id` to the value at `source`.
    Unary { function_id: usize, source: usize },
    /// Apply the two-operand operator `function_id` to the values at `left`
    /// and `right`.
    Binary { function_id: usize, left: usize, right: usize },
}

/// One step of a decoded program: the operation, and the position under which
/// its value is kept.
#[derive(Clone, Copy, PartialEq, Eq, Structural, Debug)]
pub struct Instruction {
    pub target: usize,
    pub operation: Operation,
}

impl Operation {
    /// Whether the operation needs the value kept under position `p`.
    pub open spec fn reads(self, p: int) -> bool {
        match self {
            Operation::Load { feature } => false,
            Operation::Forward { source } => source == p,
            Operation::Unary { function_id, source } => source == p,
            Operation::Binary { function_id, left, right } => left == p || right == p,
        }
    }
}

/// The step that evaluates `node`: an input gene loads its own feature, an
/// output gene forwards what it reads, a computational gene applies its
/// operator to one or two operands.
pub open spec fn instruction_of(node: Node) -> Instruction {
    Instruction {
        target: node.position,
        operation: match node.node_type {
            NodeType::InputNode => Operation::Load { feature: node.position },
            NodeType::OutputNode => Operation::Forward { source: node.connection0 },
            NodeType::ComputationalNode => if node.is_binary() {
                Operation::Binary {
                    function_id: node.function_id,
                    left: node.connection0,
                    right: node.connection1,
                }
            } else {
                Operation::Unary { function_id: node.function_id, source: node.connection0 }
            },
        },
    }
}

/// The program that evaluates the genes listed in `active`, in that order.
pub open spec fn program_of(nodes: Seq<Node>, active: Seq<usize>) -> Seq<Instruction> {
    Seq::new(active.len(), |k: int| instruction_of(nodes[active[k] as int]))
}

/// Whether a program can run from start to end: each value that a step needs
/// was produced by an earlier step.
pub open spec fn runnable(program: Seq<Instruction>) -> bool {
    forall|k: int, p: int|
        0 <= k < program.len() && #[trigger] program[k].operation.reads(p) ==> exists|j: int|
            0 <= j < k && program[j].target == p
}

impl Node {
    /// The step that evaluates this gene.
    pub fn instruction(&self) -> (step: Instruction)
        ensures
            step == instruction_of(*self),
    {
        let operation: Operation = match self.node_type {
            NodeType::InputNode => Operation::Load { feature: self.position },
            NodeType::OutputNode => Operation::Forward { source: self.connection0 },
            NodeType::ComputationalNode => {
                if self.function_id <= LAST_BINARY_FUNCTION {
                    Operation::Binary {
                        function_id: self.function_id,
                        left: self.connection0,
                        right: self.connection1,
                    }
                } else {
                    Operation::Unary { function_id: self.function_id, source: self.connection0 }
                }
            },
        };
        Instruction { target: self.position, operation }
    }
}

/// Whether a program can run on `nbr_features` rows of data with one slot
/// per position below `nbr_nodes`: it is `runnable`, its targets ascend and
/// fit the slots, it loads only rows that exist, and each operator has the
/// number of operands that its id stands for.
pub open spec fn executable(program: Seq<Instruction>, nbr_features: int, nbr_nodes: int) -> bool {
    &&& runnable(program)
    &&& forall|j: int, k: int|
        0 <= j < k < program.len() ==> program[j].target < program[k].target
    &&& forall|k: int|
        0 <= k < program.len() ==> {
            &&& (#[trigger] program[k]).target < nbr_nodes
            &&& match program[k].operation {
                Operation::Load { feature } => feature < nbr_features,
                Operation::Forward { source } => true,
                Operation::Unary { function_id, source } => LAST_BINARY_FUNCTION < function_id
                    < NBR_FUNCTIONS,
                Operation::Binary { function_id, left, right } => function_id
                    <= LAST_BINARY_FUNCTION,
            }
        }
}

/// Whether `execute` can be called on every operator with the operands that
/// a program hands to it: two for a binary operator, one for a unary one.
pub open spec fn accepts_operands<V, X: Fn(usize, &V, Option<&V>) -> V>(execute: &X) -> bool {
    forall|function_id: usize, a: &V, b: Option<&V>|
        function_id < NBR_FUNCTIONS && (function_id <= LAST_BINARY_FUNCTION <==> b.is_some())
            ==> #[trigger] execute.requires((function_id, a, b))
}

/// Whether `r` is a value that `execute` can return for operator
/// `function_id` on the operands `a` and, if there is one, `b`.
pub open spec fn applies<V, X: Fn(usize, &V, Option<&V>) -> V>(
    execute: &X,
    function_id: usize,
    a: V,
    b: Option<V>,
    r: V,
) -> bool {
    match b {
        Some(b) => execute.ensures((function_id, &a, Some(&b)), r),
        None => execute.ensures((function_id, &a, None::<&V>), r),
    }
}

/// Whether the slot of `step` holds a value that the step can produce from
/// the data and from the slots of its operands.
pub open spec fn step_holds<V: Clone, X: Fn(usize, &V, Option<&V>) -> V>(
    step: Instruction,
    inputs: Seq<V>,
    execute: &X,
    slots: Seq<Option<V>>,
) -> bool {
    &&& slots[step.target as int] is Some
    &&& match step.operation {
        Operation::Load { feature } => cloned(inputs[feature as int], slots[step.target as int]->0),
        Operation::Forward { source } => slots[source as int] is Some && cloned(
            slots[source as int]->0,
            slots[step.target as int]->0,
        ),
        Operation::Unary { function_id, source } => slots[source as int] is Some && applies(
            execute,
            function_id,
            slots[source as int]->0,
            None,
            slots[step.target as int]->0,
        ),
        Operation::Binary { function_id, left, right } => slots[left as int] is Some
            && slots[right as int] is Some && applies(
            execute,
            function_id,
            slots[left as int]->0,
            Some(slots[right as int]->0),
            slots[step.target as int]->0,
        ),
    }
}

/// Whether `slots` is what a run of `program` leaves behind: one slot per
/// position, filled exactly where a step has its target, each with a value
/// that the step can produce.
pub open spec fn computed_by<V: Clone, X: Fn(usize, &V, Option<&V>) -> V>(
    program: Seq<Instruction>,
    inputs: Seq<V>,
    execute: &X,
    slots: Seq<Option<V>>,
) -> bool {
    &&& forall|k: int|
        0 <= k < program.len() ==> step_holds(#[trigger] program[k], inputs, execute, slots)
    &&& forall|p: int|
        0 <= p < slots.len() && (#[trigger] slots[p]) is Some ==> exists|k: int|
            0 <= k < program.len() && program[k].target == p
}

/// Runs `program` on the rows `inputs`, applying operators with `execute`.
/// Each step keeps its value in the slot of its target; a slot that no step
/// targets stays empty. No step ever finds the slot of an operand empty.
pub fn run<V: Clone, X: Fn(usize, &V, Option<&V>) -> V>(
    program: &Vec<Instruction>,
    inputs: &Vec<V>,
    nbr_nodes: usize,
    execute: &X,
) -> (slots: Vec<Option<V>>)
    requires
        executable(program@, inputs.len() as int, nbr_nodes as int),
        accepts_operands(execute),
    ensures
        slots.len() == nbr_nodes,
        computed_by(program@, inputs@, execute, slots@),
{
    let mut slots: Vec<Option<V>> = Vec::with_capacity(nbr_nodes);
    let mut p: usize = 0;
    while p < nbr_nodes
        invariant
            p <= nbr_nodes,
            slots.len() == p,
            forall|q: int| 0 <= q < p ==> (#[trigger] slots[q]) is None,
        decreases nbr_nodes - p,
    {
        slots.push(None);
        p = p + 1;
    }
    let mut k: usize = 0;
    while k < program.len()
        invariant
            k <= program.len(),
            slots.len() == nbr_nodes,
            executable(program@, inputs.len() as int, nbr_nodes as int),
            accepts_operands(execute),
            forall|j: int| 0 <= j < k ==> step_holds(#[trigger] program[j], inputs@, execute, slots@),
            forall|j: int| 0 <= j < k ==> (#[trigger] slots[program[j].target as int]) is Some,
            forall|q: int|
                0 <= q < slots.len() && (#[trigger] slots[q]) is Some ==> exists|j: int|
                    0 <= j < k && program[j].target == q,
        decreases program.len() - k,
    {
        let ghost before = slots@;
        let step: Instruction = program[k];
        assert(program[k as int].target < nbr_nodes);
        assert forall|q: int| program[k as int].operation.reads(q) implies 0 <= q < nbr_nodes
            && before[q] is Some by {
            let j = choose|j: int| 0 <= j < k && program[j].target == q;
            assert(slots[program[j].target as int] is Some);
        }
        let value: V = match step.operation {
            Operation::Load { feature } => inputs[feature].clone(),
            Operation::Forward { source } => {
                assert(step.operation.reads(source as int));
                slots[source].as_ref().unwrap().clone()
            },
            Operation::Unary { function_id, source } => {
                assert(step.operation.reads(source as int));
                execute(function_id, slots[source].as_ref().unwrap(), None)
            },
            Operation::Binary { function_id, left, right } => {
                assert(step.operation.reads(left as int));
                assert(step.operation.reads(right as int));
                execute(
                    function_id,
                    slots[left].as_ref().unwrap(),
                    Some(slots[right].as_ref().unwrap()),
                )
            },
        };
        slots[step.target] = Some(value);
        proof {
            let target = step.target as int;
            assert(slots@ == before.update(target, Some(value)));
            assert(before[target] is None) by {
                if before[target] is Some {
                    let j = choose|j: int| 0 <= j < k && program[j].target == target;
                    assert(program[j].target < program[k as int].target);
                }
            }
            assert forall|j: int| 0 <= j < k implies step_holds(
                #[trigger] program[j],
                inputs@,
                execute,
                slots@,
            ) by {
                assert(step_holds(program[j], inputs@, execute, before));
                assert(before[program[j].target as int] is Some);
                assert forall|q: int| program[j].operation.reads(q) implies q != target by {
                    let i = choose|i: int| 0 <= i < j && program[i].target == q;
                    assert(program[i].target < program[k as int].target);
                }
                match program[j].operation {
                    Operation::Load { feature } => {},
                    Operation::Forward { source } => {
                        assert(program[j].operation.reads(source as int));
                    },
                    Operation::Unary { function_id, source } => {
                        assert(program[j].operation.reads(source as int));
                    },
                    Operation::Binary { function_id, left, right } => {
                        assert(program[j].operation.reads(left as int));
                        assert(program[j].operation.reads(right as int));
                    },
                }
            }
            assert(step_holds(program[k as int], inputs@, execute, slots@));
            assert forall|q: int| 0 <= q < slots.len() && (#[trigger] slots[q]) is Some implies exists|
                j: int,
            | 0 <= j < k + 1 && program[j].target == q by {
                if q != target {
                    assert(before[q] is Some);
                    let j = choose|j: int| 0 <= j < k && program[j].target == q;
                    assert(program[j].target == q);
                } else {
                    assert(program[k as int].target == q);
                }
            }
        }
        k = k + 1;
    }
    slots
}

/// Whether `execute` is a function of its arguments: on the same operator
/// and operands it cannot return two different values.
pub open spec fn single_valued<V, X: Fn(usize, &V, Option<&V>) -> V>(execute: &X) -> bool {
    forall|function_id: usize, a: V, b: Option<V>, r1: V, r2: V|
        #[trigger] applies(execute, function_id, a, b, r1) && #[trigger] applies(
            execute,
            function_id,
            a,
            b,
            r2,
        ) ==> r1 == r2
}

/// Whether a clone of a value of `V` always equals that value.
pub open spec fn exact_clones<V: Clone>() -> bool {
    forall|a: V, b: V| #[trigger] cloned(a, b) ==> a == b
}

/// With operators that are single-valued and clones that are exact, the
/// steps of a program decide what each of them produces: two runs on the
/// same data agree on the first `k` steps.
pub proof fn lemma_runs_agree<V: Clone, X: Fn(usize, &V, Option<&V>) -> V>(
    program: Seq<Instruction>,
    inputs: Seq<V>,
    execute: &X,
    first: Seq<Option<V>>,
    second: Seq<Option<V>>,
    k: int,
)
    requires
        runnable(program),
        single_valued(execute),
        exact_clones::<V>(),
        computed_by(program, inputs, execute, first),
        computed_by(program, inputs, execute, second),
        0 <= k <= program.len(),
    ensures
        forall|j: int|
            0 <= j < k ==> first[(#[trigger] program[j]).target as int] == second[program[j].target as int],
    decreases k,
{
    if k > 0 {
        lemma_runs_agree(program, inputs, execute, first, second, k - 1);
        let step = program[k - 1];
        let target = step.target as int;
        assert(step_holds(step, inputs, execute, first));
        assert(step_holds(step, inputs, execute, second));
        assert forall|q: int| step.operation.reads(q) implies first[q] == second[q] by {
            let j = choose|j: int| 0 <= j < k - 1 && program[j].target == q;
            assert(first[program[j].target as int] == second[program[j].target as int]);
        }
        match step.operation {
            Operation::Load { feature } => {},
            Operation::Forward { source } => {
                assert(step.operation.reads(source as int));
            },
            Operation::Unary { function_id, source } => {
                assert(step.operation.reads(source as int));
            },
            Operation::Binary { function_id, left, right } => {
                assert(step.operation.reads(left as int));
                assert(step.operation.reads(right as int));
            },
        }
        assert(first[target]->0 == second[target]->0);
    }
}

} // verus!
