use cgp::datasets::fitness_metric_type::FitnessFuncType;
use cgp::global_params::CgpParameters;
use cgp::utils::node_type::NodeType;
use cgp::vanilla_cgp::chromosome::Chromosome;
use cgp::vanilla_cgp::node::{Node, NO_CONNECTION};
use cgp::vanilla_cgp::program::{run, Instruction, Operation};

fn params(nbr_inputs: usize, graph_width: usize, nbr_outputs: usize) -> CgpParameters {
    CgpParameters {
        graph_width,
        mu: 1,
        lambda: 4,
        eval_after_iterations: 500,
        nbr_inputs,
        nbr_outputs,
        fitness_func_type: FitnessFuncType::Regression,
    }
}

fn gene(position: usize, node_type: NodeType, function_id: usize, c0: usize, c1: usize) -> Node {
    Node::with_genes(position, 2, 3, node_type, function_id, c0, c1)
}

/// Two inputs, three computational genes, one output:
/// 2 = add(0, 1), 3 = sin(2), 4 = mul(0, 0), 5 -> 3.
fn small_chromosome() -> Chromosome {
    Chromosome {
        params: params(2, 3, 1),
        nodes_grid: vec![
            gene(0, NodeType::InputNode, 0, 9, 9),
            gene(1, NodeType::InputNode, 0, 9, 9),
            gene(2, NodeType::ComputationalNode, 0, 0, 1),
            gene(3, NodeType::ComputationalNode, 4, 2, 0),
            gene(4, NodeType::ComputationalNode, 2, 0, 0),
            gene(5, NodeType::OutputNode, 0, 3, 9),
        ],
        output_node_ids: vec![5],
        active_nodes: vec![],
    }
}

fn acyclic(chromosome: &Chromosome) -> bool {
    let p = &chromosome.params;
    chromosome.nodes_grid.iter().enumerate().all(|(i, n)| {
        n.position == i
            && match n.node_type {
                NodeType::InputNode => {
                    i < p.nbr_inputs
                        && n.connection0 == NO_CONNECTION
                        && n.connection1 == NO_CONNECTION
                }
                NodeType::ComputationalNode => {
                    i >= p.nbr_inputs
                        && i < p.nbr_inputs + p.graph_width
                        && n.connection0 < i
                        && n.connection1 < i
                        && n.function_id < 8
                }
                NodeType::OutputNode => {
                    i >= p.nbr_inputs + p.graph_width
                        && n.connection0 < p.nbr_inputs + p.graph_width
                        && n.connection0 < i
                }
            }
    })
}

fn closed_under_reading(chromosome: &Chromosome) -> bool {
    let active = &chromosome.active_nodes;
    active.iter().all(|&q| {
        let n = &chromosome.nodes_grid[q];
        match n.node_type {
            NodeType::InputNode => true,
            NodeType::OutputNode => active.contains(&n.connection0),
            NodeType::ComputationalNode => {
                active.contains(&n.connection0)
                    && (n.function_id > 3 || active.contains(&n.connection1))
            }
        }
    })
}

#[test]
fn with_genes_keeps_only_the_connections_of_the_role() {
    let input = Node::with_genes(0, 2, 3, NodeType::InputNode, 5, 7, 8);
    assert_eq!(input.connection0, NO_CONNECTION);
    assert_eq!(input.connection1, NO_CONNECTION);
    assert_eq!(input.function_id, 5);
    let inner = Node::with_genes(3, 2, 3, NodeType::ComputationalNode, 1, 2, 0);
    assert_eq!((inner.connection0, inner.connection1), (2, 0));
    let output = Node::with_genes(5, 2, 3, NodeType::OutputNode, 1, 4, 0);
    assert_eq!((output.connection0, output.connection1), (4, NO_CONNECTION));
    assert_eq!(NO_CONNECTION, usize::MAX);
}

#[test]
fn new_node_draws_inside_the_legal_range() {
    for _ in 0..200 {
        let inner = Node::new(4, 3, 10, NodeType::ComputationalNode);
        assert!(inner.function_id < 8);
        assert!(inner.connection0 < 4 && inner.connection1 < 4);
        let output = Node::new(13, 3, 10, NodeType::OutputNode);
        assert!(output.connection0 < 13);
        assert_eq!(output.connection1, NO_CONNECTION);
        let input = Node::new(1, 3, 10, NodeType::InputNode);
        assert_eq!(input.connection0, NO_CONNECTION);
        assert_eq!(input.connection1, NO_CONNECTION);
    }
}

#[test]
fn new_chromosome_is_partitioned_and_acyclic() {
    for _ in 0..50 {
        let c = Chromosome::new(params(3, 10, 2));
        assert_eq!(c.nodes_grid.len(), 15);
        assert_eq!(c.output_node_ids, vec![13, 14]);
        assert!(c.active_nodes.is_empty());
        assert!(acyclic(&c));
        assert_eq!(c.nodes_grid[2].node_type, NodeType::InputNode);
        assert_eq!(c.nodes_grid[3].node_type, NodeType::ComputationalNode);
        assert_eq!(c.nodes_grid[12].node_type, NodeType::ComputationalNode);
        assert_eq!(c.nodes_grid[13].node_type, NodeType::OutputNode);
    }
}

#[test]
fn new_chromosome_without_computational_genes() {
    let c = Chromosome::new(params(2, 0, 1));
    assert_eq!(c.nodes_grid.len(), 3);
    assert!(c.nodes_grid[2].connection0 < 2);
    let empty = Chromosome::new(params(0, 0, 0));
    assert!(empty.nodes_grid.is_empty());
}

#[test]
fn active_nodes_of_a_known_graph() {
    let mut c = small_chromosome();
    c.get_active_nodes_id();
    assert_eq!(c.active_nodes, vec![0, 1, 2, 3, 5]);
}

#[test]
fn unary_operator_hides_its_second_connection() {
    let mut c = small_chromosome();
    c.nodes_grid[5].connection0 = 4;
    c.nodes_grid[4] = gene(4, NodeType::ComputationalNode, 6, 3, 1);
    c.nodes_grid[3] = gene(3, NodeType::ComputationalNode, 7, 0, 2);
    c.get_active_nodes_id();
    assert_eq!(c.active_nodes, vec![0, 3, 4, 5]);
    c.nodes_grid[4].function_id = 3;
    c.get_active_nodes_id();
    assert_eq!(c.active_nodes, vec![0, 1, 3, 4, 5]);
}

#[test]
fn active_set_holds_outputs_and_is_closed() {
    for _ in 0..100 {
        let mut c = Chromosome::new(params(3, 10, 2));
        c.get_active_nodes_id();
        assert!(c.active_nodes.contains(&13) && c.active_nodes.contains(&14));
        assert!(closed_under_reading(&c));
        assert!(c.active_nodes.windows(2).all(|w| w[0] < w[1]));
    }
}

#[test]
fn active_nodes_ignore_a_stale_list() {
    let mut c = small_chromosome();
    c.active_nodes = vec![4, 4, 1];
    c.get_active_nodes_id();
    assert_eq!(c.active_nodes, vec![0, 1, 2, 3, 5]);
    c.get_active_nodes_id();
    assert_eq!(c.active_nodes, vec![0, 1, 2, 3, 5]);
}

#[test]
fn program_of_a_known_graph() {
    let mut c = small_chromosome();
    c.get_active_nodes_id();
    let program = c.program();
    assert_eq!(
        program,
        vec![
            Instruction { target: 0, operation: Operation::Load { feature: 0 } },
            Instruction { target: 1, operation: Operation::Load { feature: 1 } },
            Instruction {
                target: 2,
                operation: Operation::Binary { function_id: 0, left: 0, right: 1 }
            },
            Instruction { target: 3, operation: Operation::Unary { function_id: 4, source: 2 } },
            Instruction { target: 5, operation: Operation::Forward { source: 3 } },
        ]
    );
}

#[test]
fn instruction_splits_operators_by_arity() {
    for function_id in 0..8 {
        let step = gene(4, NodeType::ComputationalNode, function_id, 1, 3).instruction();
        assert_eq!(step.target, 4);
        if function_id <= 3 {
            assert_eq!(step.operation, Operation::Binary { function_id, left: 1, right: 3 });
        } else {
            assert_eq!(step.operation, Operation::Unary { function_id, source: 1 });
        }
    }
}

#[test]
fn every_operand_is_produced_before_it_is_read() {
    for _ in 0..100 {
        let mut c = Chromosome::new(params(3, 10, 2));
        c.get_active_nodes_id();
        let program = c.program();
        let mut produced: Vec<usize> = vec![];
        for step in &program {
            match step.operation {
                Operation::Load { feature } => assert!(feature < 3 && feature == step.target),
                Operation::Forward { source } => assert!(produced.contains(&source)),
                Operation::Unary { source, .. } => assert!(produced.contains(&source)),
                Operation::Binary { left, right, .. } => {
                    assert!(produced.contains(&left) && produced.contains(&right))
                }
            }
            produced.push(step.target);
        }
        assert_eq!(&produced[produced.len() - 2..], &[13, 14]);
    }
}

/// Integer stand-ins for the operators: two operands up to id 3, one above.
fn integer_operator(function_id: usize, a: &i64, b: Option<&i64>) -> i64 {
    match function_id {
        0 => a + b.unwrap(),
        1 => a - b.unwrap(),
        2 => a * b.unwrap(),
        3 => if *b.unwrap() == 0 { 1 } else { a / b.unwrap() },
        4 => -a,
        5 => a * a,
        6 => a + 1,
        7 => 2 * a,
        _ => panic!("wrong function id: {}", function_id),
    }
}

fn first_output(outs: &Vec<i64>, labels: &Vec<usize>) -> u64 {
    (outs[0] + 1000) as u64 + labels.len() as u64 * 1_000_000
}

#[test]
fn evaluate_follows_the_data_through_the_graph() {
    let mut c = small_chromosome();
    // 2 = 3 + 4, 3 = -(7), output = -7
    let fitness = c.evaluate(&vec![3i64, 4], &vec![0, 0], &integer_operator, &first_output);
    assert_eq!(fitness, 2_000_993);
    assert_eq!(c.active_nodes, vec![0, 1, 2, 3, 5]);
    // the output now reads 4 = 3 * 3
    c.nodes_grid[5].connection0 = 4;
    assert_eq!(c.evaluate(&vec![3i64, 4], &vec![], &integer_operator, &first_output), 1009);
    assert_eq!(c.active_nodes, vec![0, 4, 5]);
    // 4 = (3 + 4) / (-7)
    c.nodes_grid[4] = gene(4, NodeType::ComputationalNode, 3, 2, 3);
    assert_eq!(c.evaluate(&vec![3i64, 4], &vec![], &integer_operator, &first_output), 999);
    // an output that reads an input passes the row on
    c.nodes_grid[5].connection0 = 1;
    assert_eq!(c.evaluate(&vec![3i64, 4], &vec![], &integer_operator, &first_output), 1004);
    assert_eq!(c.active_nodes, vec![1, 5]);
}

#[test]
fn evaluate_hands_every_output_to_the_score_in_order() {
    let mut c = Chromosome {
        params: CgpParameters { nbr_outputs: 3, ..params(2, 3, 3) },
        nodes_grid: vec![
            Node::with_genes(0, 2, 3, NodeType::InputNode, 0, 0, 0),
            Node::with_genes(1, 2, 3, NodeType::InputNode, 0, 0, 0),
            Node::with_genes(2, 2, 3, NodeType::ComputationalNode, 2, 0, 1),
            Node::with_genes(3, 2, 3, NodeType::ComputationalNode, 7, 2, 0),
            Node::with_genes(4, 2, 3, NodeType::ComputationalNode, 1, 3, 0),
            Node::with_genes(5, 2, 3, NodeType::OutputNode, 0, 4, 0),
            Node::with_genes(6, 2, 3, NodeType::OutputNode, 0, 0, 0),
            Node::with_genes(7, 2, 3, NodeType::OutputNode, 0, 3, 0),
        ],
        output_node_ids: vec![5, 6, 7],
        active_nodes: vec![],
    };
    assert!(c.is_well_formed());
    let seen = std::cell::RefCell::new(vec![]);
    let score = |outs: &Vec<i64>, labels: &Vec<usize>| {
        *seen.borrow_mut() = outs.clone();
        labels[1] as u64
    };
    // 2 = 5 * 6, 3 = 2 * 30, 4 = 60 - 5
    assert_eq!(c.evaluate(&vec![5i64, 6], &vec![8, 9], &integer_operator, &score), 9);
    assert_eq!(*seen.borrow(), vec![55, 5, 60]);
}

#[test]
fn evaluate_works_on_rows_of_samples() {
    let mut c = small_chromosome();
    let add_rows = |function_id: usize, a: &Vec<f32>, b: Option<&Vec<f32>>| -> Vec<f32> {
        match function_id {
            0 => a.iter().zip(b.unwrap()).map(|(x, y)| x + y).collect(),
            4 => a.iter().map(|x| x.sin()).collect(),
            _ => panic!("wrong function id: {}", function_id),
        }
    };
    let score = |outs: &Vec<Vec<f32>>, labels: &Vec<usize>| {
        let error: f32 =
            outs[0].iter().zip(labels).map(|(x, y)| (x - *y as f32).abs()).sum::<f32>();
        (error * 1000.0).round() as u64
    };
    let inputs = vec![vec![0.0f32, 1.0], vec![0.0, 0.5]];
    let fitness = c.evaluate(&inputs, &vec![0, 1], &add_rows, &score);
    assert_eq!(fitness, ((1.0f32 - 1.5f32.sin()) * 1000.0).round() as u64);
}

#[test]
fn evaluate_is_repeatable() {
    for _ in 0..20 {
        let mut c = Chromosome::new(params(3, 10, 2));
        let score = |outs: &Vec<i64>, _labels: &Vec<usize>| {
            outs[0].wrapping_mul(31).wrapping_add(outs[1]) as u64
        };
        let wrapping = |function_id: usize, a: &i64, b: Option<&i64>| -> i64 {
            match function_id {
                0 => a.wrapping_add(*b.unwrap()),
                1 => a.wrapping_sub(*b.unwrap()),
                2 => a.wrapping_mul(*b.unwrap()),
                3 => if *b.unwrap() == 0 { 1 } else { a.wrapping_div(*b.unwrap()) },
                4 => a.wrapping_neg(),
                5 => a.wrapping_mul(*a),
                6 => a.wrapping_add(1),
                _ => a.wrapping_mul(2),
            }
        };
        let inputs = vec![3i64, -4, 11];
        let first = c.evaluate(&inputs, &vec![], &wrapping, &score);
        let genes: Vec<(usize, usize, usize)> =
            c.nodes_grid.iter().map(|n| (n.function_id, n.connection0, n.connection1)).collect();
        c.active_nodes = vec![14];
        for _ in 0..5 {
            assert_eq!(c.evaluate(&inputs, &vec![], &wrapping, &score), first);
        }
        let after: Vec<(usize, usize, usize)> =
            c.nodes_grid.iter().map(|n| (n.function_id, n.connection0, n.connection1)).collect();
        assert_eq!(genes, after);
    }
}

#[test]
fn run_fills_exactly_the_targets() {
    let mut c = small_chromosome();
    c.get_active_nodes_id();
    let slots = run(&c.program(), &vec![3i64, 4], 6, &integer_operator);
    assert_eq!(slots, vec![Some(3), Some(4), Some(7), Some(-7), None, Some(-7)]);
    let none: Vec<Option<i64>> = run(&vec![], &vec![], 2, &integer_operator);
    assert_eq!(none, vec![None, None]);
}

#[test]
fn clone_is_a_deep_copy() {
    let mut c = small_chromosome();
    c.get_active_nodes_id();
    let mut copy = c.clone();
    assert_eq!(copy.active_nodes, c.active_nodes);
    assert_eq!(copy.output_node_ids, c.output_node_ids);
    copy.nodes_grid[5].connection0 = 4;
    copy.active_nodes.clear();
    assert_eq!(c.nodes_grid[5].connection0, 3);
    assert_eq!(c.active_nodes, vec![0, 1, 2, 3, 5]);
}

#[test]
fn well_formedness_is_testable() {
    let mut c = small_chromosome();
    assert!(c.is_well_formed());
    assert!(Chromosome::new(params(3, 10, 2)).is_well_formed());
    c.nodes_grid[3].connection0 = 3;
    assert!(!c.is_well_formed());
    assert!(!c.nodes_grid[3].is_well_formed());
    c.nodes_grid[3].connection0 = 2;
    c.nodes_grid[5].connection0 = 5;
    assert!(!c.is_well_formed());
    c.nodes_grid[5].connection0 = 4;
    assert!(c.is_well_formed());
    c.nodes_grid[4].function_id = 8;
    assert!(!c.is_well_formed());
    c.nodes_grid[4].function_id = 7;
    c.output_node_ids = vec![4];
    assert!(!c.is_well_formed());
    c.output_node_ids = vec![5];
    c.nodes_grid[1].node_type = NodeType::ComputationalNode;
    assert!(!c.is_well_formed());
    c.nodes_grid[1].node_type = NodeType::InputNode;
    c.nodes_grid.pop();
    assert!(!c.is_well_formed());
}

#[test]
fn settings_are_testable() {
    assert!(params(3, 10, 2).is_buildable());
    assert!(params(0, 0, 0).is_buildable());
    assert!(!params(0, 1, 1).is_buildable());
    assert!(!params(0, 0, 1).is_buildable());
    assert!(!params(usize::MAX, 1, 0).is_buildable());
    assert!(params(3, 10, 2).is_mutable());
    assert!(params(1, 1, 1).is_mutable());
    assert!(!params(1, 0, 1).is_mutable());
    assert!(params(1, 0, 2).is_mutable());
    assert!(!params(3, 10, 0).is_mutable());
}
