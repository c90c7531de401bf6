use cgp::datasets::fitness_metric_type::FitnessFuncType;
use cgp::global_params::CgpParameters;
use cgp::utils::node_type::NodeType;
use cgp::utils::utility_funcs::{gen_random_number_for_node, skip_excluded};
use cgp::vanilla_cgp::chromosome::Chromosome;
use cgp::vanilla_cgp::node::{Node, NO_CONNECTION};

fn layout(nbr_inputs: usize, graph_width: usize, nbr_outputs: usize) -> CgpParameters {
    CgpParameters {
        graph_width,
        mu: 1,
        lambda: 4,
        eval_after_iterations: 500,
        nbr_inputs,
        nbr_outputs,
        fitness_func_type: FitnessFuncType::ClassificationMultiClass,
    }
}

fn genes(c: &Chromosome) -> Vec<(usize, usize, usize)> {
    c.nodes_grid.iter().map(|n| (n.function_id, n.connection0, n.connection1)).collect()
}

fn well_formed(c: &Chromosome) -> bool {
    let start = c.params.nbr_inputs + c.params.graph_width;
    c.nodes_grid.iter().enumerate().all(|(i, n)| match n.node_type {
        NodeType::InputNode => n.connection0 == NO_CONNECTION && n.connection1 == NO_CONNECTION,
        NodeType::ComputationalNode => {
            n.connection0 < i && n.connection1 < i && n.function_id < 8
        }
        NodeType::OutputNode => n.connection0 < start && n.connection1 == NO_CONNECTION,
    })
}

#[test]
fn skip_excluded_maps_onto_the_other_values() {
    assert_eq!(skip_excluded(0, 3), 0);
    assert_eq!(skip_excluded(2, 3), 2);
    assert_eq!(skip_excluded(3, 3), 4);
    assert_eq!(skip_excluded(4, 3), 5);
    assert_eq!(skip_excluded(0, 0), 1);
    let reached: Vec<usize> = (0..4).map(|draw| skip_excluded(draw, 2)).collect();
    assert_eq!(reached, vec![0, 1, 3, 4]);
}

#[test]
fn redraw_avoids_the_excluded_value() {
    for _ in 0..500 {
        let r = gen_random_number_for_node(3, 8);
        assert!(r < 8 && r != 3);
    }
    for _ in 0..50 {
        assert_eq!(gen_random_number_for_node(0, 2), 1);
        assert_eq!(gen_random_number_for_node(1, 2), 0);
        assert!(gen_random_number_for_node(usize::MAX, 5) < 5);
    }
}

#[test]
fn redraw_reaches_every_other_value() {
    let mut seen = [false; 6];
    for _ in 0..2000 {
        seen[gen_random_number_for_node(4, 6)] = true;
    }
    assert_eq!(seen, [true, true, true, true, false, true]);
}

#[test]
fn redraw_over_a_single_value_is_zero() {
    assert_eq!(gen_random_number_for_node(0, 1), 0);
    assert_eq!(gen_random_number_for_node(5, 1), 0);
    assert_eq!(gen_random_number_for_node(0, 0), 0);
}

#[test]
fn mutate_target_changes_the_selected_gene_only() {
    for _ in 0..200 {
        let before = Node::with_genes(6, 3, 10, NodeType::ComputationalNode, 2, 4, 5);
        let mut first = before;
        first.mutate_target(0);
        assert!(first.connection0 != 4 && first.connection0 < 6);
        assert_eq!((first.connection1, first.function_id), (5, 2));
        let mut second = before;
        second.mutate_target(1);
        assert!(second.connection1 != 5 && second.connection1 < 6);
        assert_eq!((second.connection0, second.function_id), (4, 2));
        let mut operator = before;
        operator.mutate_target(2);
        assert!(operator.function_id != 2 && operator.function_id < 8);
        assert_eq!((operator.connection0, operator.connection1), (4, 5));
    }
}

#[test]
fn mutate_changes_exactly_one_gene_of_a_computational_node() {
    for _ in 0..300 {
        let before = Node::with_genes(6, 3, 10, NodeType::ComputationalNode, 2, 4, 5);
        let mut node = before;
        node.mutate();
        let changed = [
            node.connection0 != before.connection0,
            node.connection1 != before.connection1,
            node.function_id != before.function_id,
        ];
        assert_eq!(changed.iter().filter(|c| **c).count(), 1);
        assert!(node.connection0 < 6 && node.connection1 < 6 && node.function_id < 8);
        assert_eq!(node.position, 6);
        assert_eq!(node.node_type, NodeType::ComputationalNode);
    }
}

#[test]
fn mutate_redraws_the_connection_of_an_output_node() {
    for _ in 0..300 {
        let mut node = Node::with_genes(13, 3, 10, NodeType::OutputNode, 1, 7, 0);
        node.mutate();
        assert!(node.connection0 != 7 && node.connection0 < 13);
        assert_eq!(node.connection1, NO_CONNECTION);
        assert_eq!(node.function_id, 1);
    }
}

#[test]
fn mutate_connection_and_function_stay_in_range() {
    for _ in 0..100 {
        let mut connection: usize = 2;
        Node::mutate_connection(&mut connection, 5);
        assert!(connection < 5 && connection != 2);
        let mut node = Node::with_genes(6, 3, 10, NodeType::ComputationalNode, 7, 0, 0);
        node.mutate_function();
        assert!(node.function_id < 7);
        let mut output = Node::with_genes(13, 3, 10, NodeType::OutputNode, 0, 12, 0);
        output.mutate_output_node();
        assert!(output.connection0 < 12);
        let mut inner = Node::with_genes(2, 2, 10, NodeType::ComputationalNode, 0, 1, 1);
        inner.mutate_computational_node();
        assert!(inner.connection0 < 2 && inner.connection1 < 2 && inner.function_id < 8);
    }
}

#[test]
fn mutate_single_is_visible() {
    for _ in 0..200 {
        let mut c = Chromosome::new(layout(3, 10, 2));
        c.get_active_nodes_id();
        let before = genes(&c);
        let active_before = c.active_nodes.clone();
        let position = c.mutate_single();
        assert!(position >= 3 && position < 15);
        assert!(active_before.contains(&position));
        assert_eq!(c.active_nodes, active_before);
        let after = genes(&c);
        assert_ne!(after[position], before[position]);
        for q in &active_before {
            if *q != position {
                assert_eq!(after[*q], before[*q]);
            }
        }
        assert!(well_formed(&c));
        c.get_active_nodes_id();
        assert!(c.active_nodes.contains(&position));
    }
}

#[test]
fn mutate_single_spares_the_first_gene_behind_a_single_input() {
    for _ in 0..200 {
        let mut c = Chromosome::new(layout(1, 4, 1));
        c.get_active_nodes_id();
        let first = c.nodes_grid[1];
        let position = c.mutate_single();
        assert!(position >= 2);
        assert_eq!(
            (c.nodes_grid[1].function_id, c.nodes_grid[1].connection0, c.nodes_grid[1].connection1),
            (first.function_id, first.connection0, first.connection1)
        );
        assert_eq!(c.nodes_grid[1].connection0, 0);
    }
}

#[test]
fn mutate_single_with_one_computational_gene() {
    for _ in 0..100 {
        let mut c = Chromosome::new(layout(1, 1, 1));
        c.get_active_nodes_id();
        let before = c.nodes_grid[2].connection0;
        let position = c.mutate_single();
        assert_eq!(position, 2);
        assert_eq!(c.nodes_grid[2].connection0, 1 - before);
        let mut wide = Chromosome::new(layout(2, 1, 1));
        wide.get_active_nodes_id();
        let hit = wide.mutate_single();
        assert!(hit == 2 || hit == 3);
        assert!(well_formed(&wide));
    }
}

#[test]
fn mutate_prob_with_certainty_mutates_every_mutable_gene() {
    for _ in 0..50 {
        let mut c = Chromosome::new(layout(3, 10, 2));
        let before = genes(&c);
        c.mutate_prob(1, 1);
        let after = genes(&c);
        for i in 0..3 {
            assert_eq!(after[i], before[i]);
        }
        for i in 3..15 {
            assert_ne!(after[i], before[i]);
        }
        assert!(well_formed(&c));
    }
}

#[test]
fn mutate_prob_of_zero_mutates_nothing() {
    let mut c = Chromosome::new(layout(3, 10, 2));
    let before = genes(&c);
    c.mutate_prob(0, 5);
    assert_eq!(genes(&c), before);
}

#[test]
fn mutate_prob_in_between_mutates_some() {
    let mut changed = 0;
    let mut total = 0;
    for _ in 0..200 {
        let mut c = Chromosome::new(layout(3, 10, 2));
        let before = genes(&c);
        c.mutate_prob(1, 2);
        let after = genes(&c);
        changed += (3..15).filter(|i| after[*i] != before[*i]).count();
        total += 12;
        assert!(well_formed(&c));
    }
    assert!(changed > total / 4 && changed < 3 * total / 4);
}

#[test]
fn mutate_if_drawn_follows_the_draw() {
    let mut c = Chromosome::new(layout(3, 10, 2));
    let before = genes(&c);
    c.mutate_if_drawn(7, 5, 5);
    assert_eq!(genes(&c), before);
    c.mutate_if_drawn(7, 4, 5);
    let after = genes(&c);
    assert_ne!(after[7], before[7]);
    for i in (0..15).filter(|i| *i != 7) {
        assert_eq!(after[i], before[i]);
    }
}
