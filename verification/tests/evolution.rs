use cgp::datasets::fitness_metric_type::FitnessFuncType;
use cgp::global_params::CgpParameters;
use cgp::utils::fitness_metrics::fitness_categorical_multiclass;
use cgp::utils::runner::Runner;
use cgp::utils::utility_funcs::{decode_classes, transpose};

fn code(x: f32) -> u64 {
    let bits = x.to_bits();
    (if bits >> 31 == 1 { !bits } else { bits | 0x8000_0000 }) as u64
}

fn decode(code: u64) -> f32 {
    let bits = code as u32;
    f32::from_bits(if bits >> 31 == 1 { bits & 0x7fff_ffff } else { !bits })
}

fn apply(function_id: usize, a: &Vec<f32>, b: Option<&Vec<f32>>) -> Vec<f32> {
    let near_zero = |x: f32| x.abs() <= 0.0001;
    match function_id {
        0 => a.iter().zip(b.unwrap()).map(|(x, y)| x + y).collect(),
        1 => a.iter().zip(b.unwrap()).map(|(x, y)| x - y).collect(),
        2 => a.iter().zip(b.unwrap()).map(|(x, y)| x * y).collect(),
        3 => a.iter().zip(b.unwrap()).map(|(x, y)| if near_zero(*y) { 1.0 } else { x / y }).collect(),
        4 => a.iter().map(|x| x.sin()).collect(),
        5 => a.iter().map(|x| x.cos()).collect(),
        6 => a.iter().map(|x| if near_zero(*x) { 1.0 } else { x.abs().ln() }).collect(),
        7 => a.iter().map(|x| x.exp()).collect(),
        _ => panic!("wrong function id: {}", function_id),
    }
}

fn multiclass_cost(outs: &Vec<Vec<f32>>, labels: &Vec<usize>) -> u64 {
    let codes: Vec<Vec<u64>> =
        outs.iter().map(|row| row.iter().map(|x| code(*x)).collect()).collect();
    let predictions: Vec<usize> = decode_classes(codes);
    let recalls = fitness_categorical_multiclass(&predictions, labels);
    let mut accuracy: f32 = 0.0;
    for r in &recalls {
        accuracy += r.hits as f32 / r.occurrences as f32;
    }
    let mut cost = 1.0 - accuracy / recalls.len() as f32;
    if !cost.is_finite() {
        cost = f32::MAX;
    }
    code(cost)
}

/// The depth of the graph below the first output, for the first sample.
fn depth(outs: &Vec<Vec<i64>>, _labels: &Vec<usize>) -> u64 {
    outs[0][0] as u64
}

/// One more than the deepest operand, sample by sample.
fn deepen(_function_id: usize, a: &Vec<i64>, b: Option<&Vec<i64>>) -> Vec<i64> {
    match b {
        Some(b) => a.iter().zip(b).map(|(x, y)| x.max(y) + 1).collect(),
        None => a.iter().map(|x| x + 1).collect(),
    }
}

fn tiny_data() -> (Vec<Vec<f32>>, Vec<usize>) {
    let samples: Vec<Vec<f32>> = vec![
        vec![0.1, 1.0, -0.5],
        vec![0.9, 0.2, 0.4],
        vec![-0.3, 0.8, 0.7],
        vec![1.2, -0.6, 0.1],
        vec![0.4, 0.4, -1.1],
        vec![-0.8, 0.3, 0.9],
    ];
    (samples, vec![0, 1, 0, 1, 1, 0])
}

fn settings() -> CgpParameters {
    CgpParameters {
        graph_width: 10,
        mu: 1,
        lambda: 4,
        eval_after_iterations: 500,
        nbr_inputs: 3,
        nbr_outputs: 2,
        fitness_func_type: FitnessFuncType::ClassificationMultiClass,
    }
}

#[test]
fn run_of_one_hundred_generations_never_gets_worse() {
    let (samples, labels) = tiny_data();
    let mut runner =
        Runner::new(settings(), samples, labels, None, None, &apply, &multiclass_cost);
    let mut best = runner.get_best_fitness();
    assert!(decode(best).is_finite());
    assert!(decode(best) >= 0.0 && decode(best) <= 1.0);
    for _ in 0..100 {
        runner.learn_step(&apply, &multiclass_cost);
        let now = runner.get_best_fitness();
        assert!(now <= best);
        assert!(decode(now).is_finite());
        best = now;
    }
    assert_eq!(runner.get_test_fitness(&apply, &multiclass_cost), None);
}

#[test]
fn the_parent_holds_the_best_fitness() {
    let (samples, labels) = tiny_data();
    let features = transpose(samples.clone());
    let mut runner =
        Runner::new(settings(), samples, labels.clone(), None, None, &apply, &multiclass_cost);
    for _ in 0..30 {
        runner.learn_step(&apply, &multiclass_cost);
        let mut parent = runner.get_parent();
        assert!(parent.is_well_formed());
        assert_eq!(
            parent.evaluate(&features, &labels, &apply, &multiclass_cost),
            runner.get_best_fitness()
        );
    }
}

#[test]
fn the_best_individual_survives_a_generation() {
    let samples = vec![vec![0i64, 0, 0]];
    let mut runner = Runner::new(settings(), samples, vec![0], None, None, &deepen, &depth);
    for _ in 0..50 {
        let before = runner.get_best_fitness();
        let mut parent = runner.get_parent();
        let features = vec![vec![0i64], vec![0], vec![0]];
        assert_eq!(parent.evaluate(&features, &vec![0], &deepen, &depth), before);
        runner.learn_step(&deepen, &depth);
        assert!(runner.get_best_fitness() <= before);
    }
}

#[test]
fn test_fitness_is_the_best_held_out_score() {
    let samples = vec![vec![0i64, 0, 0]];
    let held_out = vec![vec![500i64, 500, 500], vec![1, 2, 3]];
    let mut runner = Runner::new(
        settings(),
        samples,
        vec![0],
        Some(held_out),
        Some(vec![0, 0]),
        &deepen,
        &depth,
    );
    runner.learn_step(&deepen, &depth);
    let best_before = runner.get_best_fitness();
    let test = runner.get_test_fitness(&deepen, &depth).unwrap();
    assert!(test >= 500 && test <= 511);
    assert_eq!(runner.get_best_fitness(), best_before);
    let constant = |_outs: &Vec<Vec<i64>>, labels: &Vec<usize>| 40 + labels.len() as u64;
    assert_eq!(runner.get_test_fitness(&deepen, &constant), Some(42));
}

#[test]
fn a_population_of_one_stands_still() {
    let mut params = settings();
    params.lambda = 0;
    let mut runner =
        Runner::new(params, vec![vec![0i64, 0, 0]], vec![0], None, None, &deepen, &depth);
    let parent = runner.get_parent();
    runner.learn_step(&deepen, &depth);
    let after = runner.get_parent();
    assert_eq!(
        parent.nodes_grid.iter().map(|n| (n.function_id, n.connection0)).collect::<Vec<_>>(),
        after.nodes_grid.iter().map(|n| (n.function_id, n.connection0)).collect::<Vec<_>>()
    );
}

#[test]
fn the_runner_takes_samples_by_row() {
    // three samples of two features; the output passes a feature on
    let mut params = settings();
    params.nbr_inputs = 2;
    params.graph_width = 0;
    params.nbr_outputs = 1;
    let total = |outs: &Vec<Vec<i64>>, _labels: &Vec<usize>| outs[0].iter().sum::<i64>() as u64;
    let never = |_function_id: usize, a: &Vec<i64>, _b: Option<&Vec<i64>>| a.clone();
    let runner = Runner::new(
        params,
        vec![vec![1i64, 10], vec![2, 20], vec![3, 30]],
        vec![0, 0, 0],
        None,
        None,
        &never,
        &total,
    );
    let best = runner.get_best_fitness();
    assert!(best == 6 || best == 60);
    let genes = runner.get_parent().nodes_grid;
    assert_eq!(best, if genes[2].connection0 == 0 { 6 } else { 60 });
}
