use cgp::utils::fitness_metrics::{
    fitness_categorical_binary, fitness_categorical_multiclass, fitness_regression, ClassRecall,
    ConfusionMatrix, ErrorSum,
};
use cgp::utils::runner::neutral_candidates;
use cgp::utils::utility_funcs::{
    decode_classes, get_argmax, get_argmin, get_argmins_of_value, get_min, holds, transpose,
    vect_difference,
};

/// An order-preserving code of a real cost as an integer.
fn code(x: f32) -> u64 {
    let bits = x.to_bits();
    (if bits >> 31 == 1 { !bits } else { bits | 0x8000_0000 }) as u64
}

#[test]
fn regression_sums_absolute_differences() {
    let error = fitness_regression(&vec![1, 5, 9, 0], &vec![4, 5, 2, 0]);
    assert_eq!(error, ErrorSum { total: 10, samples: 4 });
    assert_eq!(error.total as f32 / error.samples as f32, 2.5);
}

#[test]
fn regression_pairs_up_to_the_shorter_list() {
    assert_eq!(fitness_regression(&vec![3, 8, 100], &vec![1]), ErrorSum { total: 2, samples: 3 });
    assert_eq!(fitness_regression(&vec![3], &vec![1, 7, 7]), ErrorSum { total: 2, samples: 1 });
    assert_eq!(fitness_regression(&vec![], &vec![]), ErrorSum { total: 0, samples: 0 });
}

#[test]
fn regression_total_outgrows_the_machine_word() {
    let error = fitness_regression(&vec![usize::MAX, 0, usize::MAX], &vec![0, usize::MAX, 0]);
    assert_eq!(error.total, 3 * usize::MAX as u128);
}

#[test]
fn balanced_accuracy_of_four_samples() {
    let recalls = fitness_categorical_multiclass(&vec![0, 1, 1, 0], &vec![0, 1, 0, 0]);
    assert_eq!(
        recalls,
        vec![
            ClassRecall { class: 0, hits: 2, occurrences: 3 },
            ClassRecall { class: 1, hits: 1, occurrences: 1 },
        ]
    );
    let mean: f32 = recalls.iter().map(|r| r.hits as f32 / r.occurrences as f32).sum::<f32>()
        / recalls.len() as f32;
    assert!((mean - 5.0 / 6.0).abs() < 1e-6);
    assert!(((1.0 - mean) - 1.0 / 6.0).abs() < 1e-6);
}

#[test]
fn classes_come_in_order_of_first_occurrence() {
    let recalls = fitness_categorical_multiclass(&vec![2, 2, 0, 7, 2], &vec![7, 2, 0, 7, 0]);
    assert_eq!(
        recalls,
        vec![
            ClassRecall { class: 7, hits: 1, occurrences: 2 },
            ClassRecall { class: 2, hits: 1, occurrences: 1 },
            ClassRecall { class: 0, hits: 1, occurrences: 2 },
        ]
    );
}

#[test]
fn a_class_that_is_only_predicted_has_no_recall() {
    let recalls = fitness_categorical_multiclass(&vec![5, 5, 1], &vec![1, 1, 1]);
    assert_eq!(recalls, vec![ClassRecall { class: 1, hits: 1, occurrences: 3 }]);
    assert!(fitness_categorical_multiclass(&vec![1, 2], &vec![]).is_empty());
}

#[test]
fn hits_stop_where_the_predictions_end() {
    let recalls = fitness_categorical_multiclass(&vec![3], &vec![3, 3, 4]);
    assert_eq!(
        recalls,
        vec![
            ClassRecall { class: 3, hits: 1, occurrences: 2 },
            ClassRecall { class: 4, hits: 0, occurrences: 1 },
        ]
    );
}

#[test]
fn confusion_matrix_counts_each_sample_once() {
    let matrix = fitness_categorical_binary(&vec![1, 1, 0, 0, 1, 0, 2], &vec![1, 0, 0, 1, 1, 0, 0]);
    assert_eq!(
        matrix,
        ConfusionMatrix {
            true_positive: 2,
            false_positive: 1,
            true_negative: 2,
            false_negative: 2,
        }
    );
}

#[test]
fn confusion_matrix_of_a_perfect_and_of_a_constant_predictor() {
    let perfect = fitness_categorical_binary(&vec![1, 0, 1, 0], &vec![1, 0, 1, 0]);
    assert_eq!(
        (perfect.true_positive, perfect.false_positive, perfect.true_negative, perfect.false_negative),
        (2, 0, 2, 0)
    );
    let constant = fitness_categorical_binary(&vec![1, 1, 1, 1], &vec![1, 0, 1, 0]);
    assert_eq!(
        (
            constant.true_positive,
            constant.false_positive,
            constant.true_negative,
            constant.false_negative
        ),
        (2, 2, 0, 0)
    );
    let short = fitness_categorical_binary(&vec![1, 0, 0], &vec![1]);
    assert_eq!(short.true_positive + short.false_positive + short.true_negative + short.false_negative, 1);
}

#[test]
fn neutral_selection_prefers_the_other_candidate() {
    let fitness: Vec<u64> = [0.2f32, 0.1, 0.1, 0.3].iter().map(|x| code(*x)).collect();
    let best = get_min(&fitness);
    assert_eq!(best, code(0.1));
    let mut ties = vec![];
    get_argmins_of_value(&fitness, &mut ties, best);
    assert_eq!(ties, vec![1, 2]);
    assert_eq!(neutral_candidates(&fitness, best, 1), vec![2]);
    assert_eq!(neutral_candidates(&fitness, best, 2), vec![1]);
    assert_eq!(neutral_candidates(&fitness, best, 0), vec![1, 2]);
}

#[test]
fn a_single_best_individual_is_the_only_candidate() {
    let fitness: Vec<u64> = vec![30, 10, 20];
    assert_eq!(neutral_candidates(&fitness, 10, 1), vec![1]);
    assert_eq!(neutral_candidates(&fitness, 10, 0), vec![1]);
    assert_eq!(neutral_candidates(&vec![4, 4, 4], 4, 1), vec![0, 2]);
    assert!(neutral_candidates(&fitness, 5, 0).is_empty());
}

#[test]
fn argmins_are_appended() {
    let mut res = vec![9];
    get_argmins_of_value(&vec![5, 1, 5, 5], &mut res, 5);
    assert_eq!(res, vec![9, 0, 2, 3]);
    get_argmins_of_value(&vec![5, 1], &mut res, 7);
    assert_eq!(res, vec![9, 0, 2, 3]);
}

#[test]
fn argmin_is_the_first_and_argmax_the_last() {
    let values: Vec<u64> = vec![4, 1, 7, 1, 7, 3];
    assert_eq!(get_argmin(&values), 1);
    assert_eq!(get_argmax(&values), 4);
    assert_eq!(get_min(&values), 1);
    assert_eq!(get_argmin(&vec![8]), 0);
    assert_eq!(get_argmax(&vec![8]), 0);
    assert_eq!(get_argmax(&vec![2, 2, 2]), 2);
    assert_eq!(get_argmin(&vec![2, 2, 2]), 0);
}

#[test]
fn the_code_of_a_cost_keeps_its_order() {
    let costs = [-1.5f32, -0.0, 0.0, 1e-5, 0.1, 0.2, 1.0, f32::MAX];
    for pair in costs.windows(2) {
        assert!(code(pair[0]) < code(pair[1]));
    }
    let coded: Vec<u64> = [0.3f32, 0.25, 0.9, 0.25].iter().map(|x| code(*x)).collect();
    assert_eq!(get_argmin(&coded), 1);
    assert_eq!(get_argmax(&coded), 2);
}

#[test]
fn transpose_exchanges_rows_and_columns() {
    let t = transpose(vec![vec![1, 2, 3], vec![4, 5, 6]]);
    assert_eq!(t, vec![vec![1, 4], vec![2, 5], vec![3, 6]]);
    let back = transpose(t);
    assert_eq!(back, vec![vec![1, 2, 3], vec![4, 5, 6]]);
}

#[test]
fn transpose_cuts_longer_rows_and_moves_values() {
    let t = transpose(vec![
        vec![String::from("a"), String::from("b")],
        vec![String::from("c"), String::from("d"), String::from("e")],
    ]);
    assert_eq!(t, vec![vec!["a", "c"], vec!["b", "d"]]);
    let none: Vec<Vec<f32>> = transpose(vec![vec![], vec![1.0]]);
    assert!(none.is_empty());
    assert_eq!(transpose(vec![vec![0.5f32, 1.5]]), vec![vec![0.5], vec![1.5]]);
}

#[test]
fn difference_keeps_first_occurrences() {
    assert_eq!(vect_difference(&vec![5, 1, 5, 2, 3, 1], &vec![2, 9]), vec![5, 1, 3]);
    assert_eq!(vect_difference(&vec![1, 2], &vec![2, 1]), Vec::<usize>::new());
    assert_eq!(vect_difference(&vec![], &vec![1]), Vec::<usize>::new());
    assert_eq!(vect_difference(&vec![4, 4], &vec![]), vec![4]);
    assert!(holds(&vec![3, 1], 1));
    assert!(!holds(&vec![3, 1], 2));
}

#[test]
fn classes_are_decoded_by_the_largest_output() {
    let outs: Vec<Vec<u64>> = vec![vec![5, 1, 3, 7], vec![2, 9, 3, 7], vec![4, 0, 1, 7]];
    assert_eq!(decode_classes(outs), vec![0, 1, 1, 2]);
    assert_eq!(decode_classes(vec![vec![8, 8]]), vec![0, 0]);
    assert!(decode_classes(vec![vec![], vec![]]).is_empty());
    let real: Vec<Vec<u64>> = vec![
        [0.5f32, -2.0, 0.0].iter().map(|x| code(*x)).collect(),
        [0.25f32, -1.0, -0.0].iter().map(|x| code(*x)).collect(),
    ];
    assert_eq!(decode_classes(real), vec![0, 1, 0]);
}
