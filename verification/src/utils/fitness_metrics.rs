use itertools::Itertools;
use vstd::prelude::*;

verus! {

/// The distance between a prediction and its label.
pub open spec fn distance(x: usize, y: usize) -> nat {
    if x >= y {
        (x - y) as nat
    } else {
        (y - x) as nat
    }
}

/// Number of samples that have both a prediction and a label.
pub open spec fn paired(prediction: Seq<usize>, labels: Seq<usize>) -> nat {
    if prediction.len() <= labels.len() {
        prediction.len()
    } else {
        labels.len()
    }
}

/// The summed distance between prediction and label over the first `n`
/// samples.
pub open spec fn absolute_error(prediction: Seq<usize>, labels: Seq<usize>, n: nat) -> nat
    decreases n,
{
    if n == 0 {
        0
    } else {
        absolute_error(prediction, labels, (n - 1) as nat) + distance(
            prediction[n - 1],
            labels[n - 1],
        )
    }
}

/// How often `class` occurs among the first `n` labels.
pub open spec fn occurrences_of(labels: Seq<usize>, class: usize, n: nat) -> nat
    decreases n,
{
    if n == 0 {
        0
    } else {
        occurrences_of(labels, class, (n - 1) as nat) + if labels[n - 1] == class {
            1nat
        } else {
            0nat
        }
    }
}

/// How often, among the first `n` samples, the label is `class` and the
/// prediction agrees with it.
pub open spec fn hits_of(prediction: Seq<usize>, labels: Seq<usize>, class: usize, n: nat) -> nat
    decreases n,
{
    if n == 0 {
        0
    } else {
        hits_of(prediction, labels, class, (n - 1) as nat) + if labels[n - 1] == class
            && prediction[n - 1] == class {
            1nat
        } else {
            0nat
        }
    }
}

/// The values of `labels` without repetition, in the order in which they
/// first occur.
pub open spec fn distinct_in_order(labels: Seq<usize>) -> Seq<usize>
    decreases labels.len(),
{
    if labels.len() == 0 {
        Seq::empty()
    } else {
        let rest = distinct_in_order(labels.drop_last());
        if rest.contains(labels.last()) {
            rest
        } else {
            rest.push(labels.last())
        }
    }
}

/// The four fields of a two-class confusion matrix.
#[derive(Clone, Copy, PartialEq, Eq, Structural, Debug)]
pub enum Outcome {
    TruePositive,
    FalsePositive,
    TrueNegative,
    FalseNegative,
}

/// Where a sample counts in the confusion matrix. A prediction of 1 is a
/// positive call; a prediction of 0 on a label of 0 is a true negative;
/// whatever else is left counts as a missed positive.
pub open spec fn outcome_of(x: usize, y: usize) -> Outcome {
    if x == 1 && y == 1 {
        Outcome::TruePositive
    } else if x == 1 {
        Outcome::FalsePositive
    } else if x == 0 && y == 0 {
        Outcome::TrueNegative
    } else {
        Outcome::FalseNegative
    }
}

/// How many of the first `n` samples count as `outcome`.
pub open spec fn outcomes_of(
    prediction: Seq<usize>,
    labels: Seq<usize>,
    outcome: Outcome,
    n: nat,
) -> nat
    decreases n,
{
    if n == 0 {
        0
    } else {
        outcomes_of(prediction, labels, outcome, (n - 1) as nat) + if outcome_of(
            prediction[n - 1],
            labels[n - 1],
        ) == outcome {
            1nat
        } else {
            0nat
        }
    }
}

/// A summed absolute error and the number of predictions it is averaged
/// over. The regression cost is `total / samples`.
#[derive(Clone, Copy, PartialEq, Eq, Structural, Debug)]
pub struct ErrorSum {
    pub total: u128,
    pub samples: usize,
}

/// The recall of one class as a fraction: `hits` of its `occurrences` were
/// predicted as that class.
#[derive(Clone, Copy, PartialEq, Eq, Structural, Debug)]
pub struct ClassRecall {
    pub class: usize,
    pub hits: usize,
    pub occurrences: usize,
}

/// The counts of a two-class confusion matrix.
#[derive(Clone, Copy, PartialEq, Eq, Structural, Debug)]
pub struct ConfusionMatrix {
    pub true_positive: usize,
    pub false_positive: usize,
    pub true_negative: usize,
    pub false_negative: usize,
}

/// The distinct values of `labels`, as `Itertools::unique` of the
/// `itertools` crate yields them.
///
/// Trusted: `unique` is stable; it hands out each value once, at the place
/// where it first occurs, and drops every later repetition.
#[verifier::external_body]
fn unique_labels(labels: &Vec<usize>) -> (classes: Vec<usize>)
    ensures
        classes@ == distinct_in_order(labels@),
{
    labels.iter().copied().unique().collect()
}

proof fn lemma_counts_bounded(prediction: Seq<usize>, labels: Seq<usize>, class: usize, n: nat)
    ensures
        hits_of(prediction, labels, class, n) <= occurrences_of(labels, class, n) <= n,
    decreases n,
{
    if n > 0 {
        lemma_counts_bounded(prediction, labels, class, (n - 1) as nat);
    }
}

/// The four counts of a confusion matrix add up to the number of samples.
pub proof fn lemma_outcomes_partition(prediction: Seq<usize>, labels: Seq<usize>, n: nat)
    ensures
        outcomes_of(prediction, labels, Outcome::TruePositive, n) + outcomes_of(
            prediction,
            labels,
            Outcome::FalsePositive,
            n,
        ) + outcomes_of(prediction, labels, Outcome::TrueNegative, n) + outcomes_of(
            prediction,
            labels,
            Outcome::FalseNegative,
            n,
        ) == n,
    decreases n,
{
    if n > 0 {
        lemma_outcomes_partition(prediction, labels, (n - 1) as nat);
    }
}

/// The regression error: the absolute differences between prediction and
/// label, summed over the samples that have both, to be averaged over the
/// number of predictions.
pub fn fitness_regression(prediction: &Vec<usize>, labels: &Vec<usize>) -> (error: ErrorSum)
    ensures
        error.total == absolute_error(prediction@, labels@, paired(prediction@, labels@)),
        error.samples == prediction.len(),
{
    let n: usize = if prediction.len() <= labels.len() {
        prediction.len()
    } else {
        labels.len()
    };
    let mut total: u128 = 0;
    let mut i: usize = 0;
    while i < n
        invariant
            i <= n,
            n <= prediction.len(),
            n <= labels.len(),
            total == absolute_error(prediction@, labels@, i as nat),
            total <= i * 0x1_0000_0000_0000_0000,
        decreases n - i,
    {
        let x: usize = prediction[i];
        let y: usize = labels[i];
        let d: usize = if x >= y {
            x - y
        } else {
            y - x
        };
        assert((i + 1) * 0x1_0000_0000_0000_0000 <= 0x1_0000_0000_0000_0000
            * 0x1_0000_0000_0000_0000) by (nonlinear_arith)
            requires
                i + 1 <= 0x1_0000_0000_0000_0000,
        ;
        assert((i + 1) * 0x1_0000_0000_0000_0000 == i * 0x1_0000_0000_0000_0000
            + 0x1_0000_0000_0000_0000) by (nonlinear_arith);
        total = total + d as u128;
        i = i + 1;
    }
    ErrorSum { total, samples: prediction.len() }
}

/// The recall of every class that occurs among the labels, in the order in
/// which the classes first occur. A class that is predicted but never
/// labelled has no entry. The multiclass cost is one minus the mean of these
/// recalls.
pub fn fitness_categorical_multiclass(prediction: &Vec<usize>, labels: &Vec<usize>) -> (recalls:
    Vec<ClassRecall>)
    ensures
        recalls.len() == distinct_in_order(labels@).len(),
        forall|k: int|
            0 <= k < recalls.len() ==> {
                let class = distinct_in_order(labels@)[k];
                &&& (#[trigger] recalls[k]).class == class
                &&& recalls[k].hits == hits_of(
                    prediction@,
                    labels@,
                    class,
                    paired(prediction@, labels@),
                )
                &&& recalls[k].occurrences == occurrences_of(labels@, class, labels.len() as nat)
            },
{
    let classes: Vec<usize> = unique_labels(labels);
    let n: usize = if prediction.len() <= labels.len() {
        prediction.len()
    } else {
        labels.len()
    };
    let mut recalls: Vec<ClassRecall> = Vec::with_capacity(classes.len());
    let mut k: usize = 0;
    while k < classes.len()
        invariant
            k <= classes.len(),
            classes@ == distinct_in_order(labels@),
            n == paired(prediction@, labels@),
            recalls.len() == k,
            forall|j: int|
                0 <= j < k ==> {
                    let class = classes[j];
                    &&& (#[trigger] recalls[j]).class == class
                    &&& recalls[j].hits == hits_of(prediction@, labels@, class, n as nat)
                    &&& recalls[j].occurrences == occurrences_of(
                        labels@,
                        class,
                        labels.len() as nat,
                    )
                },
        decreases classes.len() - k,
    {
        let class: usize = classes[k];
        let mut hits: usize = 0;
        let mut occurrences: usize = 0;
        let mut i: usize = 0;
        while i < labels.len()
            invariant
                i <= labels.len(),
                n <= labels.len(),
                n <= prediction.len(),
                occurrences == occurrences_of(labels@, class, i as nat),
                hits == hits_of(prediction@, labels@, class, if i <= n {
                    i as nat
                } else {
                    n as nat
                }),
            decreases labels.len() - i,
        {
            proof {
                lemma_counts_bounded(prediction@, labels@, class, (i + 1) as nat);
            }
            if labels[i] == class {
                occurrences = occurrences + 1;
                if i < n && prediction[i] == class {
                    hits = hits + 1;
                }
            }
            i = i + 1;
        }
        recalls.push(ClassRecall { class, hits, occurrences });
        k = k + 1;
    }
    recalls
}

/// The confusion matrix of a two-class prediction over the samples that
/// have both a prediction and a label. The binary cost is one minus the
/// magnitude of the Matthews correlation coefficient of these counts.
pub fn fitness_categorical_binary(prediction: &Vec<usize>, labels: &Vec<usize>) -> (matrix:
    ConfusionMatrix)
    ensures
        matrix.true_positive == outcomes_of(
            prediction@,
            labels@,
            Outcome::TruePositive,
            paired(prediction@, labels@),
        ),
        matrix.false_positive == outcomes_of(
            prediction@,
            labels@,
            Outcome::FalsePositive,
            paired(prediction@, labels@),
        ),
        matrix.true_negative == outcomes_of(
            prediction@,
            labels@,
            Outcome::TrueNegative,
            paired(prediction@, labels@),
        ),
        matrix.false_negative == outcomes_of(
            prediction@,
            labels@,
            Outcome::FalseNegative,
            paired(prediction@, labels@),
        ),
{
    let n: usize = if prediction.len() <= labels.len() {
        prediction.len()
    } else {
        labels.len()
    };
    let mut true_positive: usize = 0;
    let mut false_positive: usize = 0;
    let mut true_negative: usize = 0;
    let mut false_negative: usize = 0;
    let mut i: usize = 0;
    while i < n
        invariant
            i <= n,
            n <= prediction.len(),
            n <= labels.len(),
            true_positive == outcomes_of(prediction@, labels@, Outcome::TruePositive, i as nat),
            false_positive == outcomes_of(prediction@, labels@, Outcome::FalsePositive, i as nat),
            true_negative == outcomes_of(prediction@, labels@, Outcome::TrueNegative, i as nat),
            false_negative == outcomes_of(prediction@, labels@, Outcome::FalseNegative, i as nat),
        decreases n - i,
    {
        proof {
            lemma_outcomes_partition(prediction@, labels@, i as nat);
        }
        let x: usize = prediction[i];
        let y: usize = labels[i];
        if x == 1 && y == 1 {
            true_positive = true_positive + 1;
        } else if x == 1 {
            false_positive = false_positive + 1;
        } else if x == 0 && y == 0 {
            true_negative = true_negative + 1;
        } else {
            false_negative = false_negative + 1;
        }
        i = i + 1;
    }
    ConfusionMatrix { true_positive, false_positive, true_negative, false_negative }
}

} // verus!
