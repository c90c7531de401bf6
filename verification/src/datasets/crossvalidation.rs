use crate::datasets::dataset_utils::{is_permutation, random_permutation};
use vstd::prelude::*;
use vstd::seq_lib::to_multiset_contains;

verus! {

/// Sorts `values` into ascending order with `sort_unstable` of the standard
/// library.
///
/// Trusted: afterwards `values` holds the same values as before, each as
/// often as before, and none is followed by a smaller one.
#[verifier::external_body]
fn sort_ascending(values: &mut Vec<usize>)
    ensures
        final(values)@.to_multiset() == old(values)@.to_multiset(),
        forall|i: int, j: int|
            0 <= i < j < final(values).len() ==> final(values)[i] <= final(values)[j],
{
    values.sort_unstable();
}

/// Whether each entry of `fold` is smaller than the one before it.
pub open spec fn descending(fold: Seq<usize>) -> bool {
    forall|i: int, j: int| 0 <= i < j < fold.len() ==> fold[i] > fold[j]
}

/// What is left of `s` once the first `k` of `indices` were taken out one
/// after the other, each time filling the gap with the last entry.
pub open spec fn swap_removed<T>(s: Seq<T>, indices: Seq<usize>, k: nat) -> Seq<T>
    decreases k,
{
    if k == 0 {
        s
    } else {
        let rest = swap_removed(s, indices, (k - 1) as nat);
        rest.update(indices[k - 1] as int, rest.last()).drop_last()
    }
}

/// Taking out descending indices never disturbs what lies below the index
/// taken last, and shortens the sequence by one each time.
pub proof fn lemma_swap_removed<T>(s: Seq<T>, indices: Seq<usize>, k: nat)
    requires
        descending(indices),
        k <= indices.len(),
        indices.len() > 0 ==> indices[0] < s.len(),
    ensures
        swap_removed(s, indices, k).len() == s.len() - k,
        k < indices.len() ==> indices[k as int] < s.len() - k,
        forall|i: int|
            0 <= i < s.len() - k && (k == 0 || i < indices[k - 1]) ==> swap_removed(
                s,
                indices,
                k,
            )[i] == s[i],
    decreases k,
{
    if k > 0 {
        lemma_swap_removed(s, indices, (k - 1) as nat);
        if k < indices.len() {
            assert(indices[k - 1] > indices[k as int]);
        }
        if k >= 2 {
            assert(indices[k - 2] > indices[k - 1]);
        }
    }
}

/// A split of the sample indices into folds of equal size. One fold after
/// the other serves as the test set, the rest as the training set.
pub struct CrossValidation {
    fold_indices: Vec<Vec<usize>>,
    current_fold: usize,
}

impl CrossValidation {
    /// The folds, each a list of sample indices.
    pub closed spec fn folds(&self) -> Seq<Seq<usize>> {
        Seq::new(self.fold_indices.len() as nat, |i: int| self.fold_indices[i]@)
    }

    /// The fold that the next split takes out.
    pub closed spec fn current_fold(&self) -> int {
        self.current_fold as int
    }

    /// Splits the indices `0..n_samples` at random into `n_folds` folds of
    /// `n_samples / n_folds` indices each. Every fold is sorted in descending
    /// order, and no index is in two folds; indices left over when the
    /// division has a remainder are in none.
    pub fn new(n_samples: usize, n_folds: usize) -> (validation: CrossValidation)
        requires
            n_folds > 0,
        ensures
            validation.current_fold() == 0,
            validation.folds().len() == n_folds,
            forall|f: int|
                0 <= f < n_folds ==> {
                    let fold = #[trigger] validation.folds()[f];
                    &&& fold.len() == n_samples as int / n_folds as int
                    &&& descending(fold)
                    &&& forall|k: int| 0 <= k < fold.len() ==> fold[k] < n_samples
                },
            forall|f: int, g: int, j: int, k: int|
                0 <= f < g < n_folds && 0 <= j < validation.folds()[f].len() && 0 <= k
                    < validation.folds()[g].len() ==> validation.folds()[f][j]
                    != validation.folds()[g][k],
    {
        let indices: Vec<usize> = random_permutation(n_samples);
        let samples_per_fold: usize = n_samples / n_folds;
        let mut fold_indices: Vec<Vec<usize>> = Vec::with_capacity(n_folds);
        let mut i: usize = 0;
        while i < n_folds
            invariant
                i <= n_folds,
                n_folds > 0,
                samples_per_fold == n_samples as int / n_folds as int,
                is_permutation(indices@, n_samples as nat),
                fold_indices.len() == i,
                forall|f: int|
                    0 <= f < i ==> {
                        let fold = (#[trigger] fold_indices[f])@;
                        &&& fold.len() == samples_per_fold
                        &&& descending(fold)
                        &&& forall|k: int|
                            0 <= k < fold.len() ==> indices@.subrange(
                                f * samples_per_fold,
                                (f + 1) * samples_per_fold,
                            ).contains(#[trigger] fold[k])
                    },
            decreases n_folds - i,
        {
            proof {
                lemma_fold_bounds(n_samples as int, n_folds as int, i as int);
            }
            let start: usize = i * samples_per_fold;
            let end: usize = start + samples_per_fold;
            let fold: Vec<usize> = descending_slice(&indices, start, end);
            fold_indices.push(fold);
            i = i + 1;
        }
        let validation = CrossValidation { fold_indices, current_fold: 0 };
        proof {
            assert forall|f: int| 0 <= f < n_folds implies {
                let fold = #[trigger] validation.folds()[f];
                &&& fold.len() == n_samples as int / n_folds as int
                &&& descending(fold)
                &&& forall|k: int| 0 <= k < fold.len() ==> fold[k] < n_samples
            } by {
                let fold = validation.fold_indices[f]@;
                lemma_fold_bounds(n_samples as int, n_folds as int, f);
                assert forall|k: int| 0 <= k < fold.len() implies fold[k] < n_samples by {
                    lemma_fold_entry(indices@, n_samples as nat, samples_per_fold as int, f, fold[k]);
                }
            }
            assert forall|f: int, g: int, j: int, k: int|
                0 <= f < g < n_folds && 0 <= j < validation.folds()[f].len() && 0 <= k
                    < validation.folds()[g].len() implies validation.folds()[f][j]
                != validation.folds()[g][k] by {
                let a = validation.fold_indices[f]@[j];
                let b = validation.fold_indices[g]@[k];
                lemma_fold_bounds(n_samples as int, n_folds as int, f);
                lemma_fold_bounds(n_samples as int, n_folds as int, g);
                let at = lemma_fold_entry(
                    indices@,
                    n_samples as nat,
                    samples_per_fold as int,
                    f,
                    a,
                );
                let bt = lemma_fold_entry(
                    indices@,
                    n_samples as nat,
                    samples_per_fold as int,
                    g,
                    b,
                );
                assert((f + 1) * samples_per_fold <= g * samples_per_fold) by (nonlinear_arith)
                    requires
                        f < g,
                        samples_per_fold >= 0,
                ;
            }
        }
        validation
    }

    /// Takes the current fold out of `dataset` and `label` and moves on to
    /// the next fold. Returns the training samples and labels, which is what
    /// is left, followed by the test samples and labels, which are the
    /// entries at the indices of the fold, in the order of the fold.
    pub fn split<T>(&mut self, dataset: Vec<T>, label: Vec<usize>) -> (parts: (
        Vec<T>,
        Vec<usize>,
        Vec<T>,
        Vec<usize>,
    ))
        requires
            0 <= old(self).current_fold() < old(self).folds().len(),
            descending(old(self).folds()[old(self).current_fold()]),
            forall|k: int|
                0 <= k < old(self).folds()[old(self).current_fold()].len() ==> old(self).folds()[old(self).current_fold()][k] < dataset.len(),
            dataset.len() == label.len(),
        ensures
            final(self).folds() == old(self).folds(),
            final(self).current_fold() == old(self).current_fold() + 1,
            ({
                let fold = old(self).folds()[old(self).current_fold()];
                &&& parts.0@ == swap_removed(dataset@, fold, fold.len())
                &&& parts.1@ == swap_removed(label@, fold, fold.len())
                &&& parts.2.len() == fold.len()
                &&& parts.3.len() == fold.len()
                &&& forall|k: int| 0 <= k < fold.len() ==> parts.2[k] == dataset[fold[k] as int]
                &&& forall|k: int| 0 <= k < fold.len() ==> parts.3[k] == label[fold[k] as int]
            }),
    {
        let ghost fold = self.fold_indices[self.current_fold as int]@;
        let ghost samples = dataset@;
        let ghost classes = label@;
        let mut dataset = dataset;
        let mut label = label;
        let mut new_test_data: Vec<T> = Vec::new();
        let mut new_test_labels: Vec<usize> = Vec::new();
        let count: usize = self.fold_indices[self.current_fold].len();
        let mut k: usize = 0;
        while k < count
            invariant
                k <= count,
                count == fold.len(),
                self.current_fold < self.fold_indices.len(),
                fold == self.fold_indices[self.current_fold as int]@,
                descending(fold),
                fold.len() > 0 ==> fold[0] < samples.len(),
                samples.len() == classes.len(),
                dataset@ == swap_removed(samples, fold, k as nat),
                label@ == swap_removed(classes, fold, k as nat),
                new_test_data.len() == k,
                new_test_labels.len() == k,
                forall|j: int| 0 <= j < k ==> new_test_data[j] == samples[fold[j] as int],
                forall|j: int| 0 <= j < k ==> new_test_labels[j] == classes[fold[j] as int],
            decreases count - k,
        {
            let index: usize = self.fold_indices[self.current_fold][k];
            proof {
                lemma_swap_removed(samples, fold, k as nat);
                lemma_swap_removed(classes, fold, k as nat);
            }
            new_test_data.push(dataset.swap_remove(index));
            new_test_labels.push(label.swap_remove(index));
            k = k + 1;
        }
        self.current_fold = self.current_fold + 1;
        assert(self.folds() =~= old(self).folds());
        (dataset, label, new_test_data, new_test_labels)
    }
}

/// Fold `f` of `n_folds` spans a range of the samples.
proof fn lemma_fold_bounds(n_samples: int, n_folds: int, f: int)
    requires
        0 <= f < n_folds,
        0 <= n_samples,
    ensures
        0 <= f * (n_samples / n_folds) <= (f + 1) * (n_samples / n_folds) <= n_samples,
        (f + 1) * (n_samples / n_folds) == f * (n_samples / n_folds) + n_samples / n_folds,
{
    let size = n_samples / n_folds;
    assert(0 <= size && size * n_folds <= n_samples) by (nonlinear_arith)
        requires
            size == n_samples / n_folds,
            0 <= n_samples,
            0 < n_folds,
    ;
    assert(0 <= f * size <= (f + 1) * size <= size * n_folds && (f + 1) * size == f * size + size)
        by (nonlinear_arith)
        requires
            0 <= f < n_folds,
            0 <= size,
    ;
}

/// An entry of fold `f` is one of the shuffled indices between the bounds of
/// that fold. Returns its place among the shuffled indices.
proof fn lemma_fold_entry(indices: Seq<usize>, n_samples: nat, samples_per_fold: int, f: int, x: usize) -> (at:
    int)
    requires
        is_permutation(indices, n_samples),
        0 <= f * samples_per_fold <= (f + 1) * samples_per_fold <= n_samples,
        indices.subrange(f * samples_per_fold, (f + 1) * samples_per_fold).contains(x),
    ensures
        f * samples_per_fold <= at < (f + 1) * samples_per_fold,
        indices[at] == x,
        x < n_samples,
{
    let slice = indices.subrange(f * samples_per_fold, (f + 1) * samples_per_fold);
    let j = choose|j: int| 0 <= j < slice.len() && slice[j] == x;
    f * samples_per_fold + j
}

/// The entries `start..end` of `indices`, sorted in descending order.
fn descending_slice(indices: &Vec<usize>, start: usize, end: usize) -> (fold: Vec<usize>)
    requires
        start <= end <= indices.len(),
        indices@.no_duplicates(),
    ensures
        fold.len() == end - start,
        descending(fold@),
        forall|k: int|
            0 <= k < fold.len() ==> indices@.subrange(start as int, end as int).contains(
                #[trigger] fold[k],
            ),
{
    let mut temp_indices: Vec<usize> = Vec::with_capacity(end - start);
    let mut j: usize = start;
    while j < end
        invariant
            start <= j <= end,
            end <= indices.len(),
            temp_indices@ == indices@.subrange(start as int, j as int),
        decreases end - j,
    {
        temp_indices.push(indices[j]);
        assert(temp_indices@ =~= indices@.subrange(start as int, j + 1));
        j = j + 1;
    }
    let ghost slice = temp_indices@;
    sort_ascending(&mut temp_indices);
    proof {
        broadcast use to_multiset_contains;

        assert(slice.no_duplicates());
        slice.lemma_multiset_has_no_duplicates();
        temp_indices@.lemma_multiset_has_no_duplicates_conv();
        slice.to_multiset_ensures();
        temp_indices@.to_multiset_ensures();
    }
    let count: usize = temp_indices.len();
    let mut fold: Vec<usize> = Vec::with_capacity(count);
    let mut k: usize = count;
    while k > 0
        invariant
            k <= count,
            count == temp_indices.len(),
            fold.len() == count - k,
            forall|i: int| 0 <= i < fold.len() ==> #[trigger] fold[i] == temp_indices[count - 1 - i],
        decreases k,
    {
        k = k - 1;
        fold.push(temp_indices[k]);
    }
    proof {
        broadcast use to_multiset_contains;

        assert forall|i: int, j: int| 0 <= i < j < fold.len() implies fold[i] > fold[j] by {
            assert(temp_indices[count - 1 - j] <= temp_indices[count - 1 - i]);
            assert(temp_indices[count - 1 - j] != temp_indices[count - 1 - i]);
        }
        assert forall|k: int| 0 <= k < fold.len() implies slice.contains(#[trigger] fold[k]) by {
            let x = temp_indices[count - 1 - k];
            assert(temp_indices@.contains(x));
            assert(temp_indices@.to_multiset().count(x) > 0);
        }
    }
    fold
}

} // verus!
