use crate::utils::random::shuffle_in_place;
use vstd::pervasive::cloned;
use vstd::prelude::*;
use vstd::seq_lib::{to_multiset_contains, to_multiset_len};

verus! {

/// How superfluous features are made up when a dataset is bloated.
#[derive(Clone, Copy, PartialEq, Eq, Structural, Debug)]
pub enum RedundancyType {
    /// A copy of an existing feature.
    Copy,
    /// Pure noise.
    Noise,
    /// A copy of an existing feature with noise on it.
    NoisyCopy,
}

/// Whether `order` holds every index below `len` exactly once.
pub open spec fn is_permutation(order: Seq<usize>, len: nat) -> bool {
    &&& order.len() == len
    &&& forall|k: int| 0 <= k < order.len() ==> (#[trigger] order[k]) < len
    &&& order.no_duplicates()
}

/// The indices `0..len` in ascending order.
pub fn index_range(len: usize) -> (order: Vec<usize>)
    ensures
        order.len() == len,
        forall|k: int| 0 <= k < len ==> #[trigger] order[k] == k,
{
    let mut order: Vec<usize> = Vec::with_capacity(len);
    let mut k: usize = 0;
    while k < len
        invariant
            k <= len,
            order.len() == k,
            forall|j: int| 0 <= j < k ==> #[trigger] order[j] == j,
        decreases len - k,
    {
        order.push(k);
        k = k + 1;
    }
    order
}

/// A rearrangement of a permutation is a permutation.
pub proof fn lemma_rearranged_permutation(before: Seq<usize>, after: Seq<usize>, len: nat)
    requires
        is_permutation(before, len),
        after.to_multiset() == before.to_multiset(),
    ensures
        is_permutation(after, len),
{
    broadcast use {to_multiset_contains, to_multiset_len};

    before.lemma_multiset_has_no_duplicates();
    after.lemma_multiset_has_no_duplicates_conv();
    assert(after.len() == after.to_multiset().len());
    assert(before.len() == before.to_multiset().len());
    assert forall|k: int| 0 <= k < after.len() implies (#[trigger] after[k]) < len by {
        let x = after[k];
        assert(after.contains(x));
        assert(after.to_multiset().count(x) > 0);
        assert(before.to_multiset().count(x) > 0);
        assert(before.contains(x));
        let j = choose|j: int| 0 <= j < before.len() && before[j] == x;
        assert(before[j] < len);
    }
}

/// The indices `0..len` in random order.
pub fn random_permutation(len: usize) -> (order: Vec<usize>)
    ensures
        is_permutation(order@, len as nat),
{
    let mut order: Vec<usize> = index_range(len);
    let ghost before = order@;
    shuffle_in_place(&mut order);
    proof {
        lemma_rearranged_permutation(before, order@, len as nat);
    }
    order
}

/// Whether `b` holds, place by place, clones of the entries that `order`
/// picks from `a`.
pub open spec fn picked_clones<T: Clone>(a: Seq<T>, order: Seq<usize>, b: Seq<T>) -> bool {
    &&& b.len() == order.len()
    &&& forall|k: int| 0 <= k < order.len() ==> cloned(a[order[k] as int], #[trigger] b[k])
}

/// Whether `b` holds, place by place, the entries that `order` picks from
/// `a`.
pub open spec fn picked(a: Seq<usize>, order: Seq<usize>, b: Seq<usize>) -> bool {
    &&& b.len() == order.len()
    &&& forall|k: int| 0 <= k < order.len() ==> #[trigger] b[k] == a[order[k] as int]
}

/// Rearranges `v1` by `order` and `v2` likewise, so that each entry keeps
/// its partner.
pub fn rearrange<T: Clone>(v1: &Vec<T>, v2: &Vec<usize>, order: &Vec<usize>) -> (rearranged: (
    Vec<T>,
    Vec<usize>,
))
    requires
        v1.len() == v2.len(),
        forall|k: int| 0 <= k < order.len() ==> (#[trigger] order[k]) < v1.len(),
    ensures
        picked_clones(v1@, order@, rearranged.0@),
        picked(v2@, order@, rearranged.1@),
{
    let mut new1: Vec<T> = Vec::new();
    let mut new2: Vec<usize> = Vec::new();
    let mut k: usize = 0;
    while k < order.len()
        invariant
            k <= order.len(),
            v1.len() == v2.len(),
            forall|j: int| 0 <= j < order.len() ==> (#[trigger] order[j]) < v1.len(),
            new1.len() == k,
            new2.len() == k,
            forall|j: int| 0 <= j < k ==> cloned(v1[order[j] as int], #[trigger] new1[j]),
            forall|j: int| 0 <= j < k ==> #[trigger] new2[j] == v2[order[j] as int],
        decreases order.len() - k,
    {
        let idx: usize = order[k];
        new1.push(v1[idx].clone());
        new2.push(v2[idx]);
        k = k + 1;
    }
    (new1, new2)
}

/// Shuffles the samples and their labels alike: both come back in one and
/// the same random order.
pub fn shuffle<T: Clone>(v1: Vec<T>, v2: Vec<usize>) -> (shuffled: (Vec<T>, Vec<usize>))
    requires
        v1.len() == v2.len(),
    ensures
        exists|order: Seq<usize>|
            {
                &&& #[trigger] is_permutation(order, v1.len() as nat)
                &&& picked_clones(v1@, order, shuffled.0@)
                &&& picked(v2@, order, shuffled.1@)
            },
{
    let order: Vec<usize> = random_permutation(v1.len());
    let shuffled = rearrange(&v1, &v2, &order);
    assert(is_permutation(order@, v1.len() as nat));
    shuffled
}

} // verus!
