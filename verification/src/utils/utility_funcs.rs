use crate::utils::random::random_below;
use vstd::prelude::*;

verus! {

/// What a redraw of a value over `0..upper_range` may yield: any value of the
/// range but the excluded one. A range of at most one value leaves only 0.
pub open spec fn redrawn(excluded: usize, upper_range: usize, r: usize) -> bool {
    if upper_range <= 1 {
        r == 0
    } else {
        r < upper_range && r != excluded
    }
}

/// Maps a draw from a range that is one value short onto the full range with
/// `excluded` left out: draws below `excluded` stay, the others move up by one.
pub fn skip_excluded(draw: usize, excluded: usize) -> (r: usize)
    requires
        draw < usize::MAX,
    ensures
        r == if draw < excluded { draw as int } else { draw + 1 },
        r != excluded,
{
    if draw < excluded {
        draw
    } else {
        draw + 1
    }
}

/// Draws a value of `0..upper_range` other than `excluded`, each such value
/// being equally likely. With `upper_range <= 1` the result is 0.
///
/// One draw is enough: it is taken from a range that is one value short and
/// mapped past the excluded value, which reaches every other value with the
/// same chance as drawing again until the value differs.
pub fn gen_random_number_for_node(excluded: usize, upper_range: usize) -> (r: usize)
    ensures
        redrawn(excluded, upper_range, r),
{
    if upper_range <= 1 {
        return 0;
    }
    if excluded < upper_range {
        let draw: usize = random_below(upper_range - 1);
        skip_excluded(draw, excluded)
    } else {
        random_below(upper_range)
    }
}

/// The positions of `vals` that hold `value`, in ascending order.
pub open spec fn indices_of(vals: Seq<u64>, value: u64) -> Seq<usize>
    decreases vals.len(),
{
    if vals.len() == 0 {
        Seq::empty()
    } else if vals.last() == value {
        indices_of(vals.drop_last(), value).push((vals.len() - 1) as usize)
    } else {
        indices_of(vals.drop_last(), value)
    }
}

/// `indices_of` lists exactly the positions that hold the value, each once
/// and in ascending order.
pub proof fn lemma_indices_of(vals: Seq<u64>, value: u64)
    requires
        vals.len() <= usize::MAX,
    ensures
        forall|k: int|
            0 <= k < indices_of(vals, value).len() ==> (#[trigger] indices_of(vals, value)[k])
                < vals.len() && vals[indices_of(vals, value)[k] as int] == value,
        forall|j: int, k: int|
            0 <= j < k < indices_of(vals, value).len() ==> indices_of(vals, value)[j] < indices_of(
                vals,
                value,
            )[k],
        forall|i: int|
            0 <= i < vals.len() && #[trigger] vals[i] == value ==> indices_of(vals, value).contains(
                i as usize,
            ),
    decreases vals.len(),
{
    if vals.len() > 0 {
        let front = vals.drop_last();
        lemma_indices_of(front, value);
        let found = indices_of(vals, value);
        let before = indices_of(front, value);
        assert forall|i: int| 0 <= i < vals.len() && #[trigger] vals[i] == value implies found.contains(
            i as usize,
        ) by {
            if i < front.len() {
                assert(front[i] == value);
                let k = choose|k: int| 0 <= k < before.len() && before[k] == i as usize;
                assert(found[k] == i as usize);
            } else {
                assert(found[found.len() - 1] == i as usize);
            }
        }
    }
}

/// Appends to `res` every position of `vecs` that holds `comp_value`, in
/// ascending order.
pub fn get_argmins_of_value(vecs: &Vec<u64>, res: &mut Vec<usize>, comp_value: u64)
    ensures
        final(res)@ == old(res)@ + indices_of(vecs@, comp_value),
{
    let mut i: usize = 0;
    assert(vecs@.take(0) =~= Seq::<u64>::empty());
    assert(res@ =~= old(res)@ + indices_of(vecs@.take(0), comp_value));
    while i < vecs.len()
        invariant
            i <= vecs.len(),
            res@ == old(res)@ + indices_of(vecs@.take(i as int), comp_value),
        decreases vecs.len() - i,
    {
        assert(vecs@.take(i + 1).drop_last() =~= vecs@.take(i as int));
        if vecs[i] == comp_value {
            res.push(i);
        }
        assert(res@ =~= old(res)@ + indices_of(vecs@.take(i + 1), comp_value));
        i = i + 1;
    }
    assert(vecs@.take(vecs.len() as int) =~= vecs@);
}

/// Whether `index` is the first position of `nets` that holds its smallest
/// value.
pub open spec fn is_first_argmin(nets: Seq<u64>, index: int) -> bool {
    &&& 0 <= index < nets.len()
    &&& forall|i: int| 0 <= i < nets.len() ==> nets[index] <= #[trigger] nets[i]
    &&& forall|i: int| 0 <= i < index ==> nets[index] < #[trigger] nets[i]
}

/// Whether `index` is the last position of `nets` that holds its largest
/// value.
pub open spec fn is_last_argmax(nets: Seq<u64>, index: int) -> bool {
    &&& 0 <= index < nets.len()
    &&& forall|i: int| 0 <= i < nets.len() ==> #[trigger] nets[i] <= nets[index]
    &&& forall|i: int| index < i < nets.len() ==> #[trigger] nets[i] < nets[index]
}

/// Whether `value` is the smallest value of `nets`.
pub open spec fn is_min_of(nets: Seq<u64>, value: u64) -> bool {
    &&& exists|i: int| 0 <= i < nets.len() && nets[i] == value
    &&& forall|i: int| 0 <= i < nets.len() ==> value <= #[trigger] nets[i]
}

/// The position of the smallest value; among equal ones the first.
pub fn get_argmin(nets: &Vec<u64>) -> (index: usize)
    requires
        nets.len() > 0,
    ensures
        is_first_argmin(nets@, index as int),
{
    let mut index: usize = 0;
    let mut i: usize = 1;
    while i < nets.len()
        invariant
            1 <= i <= nets.len(),
            index < i,
            forall|j: int| 0 <= j < i ==> nets[index as int] <= #[trigger] nets[j],
            forall|j: int| 0 <= j < index ==> nets[index as int] < #[trigger] nets[j],
        decreases nets.len() - i,
    {
        if nets[i] < nets[index] {
            index = i;
        }
        i = i + 1;
    }
    index
}

/// The position of the largest value; among equal ones the last.
pub fn get_argmax(nets: &Vec<u64>) -> (index: usize)
    requires
        nets.len() > 0,
    ensures
        is_last_argmax(nets@, index as int),
{
    let mut index: usize = 0;
    let mut i: usize = 1;
    while i < nets.len()
        invariant
            1 <= i <= nets.len(),
            index < i,
            forall|j: int| 0 <= j < i ==> #[trigger] nets[j] <= nets[index as int],
            forall|j: int| index < j < i ==> #[trigger] nets[j] < nets[index as int],
        decreases nets.len() - i,
    {
        if nets[i] >= nets[index] {
            index = i;
        }
        i = i + 1;
    }
    index
}

/// The smallest value of `nets`.
pub fn get_min(nets: &Vec<u64>) -> (value: u64)
    requires
        nets.len() > 0,
    ensures
        is_min_of(nets@, value),
{
    let index: usize = get_argmin(nets);
    nets[index]
}

/// The values of `a` that do not occur in `b`, each once, in the order in
/// which `a` first holds them.
pub open spec fn difference_of(a: Seq<usize>, b: Seq<usize>) -> Seq<usize>
    decreases a.len(),
{
    if a.len() == 0 {
        Seq::empty()
    } else {
        let rest = difference_of(a.drop_last(), b);
        if b.contains(a.last()) || rest.contains(a.last()) {
            rest
        } else {
            rest.push(a.last())
        }
    }
}

/// `difference_of` holds a value exactly if `a` holds it and `b` does not,
/// and holds no value twice.
pub proof fn lemma_difference_of(a: Seq<usize>, b: Seq<usize>)
    ensures
        forall|x: usize|
            #[trigger] difference_of(a, b).contains(x) <==> a.contains(x) && !b.contains(x),
        difference_of(a, b).no_duplicates(),
    decreases a.len(),
{
    let result = difference_of(a, b);
    if a.len() > 0 {
        let front = a.drop_last();
        let rest = difference_of(front, b);
        lemma_difference_of(front, b);
        assert forall|x: usize| #[trigger] result.contains(x) <==> a.contains(x) && !b.contains(
            x,
        ) by {
            if result.contains(x) {
                let k = choose|k: int| 0 <= k < result.len() && result[k] == x;
                if k < rest.len() {
                    assert(rest[k] == x);
                    assert(rest.contains(x));
                    let i = choose|i: int| 0 <= i < front.len() && front[i] == x;
                    assert(a[i] == x);
                } else {
                    assert(a[a.len() - 1] == x);
                }
            }
            if a.contains(x) && !b.contains(x) {
                let i = choose|i: int| 0 <= i < a.len() && a[i] == x;
                if i < front.len() {
                    assert(front[i] == x);
                    assert(front.contains(x));
                    assert(rest.contains(x));
                    let k = choose|k: int| 0 <= k < rest.len() && rest[k] == x;
                    assert(result[k] == x);
                } else if !rest.contains(x) {
                    assert(result[result.len() - 1] == x);
                } else {
                    let k = choose|k: int| 0 <= k < rest.len() && rest[k] == x;
                    assert(result[k] == x);
                }
            }
        }
        assert forall|j: int, k: int| 0 <= j < k < result.len() implies result[j] != result[k] by {
            if k == rest.len() {
                assert(rest[j] == result[j]);
                assert(rest.contains(result[j]));
            } else {
                assert(rest[j] != rest[k]);
            }
        }
    }
}

/// Whether `x` occurs in `list`.
pub fn holds(list: &Vec<usize>, x: usize) -> (found: bool)
    ensures
        found == list@.contains(x),
{
    let mut i: usize = 0;
    while i < list.len()
        invariant
            i <= list.len(),
            forall|k: int| 0 <= k < i ==> list[k] != x,
        decreases list.len() - i,
    {
        if list[i] == x {
            return true;
        }
        i = i + 1;
    }
    false
}

/// The values of `v1` that do not occur in `v2`, each once.
pub fn vect_difference(v1: &Vec<usize>, v2: &Vec<usize>) -> (difference: Vec<usize>)
    ensures
        difference@ == difference_of(v1@, v2@),
{
    let mut difference: Vec<usize> = Vec::new();
    let mut i: usize = 0;
    assert(v1@.take(0) =~= Seq::<usize>::empty());
    while i < v1.len()
        invariant
            i <= v1.len(),
            difference@ == difference_of(v1@.take(i as int), v2@),
        decreases v1.len() - i,
    {
        assert(v1@.take(i + 1).drop_last() =~= v1@.take(i as int));
        let x: usize = v1[i];
        let dropped: bool = holds(v2, x) || holds(&difference, x);
        if !dropped {
            difference.push(x);
        }
        i = i + 1;
    }
    assert(v1@.take(v1.len() as int) =~= v1@);
    difference
}

/// Whether `t` is `v` with rows and columns exchanged, as far as the first
/// row of `v` is long: one row of `t` per column, one entry per row of `v`.
pub open spec fn is_transpose_of<T>(t: Seq<Vec<T>>, v: Seq<Vec<T>>) -> bool {
    &&& t.len() == v[0].len()
    &&& forall|j: int| 0 <= j < t.len() ==> (#[trigger] t[j]).len() == v.len()
    &&& forall|j: int, i: int|
        0 <= j < t.len() && 0 <= i < v.len() ==> t[j][i] == #[trigger] v[i][j]
}

/// Exchanges rows and columns. The first row decides how many columns there
/// are; what a longer row holds beyond that is dropped.
pub fn transpose<T>(v: Vec<Vec<T>>) -> (t: Vec<Vec<T>>)
    requires
        v.len() > 0,
        forall|i: int| 0 <= i < v.len() ==> (#[trigger] v[i]).len() >= v[0].len(),
    ensures
        is_transpose_of(t@, v@),
{
    let ghost rows = v@;
    let mut v = v;
    let len: usize = v[0].len();
    let mut columns: Vec<Vec<T>> = Vec::with_capacity(len);
    let mut j: usize = 0;
    while j < len
        invariant
            j <= len,
            columns.len() == j,
            forall|c: int| 0 <= c < j ==> (#[trigger] columns[c]).len() == 0,
        decreases len - j,
    {
        columns.push(Vec::new());
        j = j + 1;
    }
    let mut i: usize = 0;
    while i < v.len()
        invariant
            i <= v.len(),
            v.len() == rows.len(),
            len == rows[0].len(),
            columns.len() == len,
            forall|r: int| 0 <= r < rows.len() ==> (#[trigger] rows[r]).len() >= len,
            forall|r: int| i <= r < v.len() ==> #[trigger] v[r] == rows[r],
            forall|c: int| 0 <= c < len ==> (#[trigger] columns[c]).len() == i,
            forall|c: int, r: int|
                0 <= c < len && 0 <= r < i ==> columns[c][r] == #[trigger] rows[r][c],
        decreases v.len() - i,
    {
        let mut row: Vec<T> = Vec::new();
        std::mem::swap(&mut v[i], &mut row);
        assert(row == rows[i as int]);
        row.truncate(len);
        let mut c: usize = len;
        while c > 0
            invariant
                c <= len,
                i < rows.len(),
                len <= rows[i as int].len(),
                columns.len() == len,
                row@ == rows[i as int]@.take(c as int),
                forall|d: int| 0 <= d < c ==> (#[trigger] columns[d]).len() == i,
                forall|d: int| c <= d < len ==> (#[trigger] columns[d]).len() == i + 1,
                forall|d: int, r: int|
                    0 <= d < len && 0 <= r < i ==> columns[d][r] == #[trigger] rows[r][d],
                forall|d: int| c <= d < len ==> columns[d][i as int] == rows[i as int][d],
            decreases c,
        {
            c = c - 1;
            let ghost before = columns@;
            let item: T = row.pop().unwrap();
            columns[c].push(item);
            assert(row@ =~= rows[i as int]@.take(c as int));
            assert forall|d: int| 0 <= d < len && d != c implies columns[d] == before[d] by {}
        }
        i = i + 1;
    }
    columns
}

/// The values that the rows of `outs` hold for sample `sample`, row by row.
pub open spec fn sample_of(outs: Seq<Vec<u64>>, sample: int) -> Seq<u64> {
    Seq::new(outs.len(), |k: int| outs[k][sample])
}

/// Decodes one class per sample from the values of the output genes, one
/// row of `outs` per class: the class of a sample is the row that holds its
/// largest value, among equal ones the last.
pub fn decode_classes(outs: Vec<Vec<u64>>) -> (classes: Vec<usize>)
    requires
        outs.len() > 0,
        forall|k: int| 0 <= k < outs.len() ==> (#[trigger] outs[k]).len() >= outs[0].len(),
    ensures
        classes.len() == outs[0].len(),
        forall|s: int|
            0 <= s < classes.len() ==> is_last_argmax(sample_of(outs@, s), #[trigger] classes[s] as int),
{
    let ghost rows = outs@;
    let samples: Vec<Vec<u64>> = transpose(outs);
    let mut classes: Vec<usize> = Vec::with_capacity(samples.len());
    let mut s: usize = 0;
    while s < samples.len()
        invariant
            s <= samples.len(),
            rows.len() > 0,
            is_transpose_of(samples@, rows),
            classes.len() == s,
            forall|t: int|
                0 <= t < s ==> is_last_argmax(sample_of(rows, t), #[trigger] classes[t] as int),
        decreases samples.len() - s,
    {
        assert(samples[s as int].len() == rows.len());
        let class: usize = get_argmax(&samples[s]);
        assert(samples[s as int]@ =~= sample_of(rows, s as int));
        classes.push(class);
        s = s + 1;
    }
    classes
}

} // verus!
