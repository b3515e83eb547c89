//! What holds of the greedy assignment for every input.

use vstd::prelude::*;
use vstd::multiset::Multiset;
use crate::model::{
    all_items, all_loads_equal, descending, distribute, empty_bins, first_minimum, greedy,
    is_maximum, least_loaded, loads, place, sum, total_load, Outcome,
};
use crate::sorting::lemma_descending;

verus! {

/// A sequence that is not empty has a first minimum.
pub proof fn lemma_first_minimum_exists(values: Seq<int>)
    requires
        values.len() > 0,
    ensures
        exists|j: int| first_minimum(values, j),
    decreases values.len(),
{
    if values.len() == 1 {
        assert(first_minimum(values, 0));
    } else {
        let front = values.drop_last();
        lemma_first_minimum_exists(front);
        let j0 = choose|j: int| first_minimum(front, j);
        let last = values.len() - 1;
        assert(forall|i: int| 0 <= i < front.len() ==> front[i] == values[i]);
        if values[last] < values[j0] {
            assert(first_minimum(values, last));
        } else {
            assert(first_minimum(values, j0));
        }
    }
}

/// A sequence has at most one first minimum.
pub proof fn lemma_first_minimum_unique(values: Seq<int>, a: int, b: int)
    requires
        first_minimum(values, a),
        first_minimum(values, b),
    ensures
        a == b,
{
    if a < b {
        assert(values[b] < values[a]);
        assert(values[a] <= values[b]);
    } else if b < a {
        assert(values[a] < values[b]);
        assert(values[b] <= values[a]);
    }
}

/// Where there is a bin at all, `least_loaded` names one: the first among
/// those that carry the smallest load.
pub proof fn lemma_least_loaded(bins: Seq<Seq<i32>>)
    requires
        bins.len() > 0,
    ensures
        first_minimum(loads(bins), least_loaded(bins)),
        0 <= least_loaded(bins) < bins.len(),
{
    lemma_first_minimum_exists(loads(bins));
}

/// Appending a weight to a sequence adds it to the sum.
pub proof fn lemma_sum_push(s: Seq<i32>, w: i32)
    ensures
        sum(s.push(w)) == sum(s) + w,
{
    assert(s.push(w).drop_last() =~= s);
}

/// Taking one weight out of a sequence takes it out of the sum.
pub proof fn lemma_sum_remove(s: Seq<i32>, i: int)
    requires
        0 <= i < s.len(),
    ensures
        sum(s) == sum(s.remove(i)) + s[i],
    decreases s.len(),
{
    if i == s.len() - 1 {
        assert(s.remove(i) =~= s.drop_last());
    } else {
        lemma_sum_remove(s.drop_last(), i);
        assert(s.remove(i).drop_last() =~= s.drop_last().remove(i));
        assert(s.remove(i).last() == s.last());
    }
}

/// The sum of a sequence depends only on which weights it holds and how
/// often, not on their order.
pub proof fn lemma_sum_of_rearrangement(a: Seq<i32>, b: Seq<i32>)
    requires
        a.to_multiset() == b.to_multiset(),
    ensures
        sum(a) == sum(b),
    decreases a.len(),
{
    a.to_multiset_ensures();
    b.to_multiset_ensures();
    if a.len() == 0 {
        assert(b.len() == 0);
    } else {
        let x = a.last();
        assert(a.contains(x));
        assert(b.to_multiset().count(x) > 0);
        assert(b.contains(x));
        let i = choose|i: int| 0 <= i < b.len() && b[i] == x;
        assert(a.drop_last() =~= a.remove(a.len() - 1));
        assert(a.drop_last().to_multiset() =~= b.remove(i).to_multiset());
        lemma_sum_of_rearrangement(a.drop_last(), b.remove(i));
        lemma_sum_remove(b, i);
    }
}

/// Empty bins carry no load and hold no weight.
pub proof fn lemma_empty_bins(k: nat)
    ensures
        total_load(empty_bins(k)) == 0,
        all_items(empty_bins(k)) == Multiset::<i32>::empty(),
    decreases k,
{
    if k > 0 {
        lemma_empty_bins((k - 1) as nat);
        assert(empty_bins(k).drop_last() =~= empty_bins((k - 1) as nat));
        assert(empty_bins(k).last() =~= Seq::<i32>::empty());
        assert(sum(Seq::<i32>::empty()) == 0);
        assert(Seq::<i32>::empty().to_multiset() =~= Multiset::<i32>::empty()) by {
            Seq::<i32>::empty().to_multiset_ensures();
        }
        assert(all_items(empty_bins(k)) =~= Multiset::<i32>::empty());
    }
}

/// Appending `w` to bin `j` raises the total load by `w` and adds one
/// `w` to the weights held, whichever bin `j` is.
pub proof fn lemma_append_to_bin(bins: Seq<Seq<i32>>, j: int, w: i32)
    requires
        0 <= j < bins.len(),
    ensures
        total_load(bins.update(j, bins[j].push(w))) == total_load(bins) + w,
        all_items(bins.update(j, bins[j].push(w))) == all_items(bins).insert(w),
    decreases bins.len(),
{
    let after = bins.update(j, bins[j].push(w));
    if j == bins.len() - 1 {
        assert(after.drop_last() =~= bins.drop_last());
        assert(after.last() == bins[j].push(w));
        lemma_sum_push(bins[j], w);
        bins[j].to_multiset_ensures();
        assert(all_items(after) =~= all_items(bins).insert(w));
    } else {
        lemma_append_to_bin(bins.drop_last(), j, w);
        assert(after.drop_last() =~= bins.drop_last().update(j, bins.drop_last()[j].push(w)));
        assert(after.last() == bins.last());
        assert(all_items(after) =~= all_items(bins).insert(w));
    }
}

/// Distributing over `k` bins always leaves `k` bins.
pub proof fn lemma_distribute_len(items: Seq<i32>, k: nat)
    requires
        k >= 1,
    ensures
        distribute(items, k).len() == k,
    decreases items.len(),
{
    if items.len() > 0 {
        lemma_distribute_len(items.drop_last(), k);
        lemma_least_loaded(distribute(items.drop_last(), k));
    }
}

/// Distributing weights neither loses nor invents any: the bins together
/// hold exactly the weights given, and their loads add up to the sum.
pub proof fn lemma_distribute_keeps_items(items: Seq<i32>, k: nat)
    requires
        k >= 1,
    ensures
        total_load(distribute(items, k)) == sum(items),
        all_items(distribute(items, k)) == items.to_multiset(),
    decreases items.len(),
{
    if items.len() == 0 {
        lemma_empty_bins(k);
        items.to_multiset_ensures();
        assert(items.to_multiset() =~= Multiset::<i32>::empty());
    } else {
        let before = distribute(items.drop_last(), k);
        lemma_distribute_keeps_items(items.drop_last(), k);
        lemma_distribute_len(items.drop_last(), k);
        lemma_least_loaded(before);
        lemma_append_to_bin(before, least_loaded(before), items.last());
        items.drop_last().to_multiset_ensures();
        assert(items.drop_last().push(items.last()) =~= items);
    }
}

/// The loads of the bins of a greedy assignment add up to the sum of the
/// weights that were given.
pub proof fn law_loads_add_up(weights: Seq<i32>, k: nat)
    requires
        k >= 1,
    ensures
        total_load(greedy(weights, k)) == sum(weights),
{
    lemma_descending(weights);
    lemma_distribute_keeps_items(descending(weights), k);
    lemma_sum_of_rearrangement(descending(weights), weights);
}

/// The bins of a greedy assignment together hold exactly the weights that
/// were given, each as often as it was given.
pub proof fn law_every_weight_in_one_bin(weights: Seq<i32>, k: nat)
    requires
        k >= 1,
    ensures
        greedy(weights, k).len() == k,
        all_items(greedy(weights, k)) == weights.to_multiset(),
{
    lemma_descending(weights);
    lemma_distribute_keeps_items(descending(weights), k);
    lemma_distribute_len(descending(weights), k);
}

/// With `m` the largest load: all loads are equal exactly when every load
/// is `m`, and they are not all equal exactly when some bin carries
/// strictly less than `m`.
pub proof fn lemma_balance(bins: Seq<Seq<i32>>, m: int)
    requires
        is_maximum(loads(bins), m),
    ensures
        all_loads_equal(bins) <==> (forall|i: int|
            0 <= i < bins.len() ==> sum(#[trigger] bins[i]) == m),
        !all_loads_equal(bins) <==> (exists|i: int|
            0 <= i < bins.len() && sum(#[trigger] bins[i]) < m),
{
    let top = choose|j: int| 0 <= j < loads(bins).len() && #[trigger] loads(bins)[j] == m;
    assert(sum(bins[top]) == m);
    assert forall|i: int| 0 <= i < bins.len() implies sum(#[trigger] bins[i]) <= m by {
        assert(loads(bins)[i] <= m);
    }
    if all_loads_equal(bins) {
        assert forall|i: int| 0 <= i < bins.len() implies sum(#[trigger] bins[i]) == m by {
            assert(sum(bins[i]) == sum(bins[top]));
        }
    }
}

/// A sequence has at most one largest value.
pub proof fn lemma_maximum_unique(values: Seq<int>, a: int, b: int)
    requires
        is_maximum(values, a),
        is_maximum(values, b),
    ensures
        a == b,
{
    let ia = choose|j: int| 0 <= j < values.len() && #[trigger] values[j] == a;
    let ib = choose|j: int| 0 <= j < values.len() && #[trigger] values[j] == b;
    assert(values[ia] <= b);
    assert(values[ib] <= a);
}

/// The flag of an outcome is set exactly when every bin carries the
/// largest load, which is when all loads are equal; it is clear exactly
/// when the largest load is strictly greater than the load of some bin.
pub proof fn law_balanced_flag(r: Outcome)
    requires
        r.wf(),
    ensures
        r.balanced <==> (forall|i: int, j: int|
            0 <= i < r.loads.len() && 0 <= j < r.loads.len() ==> r.loads[i] == r.loads[j]),
        r.balanced <==> (forall|i: int| 0 <= i < r.loads.len() ==> r.loads[i] == r.max_load),
        !r.balanced <==> (exists|i: int| 0 <= i < r.loads.len() && r.loads[i] < r.max_load),
{
    lemma_balance(r.bins, r.max_load);
    assert forall|i: int| 0 <= i < r.loads.len() implies r.loads[i] == sum(
        #[trigger] r.bins[i],
    ) by {}
    let top = choose|j: int| 0 <= j < r.loads.len() && #[trigger] r.loads[j] == r.max_load;
    if r.balanced {
        assert forall|i: int, j: int|
            0 <= i < r.loads.len() && 0 <= j < r.loads.len() implies r.loads[i]
            == r.loads[j] by {
            assert(sum(r.bins[i]) == sum(r.bins[j]));
        }
        assert forall|i: int| 0 <= i < r.loads.len() implies r.loads[i] == r.max_load by {
            assert(sum(r.bins[i]) == r.max_load);
        }
    } else {
        let low = choose|i: int| 0 <= i < r.bins.len() && sum(#[trigger] r.bins[i]) < r.max_load;
        assert(r.loads[low] < r.max_load);
        assert(r.loads[low] != r.loads[top]);
    }
}

/// Partitioning is a function of its input: two outcomes for the same
/// weights and the same number of bins hold the same weights in the same
/// bins in the same order, and agree in the flag and in the largest load.
pub proof fn law_same_input_same_result(weights: Seq<i32>, k: nat, a: Outcome, b: Outcome)
    requires
        a.is_partition_of(weights, k),
        b.is_partition_of(weights, k),
    ensures
        a == b,
{
    lemma_maximum_unique(a.loads, a.max_load, b.max_load);
}

/// Placing a weight touches one bin only, the least loaded one, and
/// appends the weight at its end; the loads of the others stay, and with
/// a positive weight no load goes down.
pub proof fn law_place_appends(bins: Seq<Seq<i32>>, w: i32)
    requires
        bins.len() > 0,
    ensures
        place(bins, w).len() == bins.len(),
        place(bins, w)[least_loaded(bins)] == bins[least_loaded(bins)].push(w),
        sum(place(bins, w)[least_loaded(bins)]) == sum(bins[least_loaded(bins)]) + w,
        forall|j: int|
            0 <= j < bins.len() && j != least_loaded(bins) ==> #[trigger] place(bins, w)[j]
                == bins[j],
        w > 0 ==> forall|j: int|
            0 <= j < bins.len() ==> sum(#[trigger] place(bins, w)[j]) >= sum(bins[j]),
{
    lemma_least_loaded(bins);
    lemma_sum_push(bins[least_loaded(bins)], w);
}

} // verus!
