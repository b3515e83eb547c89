//! The mathematical model of a partition: bins are sequences of weights,
//! loads are their sums, and the greedy rule is a function on sequences.

use vstd::prelude::*;
use vstd::multiset::Multiset;

verus! {

/// The sum of a sequence of weights, as an unbounded integer.
pub open spec fn sum(s: Seq<i32>) -> int
    decreases s.len(),
{
    if s.len() == 0 {
        0
    } else {
        sum(s.drop_last()) + s.last()
    }
}

/// The load of every bin, by bin index.
pub open spec fn loads(bins: Seq<Seq<i32>>) -> Seq<int> {
    Seq::new(bins.len(), |j: int| sum(bins[j]))
}

/// The loads of all bins added up.
pub open spec fn total_load(bins: Seq<Seq<i32>>) -> int
    decreases bins.len(),
{
    if bins.len() == 0 {
        0
    } else {
        total_load(bins.drop_last()) + sum(bins.last())
    }
}

/// Every weight held by some bin, counted as often as it is held.
pub open spec fn all_items(bins: Seq<Seq<i32>>) -> Multiset<i32>
    decreases bins.len(),
{
    if bins.len() == 0 {
        Multiset::empty()
    } else {
        all_items(bins.drop_last()).add(bins.last().to_multiset())
    }
}

/// `j` is the lowest index that holds the smallest value of `values`.
pub open spec fn first_minimum(values: Seq<int>, j: int) -> bool {
    &&& 0 <= j < values.len()
    &&& forall|i: int| 0 <= i < values.len() ==> values[j] <= #[trigger] values[i]
    &&& forall|i: int| 0 <= i < j ==> values[j] < #[trigger] values[i]
}

/// `m` is the largest value of `values`.
pub open spec fn is_maximum(values: Seq<int>, m: int) -> bool {
    &&& exists|j: int| 0 <= j < values.len() && #[trigger] values[j] == m
    &&& forall|i: int| 0 <= i < values.len() ==> #[trigger] values[i] <= m
}

/// The index of the bin that receives the next weight: the least loaded
/// one, and among equally loaded ones the one with the lowest index.
pub open spec fn least_loaded(bins: Seq<Seq<i32>>) -> int {
    choose|j: int| first_minimum(loads(bins), j)
}

/// The bins after `w` has been appended to the least loaded one.
pub open spec fn place(bins: Seq<Seq<i32>>, w: i32) -> Seq<Seq<i32>> {
    let j = least_loaded(bins);
    bins.update(j, bins[j].push(w))
}

/// `k` bins that hold nothing.
pub open spec fn empty_bins(k: nat) -> Seq<Seq<i32>> {
    Seq::new(k, |j: int| Seq::<i32>::empty())
}

/// The bins after the weights of `items` have been placed one by one, in
/// the order of `items`, starting from `k` empty bins.
pub open spec fn distribute(items: Seq<i32>, k: nat) -> Seq<Seq<i32>>
    decreases items.len(),
{
    if items.len() == 0 {
        empty_bins(k)
    } else {
        place(distribute(items.drop_last(), k), items.last())
    }
}

/// The order in which weights are placed: larger first.
pub open spec fn larger_first() -> spec_fn(i32, i32) -> bool {
    |a: i32, b: i32| a >= b
}

/// No weight of `s` is followed by a larger one.
pub open spec fn is_descending(s: Seq<i32>) -> bool {
    forall|i: int, j: int| 0 <= i < j < s.len() ==> s[i] >= s[j]
}

/// The weights of `s` from the largest to the smallest.
pub open spec fn descending(s: Seq<i32>) -> Seq<i32> {
    s.sort_by(larger_first())
}

/// Every bin carries the same load.
pub open spec fn all_loads_equal(bins: Seq<Seq<i32>>) -> bool {
    forall|i: int, j: int|
        0 <= i < bins.len() && 0 <= j < bins.len() ==> sum(#[trigger] bins[i]) == sum(
            #[trigger] bins[j],
        )
}

/// The greedy assignment of `weights` to `k` bins: the weights are taken
/// from the largest to the smallest, each to the least loaded bin.
pub open spec fn greedy(weights: Seq<i32>, k: nat) -> Seq<Seq<i32>> {
    distribute(descending(weights), k)
}

/// What a finished run holds: the weights of every bin in the order in
/// which the bin received them, the load of every bin, whether the run
/// ended balanced, and the largest load.
pub struct Outcome {
    pub bins: Seq<Seq<i32>>,
    pub loads: Seq<int>,
    pub balanced: bool,
    pub max_load: int,
}

impl Outcome {
    /// The loads, the flag and the largest load say what the bins say:
    /// there is a bin, each load is the sum of its bin, `max_load` is the
    /// largest of them, and `balanced` tells whether all of them are equal.
    pub open spec fn wf(self) -> bool {
        &&& self.bins.len() >= 1
        &&& self.loads == loads(self.bins)
        &&& is_maximum(self.loads, self.max_load)
        &&& self.balanced == all_loads_equal(self.bins)
    }

    /// This is the outcome of partitioning `weights` over `k` bins.
    pub open spec fn is_partition_of(self, weights: Seq<i32>, k: nat) -> bool {
        &&& self.wf()
        &&& self.bins == greedy(weights, k)
    }
}

} // verus!
