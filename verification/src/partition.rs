//! The partitioner: weights in, bins with their balance out.

use vstd::prelude::*;
use crate::model::{
    all_items, all_loads_equal, distribute, first_minimum, greedy, is_maximum, least_loaded,
    loads, place, sum, total_load, Outcome,
};
use crate::laws::{
    lemma_balance, law_every_weight_in_one_bin, law_loads_add_up, lemma_first_minimum_unique,
    lemma_sum_push,
};
use crate::sorting::sort_descending;

verus! {

/// Why a partition was refused.
#[derive(Debug, Clone, Copy, PartialEq, Eq)]
pub enum PartitionError {
    /// Fewer than one bin was asked for.
    InvalidInput,
}

/// The outcome of one run: every bin with the weights it received, in the
/// order in which it received them, the load of every bin, whether every bin
/// carries the same load, and the largest load.
#[derive(Debug, PartialEq, Eq)]
pub struct PartitionResult {
    pub bins: Vec<Vec<i32>>,
    pub loads: Vec<i128>,
    pub balanced: bool,
    pub max_load: i128,
}

/// The weights of each bin as sequences.
pub open spec fn bin_views(bins: Seq<Vec<i32>>) -> Seq<Seq<i32>> {
    Seq::new(bins.len(), |j: int| bins[j]@)
}

/// Machine loads as unbounded integers.
pub open spec fn load_values(sums: Seq<i128>) -> Seq<int> {
    Seq::new(sums.len(), |j: int| sums[j] as int)
}

impl View for PartitionResult {
    type V = Outcome;

    open spec fn view(&self) -> Outcome {
        Outcome {
            bins: bin_views(self.bins@),
            loads: load_values(self.loads@),
            balanced: self.balanced,
            max_load: self.max_load as int,
        }
    }
}

/// The lowest index among those that hold the smallest load.
pub fn least_loaded_index(sums: &Vec<i128>) -> (j: usize)
    requires
        sums@.len() > 0,
    ensures
        first_minimum(load_values(sums@), j as int),
{
    let n: usize = sums.len();
    let mut best: usize = 0;
    let mut i: usize = 1;
    while i < n
        invariant
            n == sums@.len(),
            1 <= i <= n,
            best < i,
            forall|a: int| 0 <= a < i ==> sums@[best as int] <= sums@[a],
            forall|a: int| 0 <= a < best ==> sums@[best as int] < sums@[a],
        decreases n - i,
    {
        if sums[i] < sums[best] {
            best = i;
        }
        i = i + 1;
    }
    best
}

/// The largest load.
pub fn largest_load(sums: &Vec<i128>) -> (m: i128)
    requires
        sums@.len() > 0,
    ensures
        is_maximum(load_values(sums@), m as int),
{
    let n: usize = sums.len();
    let mut top: usize = 0;
    let mut i: usize = 1;
    while i < n
        invariant
            n == sums@.len(),
            1 <= i <= n,
            top < i,
            forall|a: int| 0 <= a < i ==> sums@[a] <= sums@[top as int],
        decreases n - i,
    {
        if sums[i] > sums[top] {
            top = i;
        }
        i = i + 1;
    }
    assert(load_values(sums@)[top as int] == sums@[top as int]);
    sums[top]
}

/// Whether every load is `m`.
pub fn every_load_is(sums: &Vec<i128>, m: i128) -> (all: bool)
    ensures
        all == (forall|a: int| 0 <= a < sums@.len() ==> sums@[a] == m),
{
    let n: usize = sums.len();
    let mut i: usize = 0;
    while i < n
        invariant
            n == sums@.len(),
            i <= n,
            forall|a: int| 0 <= a < i ==> sums@[a] == m,
        decreases n - i,
    {
        if sums[i] != m {
            return false;
        }
        i = i + 1;
    }
    true
}

/// Distributes `weights` over `bin_count` bins: the weights are taken from
/// the largest to the smallest, and each goes to the bin with the smallest
/// load at that moment, the one with the lowest index where several share
/// it. Fewer than one bin is refused.
pub fn partition(weights: Vec<i32>, bin_count: i32) -> (res: Result<
    PartitionResult,
    PartitionError,
>)
    ensures
        bin_count < 1 ==> res == Err::<PartitionResult, PartitionError>(
            PartitionError::InvalidInput,
        ),
        bin_count >= 1 ==> res is Ok,
        res matches Ok(r) ==> {
            &&& r@.is_partition_of(weights@, bin_count as nat)
            &&& r@.bins.len() == bin_count
            &&& total_load(r@.bins) == sum(weights@)
            &&& all_items(r@.bins) == weights@.to_multiset()
        },
{
    if bin_count < 1 {
        return Err(PartitionError::InvalidInput);
    }
    let k: usize = bin_count as usize;
    let mut sorted: Vec<i32> = weights;
    sort_descending(&mut sorted);
    let mut bins: Vec<Vec<i32>> = Vec::new();
    let mut sums: Vec<i128> = Vec::new();
    let mut b: usize = 0;
    while b < k
        invariant
            b <= k,
            bins@.len() == b,
            sums@.len() == b,
            forall|j: int| 0 <= j < b ==> (#[trigger] bins@[j])@ == Seq::<i32>::empty(),
            forall|j: int| 0 <= j < b ==> #[trigger] sums@[j] == 0,
        decreases k - b,
    {
        bins.push(Vec::new());
        sums.push(0);
        b = b + 1;
    }
    let n: usize = sorted.len();
    let mut i: usize = 0;
    assert(bin_views(bins@) =~= distribute(sorted@.take(0), k as nat));
    assert(sum(Seq::<i32>::empty()) == 0);
    while i < n
        invariant
            k >= 1,
            n == sorted@.len(),
            i <= n,
            bins@.len() == k,
            sums@.len() == k,
            bin_views(bins@) == distribute(sorted@.take(i as int), k as nat),
            forall|j: int| 0 <= j < k ==> #[trigger] sums@[j] == sum(bins@[j]@),
            // no weight is further from zero than 2^31, so after `i` weights no load
            // is further from zero than `i` times that
            forall|j: int|
                0 <= j < k ==> -(i * 0x8000_0000) <= #[trigger] sums@[j] <= i * 0x8000_0000,
        decreases n - i,
    {
        let w: i32 = sorted[i];
        let j: usize = least_loaded_index(&sums);
        let ghost before = bin_views(bins@);
        proof {
            assert(load_values(sums@) =~= loads(before));
            assert(first_minimum(loads(before), least_loaded(before)));
            lemma_first_minimum_unique(loads(before), j as int, least_loaded(before));
            lemma_sum_push(before[j as int], w);
        }
        bins[j].push(w);
        sums[j] = sums[j] + w as i128;
        proof {
            let upto = sorted@.take(i + 1);
            assert(upto.drop_last() =~= sorted@.take(i as int));
            assert(upto.last() == w);
            assert(bin_views(bins@) =~= place(before, w));
        }
        i = i + 1;
    }
    assert(sorted@.take(n as int) =~= sorted@);
    let max_load: i128 = largest_load(&sums);
    let balanced: bool = every_load_is(&sums, max_load);
    let ghost bins_then = bins@;
    let ghost sums_then = sums@;
    let r = PartitionResult { bins, loads: sums, balanced, max_load };
    proof {
        let held = r@.bins;
        assert(load_values(sums_then) =~= loads(held));
        lemma_balance(held, max_load as int);
        if balanced {
            assert forall|a: int| 0 <= a < held.len() implies sum(#[trigger] held[a])
                == max_load by {
                assert(sums_then[a] == sum(bins_then[a]@));
            }
        } else {
            let a = choose|a: int| 0 <= a < sums_then.len() && sums_then[a] != max_load;
            assert(sums_then[a] == sum(bins_then[a]@));
            assert(sum(held[a]) != max_load);
        }
        law_loads_add_up(weights@, k as nat);
        law_every_weight_in_one_bin(weights@, k as nat);
    }
    Ok(r)
}

} // verus!
