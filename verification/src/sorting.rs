//! Sorting weights from the largest to the smallest.

use vstd::prelude::*;
use vstd::relations::*;
use vstd::seq_lib::*;
use crate::model::{descending, is_descending, larger_first};

verus! {

/// `descending(s)` is ordered from the largest to the smallest and holds
/// exactly the weights of `s`.
pub proof fn lemma_descending(s: Seq<i32>)
    ensures
        is_descending(descending(s)),
        descending(s).to_multiset() == s.to_multiset(),
        descending(s).len() == s.len(),
{
    assert(total_ordering(larger_first()));
    s.lemma_sort_by_ensures(larger_first());
    let d = descending(s);
    assert(sorted_by(d, larger_first()));
    assert forall|i: int, j: int| 0 <= i < j < d.len() implies d[i] >= d[j] by {
        assert(larger_first()(d[i], d[j]));
    }
    d.to_multiset_ensures();
    s.to_multiset_ensures();
}

/// A sequence ordered from the largest to the smallest is the only such
/// arrangement of its weights.
pub proof fn lemma_descending_unique(r: Seq<i32>, s: Seq<i32>)
    requires
        is_descending(r),
        r.to_multiset() == s.to_multiset(),
    ensures
        r == descending(s),
{
    assert(total_ordering(larger_first()));
    s.lemma_sort_by_ensures(larger_first());
    assert(sorted_by(r, larger_first()));
    lemma_sorted_unique(r, descending(s), larger_first());
}

/// Merges two sequences that are each ordered from the largest to the
/// smallest into one that is. Of two equal weights the one of `a` comes
/// first.
pub fn merge_descending(a: &Vec<i32>, b: &Vec<i32>) -> (r: Vec<i32>)
    requires
        is_descending(a@),
        is_descending(b@),
    ensures
        is_descending(r@),
        r@.to_multiset() == a@.to_multiset().add(b@.to_multiset()),
{
    let na: usize = a.len();
    let nb: usize = b.len();
    let mut r: Vec<i32> = Vec::new();
    let mut i: usize = 0;
    let mut j: usize = 0;
    proof {
        broadcast use group_to_multiset_ensures;
        assert(r@.to_multiset() =~= a@.take(0).to_multiset().add(b@.take(0).to_multiset()));
    }
    while i < na || j < nb
        invariant
            na == a@.len(),
            nb == b@.len(),
            i <= na,
            j <= nb,
            is_descending(a@),
            is_descending(b@),
            is_descending(r@),
            r@.to_multiset() == a@.take(i as int).to_multiset().add(
                b@.take(j as int).to_multiset(),
            ),
            forall|x: int| 0 <= x < r@.len() && i < na ==> r@[x] >= a@[i as int],
            forall|x: int| 0 <= x < r@.len() && j < nb ==> r@[x] >= b@[j as int],
        decreases (na - i) + (nb - j),
    {
        let ghost before = r@;
        if j >= nb || (i < na && a[i] >= b[j]) {
            let w: i32 = a[i];
            r.push(w);
            proof {
                broadcast use group_to_multiset_ensures;
                assert(a@.take(i + 1) =~= a@.take(i as int).push(w));
                assert(r@.to_multiset() =~= a@.take(i + 1).to_multiset().add(
                    b@.take(j as int).to_multiset(),
                ));
            }
            i = i + 1;
        } else {
            let w: i32 = b[j];
            r.push(w);
            proof {
                broadcast use group_to_multiset_ensures;
                assert(b@.take(j + 1) =~= b@.take(j as int).push(w));
                assert(r@.to_multiset() =~= a@.take(i as int).to_multiset().add(
                    b@.take(j + 1).to_multiset(),
                ));
            }
            j = j + 1;
        }
    }
    proof {
        assert(a@.take(na as int) =~= a@);
        assert(b@.take(nb as int) =~= b@);
    }
    r
}

/// The weights of `v` from index `lo` up to `hi`, from the largest to the
/// smallest.
pub fn sorted_range(v: &Vec<i32>, lo: usize, hi: usize) -> (r: Vec<i32>)
    requires
        lo <= hi <= v@.len(),
    ensures
        r@ == descending(v@.subrange(lo as int, hi as int)),
    decreases hi - lo,
{
    let ghost part = v@.subrange(lo as int, hi as int);
    if hi - lo <= 1 {
        let mut r: Vec<i32> = Vec::new();
        if lo < hi {
            r.push(v[lo]);
        }
        proof {
            assert(r@ =~= part);
            lemma_descending_unique(r@, part);
        }
        r
    } else {
        let mid: usize = lo + (hi - lo) / 2;
        let left: Vec<i32> = sorted_range(v, lo, mid);
        let right: Vec<i32> = sorted_range(v, mid, hi);
        proof {
            lemma_descending(v@.subrange(lo as int, mid as int));
            lemma_descending(v@.subrange(mid as int, hi as int));
        }
        let r: Vec<i32> = merge_descending(&left, &right);
        proof {
            let l = v@.subrange(lo as int, mid as int);
            let h = v@.subrange(mid as int, hi as int);
            assert(part =~= l + h);
            lemma_multiset_commutative(l, h);
            lemma_descending_unique(r@, part);
        }
        r
    }
}

/// Reorders `v` from the largest weight to the smallest.
pub fn sort_descending(v: &mut Vec<i32>)
    ensures
        final(v)@ == descending(old(v)@),
{
    let sorted: Vec<i32> = sorted_range(v, 0, v.len());
    assert(v@.subrange(0, v@.len() as int) =~= v@);
    *v = sorted;
}

} // verus!
