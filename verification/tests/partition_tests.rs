use asignacion_estaciones::partition::{
    every_load_is, largest_load, least_loaded_index, partition, PartitionError, PartitionResult,
};
use asignacion_estaciones::sorting::{merge_descending, sort_descending, sorted_range};

fn loads_of(r: &PartitionResult) -> Vec<i128> {
    r.bins
        .iter()
        .map(|b| b.iter().map(|w| *w as i128).sum::<i128>())
        .collect()
}

fn sorted_copy(v: &[i32]) -> Vec<i32> {
    let mut s = v.to_vec();
    s.sort();
    s
}

fn all_weights(r: &PartitionResult) -> Vec<i32> {
    let mut all: Vec<i32> = Vec::new();
    for b in &r.bins {
        all.extend_from_slice(b);
    }
    all
}

#[test]
fn no_weights_leave_every_bin_empty() {
    let r = partition(vec![], 3).unwrap();
    assert_eq!(r.bins, vec![Vec::<i32>::new(), Vec::new(), Vec::new()]);
    assert_eq!(r.loads, vec![0, 0, 0]);
    assert!(r.balanced);
    assert_eq!(r.max_load, 0);
}

#[test]
fn four_equal_weights_balance_over_two_bins() {
    let r = partition(vec![10, 10, 10, 10], 2).unwrap();
    assert_eq!(r.bins, vec![vec![10, 10], vec![10, 10]]);
    assert_eq!(r.loads, vec![20, 20]);
    assert!(r.balanced);
    assert_eq!(r.max_load, 20);
}

#[test]
fn five_three_three_goes_to_the_lighter_bin_each_time() {
    let r = partition(vec![5, 3, 3], 2).unwrap();
    assert_eq!(r.bins, vec![vec![5], vec![3, 3]]);
    assert_eq!(r.loads, vec![5, 6]);
    assert!(!r.balanced);
    assert_eq!(r.max_load, 6);
}

#[test]
fn zero_bins_are_refused() {
    assert_eq!(partition(vec![1, 2, 3], 0), Err(PartitionError::InvalidInput));
    assert_eq!(partition(vec![], 0), Err(PartitionError::InvalidInput));
}

#[test]
fn negative_bin_counts_are_refused() {
    assert_eq!(partition(vec![4], -1), Err(PartitionError::InvalidInput));
    assert_eq!(partition(vec![4], i32::MIN), Err(PartitionError::InvalidInput));
}

#[test]
fn one_bin_takes_everything_largest_first() {
    let r = partition(vec![2, 9, 4], 1).unwrap();
    assert_eq!(r.bins, vec![vec![9, 4, 2]]);
    assert!(r.balanced);
    assert_eq!(r.max_load, 15);
}

#[test]
fn a_single_weight_goes_to_the_first_bin() {
    let r = partition(vec![7], 3).unwrap();
    assert_eq!(r.bins, vec![vec![7], vec![], vec![]]);
    assert!(!r.balanced);
    assert_eq!(r.max_load, 7);
}

#[test]
fn unsorted_input_is_placed_largest_first() {
    let r = partition(vec![1, 8, 3, 7, 2, 5], 3).unwrap();
    // 8 -> 0, 7 -> 1, 5 -> 2, 3 -> 2, 2 -> 1, 1 -> 0
    assert_eq!(r.bins, vec![vec![8, 1], vec![7, 2], vec![5, 3]]);
    assert_eq!(r.loads, vec![9, 9, 8]);
    assert!(!r.balanced);
    assert_eq!(r.max_load, 9);
}

#[test]
fn equal_loads_go_to_the_lowest_index() {
    let r = partition(vec![4, 4, 4], 4).unwrap();
    assert_eq!(r.bins, vec![vec![4], vec![4], vec![4], vec![]]);
    assert!(!r.balanced);
    assert_eq!(r.max_load, 4);
}

#[test]
fn balance_reached_with_unequal_weights() {
    let r = partition(vec![3, 1, 2], 2).unwrap();
    assert_eq!(r.bins, vec![vec![3], vec![2, 1]]);
    assert!(r.balanced);
    assert_eq!(r.max_load, 3);
}

#[test]
fn loads_add_up_to_the_sum_of_the_weights() {
    let weights = vec![17, 450, 33, 33, 500, 1, 260, 75, 75, 9];
    for k in 1..6 {
        let r = partition(weights.clone(), k).unwrap();
        let total: i128 = r.loads.iter().sum();
        assert_eq!(total, 1453);
        assert_eq!(r.loads, loads_of(&r));
        assert_eq!(r.bins.len(), k as usize);
    }
}

#[test]
fn every_weight_lands_in_exactly_one_bin() {
    let weights = vec![17, 450, 33, 33, 500, 1, 260, 75, 75, 9];
    for k in 1..6 {
        let r = partition(weights.clone(), k).unwrap();
        assert_eq!(sorted_copy(&all_weights(&r)), sorted_copy(&weights));
    }
}

#[test]
fn flag_agrees_with_the_loads() {
    let inputs: Vec<(Vec<i32>, i32)> = vec![
        (vec![10, 10, 10, 10], 2),
        (vec![5, 3, 3], 2),
        (vec![], 4),
        (vec![6, 6, 6], 3),
        (vec![6, 6, 6, 1], 3),
    ];
    for (w, k) in inputs {
        let r = partition(w, k).unwrap();
        let loads = loads_of(&r);
        assert_eq!(r.loads, loads);
        let max = *loads.iter().max().unwrap();
        let min = *loads.iter().min().unwrap();
        assert_eq!(r.max_load, max);
        assert_eq!(r.balanced, max == min);
        assert_eq!(!r.balanced, loads.iter().any(|l| *l < r.max_load));
    }
}

#[test]
fn same_input_gives_the_same_bins() {
    let weights = vec![7, 7, 3, 9, 9, 9, 1, 3, 7];
    let a = partition(weights.clone(), 3).unwrap();
    let b = partition(weights, 3).unwrap();
    assert_eq!(a, b);
}

#[test]
fn order_of_the_input_does_not_matter() {
    let a = partition(vec![1, 2, 3, 4, 5, 6], 2).unwrap();
    let b = partition(vec![6, 4, 2, 5, 3, 1], 2).unwrap();
    assert_eq!(a, b);
}

#[test]
fn loads_beyond_thirty_two_bits_do_not_wrap() {
    let r = partition(vec![i32::MAX, i32::MAX, i32::MAX], 1).unwrap();
    assert_eq!(r.max_load, 3 * (i32::MAX as i128));
    assert!(r.balanced);
}

#[test]
fn weights_that_are_not_positive_are_accumulated() {
    let r = partition(vec![0, -2, 5], 2).unwrap();
    // 5 -> 0, 0 -> 1, -2 -> 1
    assert_eq!(r.bins, vec![vec![5], vec![0, -2]]);
    assert_eq!(r.loads, vec![5, -2]);
    assert_eq!(r.max_load, 5);
    assert!(!r.balanced);
}

#[test]
fn sort_descending_orders_largest_first() {
    let mut v = vec![3, 500, 1, 3, 42, -7, 0];
    sort_descending(&mut v);
    assert_eq!(v, vec![500, 42, 3, 3, 1, 0, -7]);
    let mut e: Vec<i32> = vec![];
    sort_descending(&mut e);
    assert_eq!(e, Vec::<i32>::new());
    let mut one = vec![9];
    sort_descending(&mut one);
    assert_eq!(one, vec![9]);
}

#[test]
fn least_loaded_index_prefers_the_lowest_index() {
    assert_eq!(least_loaded_index(&vec![4, 2, 7, 2]), 1);
    assert_eq!(least_loaded_index(&vec![0, 0, 0]), 0);
    assert_eq!(least_loaded_index(&vec![9]), 0);
    assert_eq!(least_loaded_index(&vec![3, 2, 1]), 2);
}

#[test]
fn largest_load_finds_the_maximum() {
    assert_eq!(largest_load(&vec![4, 2, 7, 2]), 7);
    assert_eq!(largest_load(&vec![-4, -2, -7]), -2);
    assert_eq!(largest_load(&vec![0]), 0);
}

#[test]
fn every_load_is_checks_all_entries() {
    assert!(every_load_is(&vec![5, 5, 5], 5));
    assert!(!every_load_is(&vec![5, 5, 4], 5));
    assert!(!every_load_is(&vec![4, 5, 5], 5));
    assert!(every_load_is(&vec![], 1));
}

#[test]
fn merge_descending_interleaves_two_ordered_sequences() {
    assert_eq!(
        merge_descending(&vec![9, 5, 5, 1], &vec![8, 5, 2]),
        vec![9, 8, 5, 5, 5, 2, 1]
    );
    assert_eq!(merge_descending(&vec![], &vec![3, 1]), vec![3, 1]);
    assert_eq!(merge_descending(&vec![3, 1], &vec![]), vec![3, 1]);
    assert_eq!(merge_descending(&vec![], &vec![]), Vec::<i32>::new());
}

#[test]
fn sorted_range_orders_only_the_range() {
    let v = vec![4, 1, 7, 3, 9, 2];
    assert_eq!(sorted_range(&v, 1, 5), vec![9, 7, 3, 1]);
    assert_eq!(sorted_range(&v, 2, 2), Vec::<i32>::new());
    assert_eq!(sorted_range(&v, 5, 6), vec![2]);
    assert_eq!(sorted_range(&v, 0, 6), vec![9, 7, 4, 3, 2, 1]);
}

#[test]
fn sort_descending_agrees_with_a_reversed_ascending_sort() {
    let mut v: Vec<i32> = Vec::new();
    let mut x: i64 = 12345;
    for _ in 0..1000 {
        x = (x * 1103515245 + 12345) % 2147483648;
        v.push((x % 501) as i32);
    }
    let mut expected = v.clone();
    expected.sort();
    expected.reverse();
    sort_descending(&mut v);
    assert_eq!(v, expected);
}
