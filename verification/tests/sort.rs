use automotive_wire_codec::{insertion_sort, sort, NumberList, SortError, MAX_LEN};

#[test]
fn insertion_sort_orders_values() {
    let mut values = [5, 2, 9, 1, 5, 6];
    insertion_sort(&mut values);
    assert_eq!(values, [1, 2, 5, 5, 6, 9]);
}

#[test]
fn insertion_sort_handles_empty_and_singleton() {
    let mut empty: [i64; 0] = [];
    insertion_sort(&mut empty);
    assert!(empty.is_empty());

    let mut singleton = [42];
    insertion_sort(&mut singleton);
    assert_eq!(singleton, [42]);
}

#[test]
fn insertion_sort_preserves_duplicates() {
    let mut values = [3, 1, 3, 2, 2, 1];
    insertion_sort(&mut values);
    assert_eq!(values, [1, 1, 2, 2, 3, 3]);
}

#[test]
fn miri_insertion_sort_idempotent_after_sort() {
    let mut values = [8, -2, 4, 4, 0, 3, -2];
    insertion_sort(&mut values);
    let once_sorted = values;
    insertion_sort(&mut values);
    assert_eq!(values, once_sorted);
}

#[test]
fn insertion_sort_matches_std_sort_on_extremes() {
    let mut values = [i64::MAX, 0, i64::MIN, -1, 1, i64::MIN, i64::MAX];
    let mut expected = values;
    expected.sort_unstable();
    insertion_sort(&mut values);
    assert_eq!(values, expected);
}

#[test]
fn sort_accepts_up_to_max_len() {
    let values: Vec<i64> = (0..MAX_LEN as i64).rev().collect();
    let sorted = sort(NumberList { values }).unwrap();
    let expected: Vec<i64> = (0..MAX_LEN as i64).collect();
    assert_eq!(sorted.values, expected);
}

#[test]
fn sort_rejects_longer_lists() {
    let values = vec![0i64; MAX_LEN + 1];
    assert!(matches!(sort(NumberList { values }), Err(SortError::TooLong)));
}

#[test]
fn sort_small_list() {
    let sorted = sort(NumberList { values: vec![3, -7, 3, 0] }).unwrap();
    assert_eq!(sorted.values, vec![-7, 0, 3, 3]);
}
