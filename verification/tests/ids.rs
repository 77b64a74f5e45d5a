use fallible_iterator::{convert, FallibleIterator};
use quirky_binder_support::iterator::dedup::Dedup;
use quirky_binder_support::iterator::sort::Sort;
use shortcut_release_helper::ids::{dedup_ids, distinct_ids, sort_ids};

#[test]
fn ids_are_sorted() {
    assert_eq!(sort_ids(vec![]), Vec::<i64>::new());
    assert_eq!(sort_ids(vec![5]), vec![5]);
    assert_eq!(sort_ids(vec![3, 1, 2, 3, -7]), vec![-7, 1, 2, 3, 3]);
    assert_eq!(sort_ids(vec![i64::MAX, 0, i64::MIN]), vec![i64::MIN, 0, i64::MAX]);
}

#[test]
fn many_ids_are_sorted() {
    let ids: Vec<i64> = (0..5000).map(|n: i64| n * 7919 % 5003 - 2000).collect();
    let mut expected = ids.clone();
    expected.sort();
    assert_eq!(sort_ids(ids), expected);
}

#[test]
fn repeats_are_left_out() {
    assert_eq!(dedup_ids(&vec![1, 1, 2, 2, 2, 1, 3]), vec![1, 2, 1, 3]);
    assert_eq!(dedup_ids(&vec![]), Vec::<i64>::new());
}

#[test]
fn each_id_once_in_order() {
    assert_eq!(distinct_ids(vec![30, 10, 20, 10, 30]), vec![10, 20, 30]);
    assert_eq!(distinct_ids(vec![20, 30, 10]), distinct_ids(vec![10, 20, 30, 20]));
}

#[test]
fn order_agrees_with_the_stream_iterators() {
    let given: Vec<i64> = vec![5, 3, 3, i64::MIN, 9, 5, 0, -4, 9, i64::MAX, 3];
    let sorted: Vec<i64> = Sort::new(
        convert(given.iter().copied().map(Ok::<i64, anyhow::Error>)),
        |a: &i64, b: &i64| a.cmp(b),
    )
    .collect()
    .unwrap();
    assert_eq!(sort_ids(given.clone()), sorted);
    let distinct: Vec<i64> = Dedup::new(
        convert(sorted.iter().copied().map(Ok::<i64, anyhow::Error>)),
        |a: &i64, b: &i64| a == b,
    )
    .collect()
    .unwrap();
    assert_eq!(dedup_ids(&sorted), distinct);
    assert_eq!(distinct_ids(given), distinct);
}
