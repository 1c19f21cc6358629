use fundamentals::sorting::sort_values;

#[test]
fn sorts_fixed_five_element_sequence() {
    let mut v: Vec<i64> = vec![3, 5, 4, 1, 2];
    sort_values(&mut v);
    assert_eq!(v, vec![1, 2, 3, 4, 5]);
}

#[test]
fn sort_preserves_length() {
    let mut v: Vec<i64> = vec![3, 5, 4, 1, 2];
    sort_values(&mut v);
    assert_eq!(v.len(), 5);
}

#[test]
fn sort_handles_empty_and_singleton() {
    let mut e: Vec<i64> = vec![];
    sort_values(&mut e);
    assert!(e.is_empty());

    let mut s: Vec<i64> = vec![7];
    sort_values(&mut s);
    assert_eq!(s, vec![7]);
}

#[test]
fn sort_keeps_duplicates() {
    let mut v: Vec<i64> = vec![2, -1, 2, 0, -1];
    sort_values(&mut v);
    assert_eq!(v, vec![-1, -1, 0, 2, 2]);
}

#[test]
fn sort_of_sorted_input_is_identity() {
    let mut v: Vec<i64> = vec![1, 2, 3];
    sort_values(&mut v);
    assert_eq!(v, vec![1, 2, 3]);
}
