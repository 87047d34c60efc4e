use rustbits::flatten::flatten;

#[test]
fn empty() {
    assert_eq!(flatten(Vec::<Vec<()>>::new()).count(), 0);
}

#[test]
fn one() {
    assert_eq!(flatten(vec![vec!["a"]]).count(), 1);
}

#[test]
fn two() {
    assert_eq!(flatten(vec![vec!["1"], vec!["2"]]).count(), 2);
}

#[test]
fn two_inner() {
    assert_eq!(flatten(vec![vec!["a", "b"]]).count(), 2);
}

#[test]
fn flatten_yields_items_in_order_skipping_empty_inner() {
    let mut f = flatten(vec![vec![1, 2], vec![], vec![3]]);
    assert_eq!(f.next(), Some(1));
    assert_eq!(f.next(), Some(2));
    assert_eq!(f.next(), Some(3));
    assert_eq!(f.next(), None);
    assert_eq!(f.next(), None);
}

#[test]
fn flatten_count_is_sum_of_inner_lengths() {
    assert_eq!(flatten(vec![vec![0u8; 3], vec![], vec![7u8; 4]]).count(), 7);
}

#[test]
fn flatten_collects_every_item_in_order() {
    let items = flatten(vec![vec!["a", "b"], vec![], vec!["c"], vec![]]).collect();
    assert_eq!(items, vec!["a", "b", "c"]);
    assert!(flatten(Vec::<Vec<u8>>::new()).collect().is_empty());
}
