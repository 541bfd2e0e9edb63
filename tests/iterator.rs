use mcu_flash::iterator::Unique;

#[test]
fn all_unique_in_various_scenarios() {
    assert!([3, 4, 1, 5].all_unique());
    assert!(![1, 2, 3, 3, 2].all_unique());
    assert!(["fish", "foot", "fly", "foresight"].all_unique());
    assert!(![None, Some(3), Some(5), None].all_unique());
}

#[test]
fn iterating_until_sequence() {
    assert!([3, 4, 1, 5].all_unique());
    assert!(![1, 2, 3, 3, 2].all_unique());
    assert!(["fish", "foot", "fly", "foresight"].all_unique());
    assert!(![None, Some(3), Some(5), None].all_unique());
}

#[test]
fn empty_and_single_collections_are_unique() {
    let empty: [u8; 0] = [];
    assert!(empty.all_unique());
    assert!([7].all_unique());
    assert!(![7, 7].all_unique());
}

use mcu_flash::iterator::UntilSequence;

fn collect(input: Vec<u8>, sequence: &[u8]) -> Vec<u8> {
    let mut it = input.until_sequence(sequence);
    let mut out = Vec::new();
    while let Some(x) = it.next() {
        out.push(x);
    }
    out
}

#[test]
fn iteration_stops_before_the_sequence() {
    assert_eq!(collect(vec![1, 2, 3, 9, 8, 4, 5], &[9, 8]), vec![1, 2, 3]);
}

#[test]
fn partial_matches_are_given_back() {
    assert_eq!(collect(vec![1, 9, 5, 9, 8, 7], &[9, 8]), vec![1, 9, 5]);
    assert_eq!(collect(vec![1, 2, 9], &[9, 8]), vec![1, 2, 9]);
}

#[test]
fn without_the_sequence_everything_comes_out() {
    assert_eq!(collect(vec![4, 5, 6], &[7]), vec![4, 5, 6]);
    assert_eq!(collect(vec![], &[7]), Vec::<u8>::new());
    assert_eq!(collect(vec![7, 1], &[7]), Vec::<u8>::new());
}

#[test]
fn a_sequence_starting_inside_a_broken_match_is_found() {
    assert_eq!(collect(vec![1, 2, 1, 2, 3], &[1, 2, 3]), vec![1, 2]);
    assert_eq!(collect(vec![1, 1, 2, 3], &[1, 2, 3]), vec![1]);
    assert_eq!(collect(vec![5, 1, 2, 3], &[1, 2, 3]), vec![5]);
}

#[test]
fn an_empty_sequence_is_reached_at_once() {
    assert_eq!(collect(vec![1, 2], &[]), Vec::<u8>::new());
}
