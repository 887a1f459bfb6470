use katas::merge::halving;
use katas::merge::owned;
use katas::merge::stepped;

#[test]
fn or_merge_slices_merge_slices_empty() {
    assert_eq!(owned::merge_slices(&[], &[]), vec![]);
}

#[test]
fn or_merge_slices_merge_slices_basic() {
    assert_eq!(owned::merge_slices(&[1, 2, 3], &[4, 5, 6]), vec![1, 2, 3, 4, 5, 6]);
}

#[test]
fn or_merge_slices_merge_slices_interleaved() {
    assert_eq!(owned::merge_slices(&[1, 3, 5], &[2, 4, 6]), vec![1, 2, 3, 4, 5, 6]);
}

#[test]
fn or_merge_slices_merge_slices_duplicates() {
    assert_eq!(owned::merge_slices(&[1, 1, 3], &[1, 3, 4]), vec![1, 1, 1, 3, 3, 4]);
}

#[test]
fn or_merge_slices_merge_slices_uneven_size() {
    assert_eq!(
        owned::merge_slices(&[1, 4, 6, 8], &[0, 1, 1, 3, 4, 5, 7, 8, 9]),
        vec![0, 1, 1, 1, 3, 4, 4, 5, 6, 7, 8, 8, 9]
    );
}

#[test]
fn or_merge_slices_merge_slices_first_empty() {
    assert_eq!(owned::merge_slices(&[], &[1, 4, 8]), vec![1, 4, 8]);
}

#[test]
fn or_merge_slices_merge_slices_second_empty() {
    assert_eq!(owned::merge_slices(&[11, 9, 10], &[]), vec![11, 9, 10]);
}

#[test]
fn test_merge_sort() {
    assert_eq!(owned::merge_sort(vec![11, 9, 10]), vec![9, 10, 11]);
}

#[test]
fn merge_slices_empty() {
    assert_eq!(halving::merge_slices(&[], &[]), vec![]);
}

#[test]
fn merge_slices_basic() {
    assert_eq!(halving::merge_slices(&[1, 2, 3], &[4, 5, 6]), vec![1, 2, 3, 4, 5, 6]);
}

#[test]
fn merge_slices_interleaved() {
    assert_eq!(halving::merge_slices(&[1, 3, 5], &[2, 4, 6]), vec![1, 2, 3, 4, 5, 6]);
}

#[test]
fn merge_slices_duplicates() {
    assert_eq!(halving::merge_slices(&[1, 1, 3], &[1, 3, 4]), vec![1, 1, 1, 3, 3, 4]);
}

#[test]
fn merge_slices_uneven_size() {
    assert_eq!(
        halving::merge_slices(&[1, 4, 6, 8], &[0, 1, 1, 3, 4, 5, 7, 8, 9]),
        vec![0, 1, 1, 1, 3, 4, 4, 5, 6, 7, 8, 8, 9]
    );
}

#[test]
fn merge_slices_first_empty() {
    assert_eq!(halving::merge_slices(&[], &[1, 4, 8]), vec![1, 4, 8]);
}

#[test]
fn merge_slices_second_empty() {
    assert_eq!(halving::merge_slices(&[1, 9, 11], &[]), vec![1, 9, 11]);
}

#[test]
fn merge_sort_basic() {
    assert_eq!(halving::merge_sort(&[1, 3, 5, 2, 4, 6]), vec![1, 2, 3, 4, 5, 6]);
}

#[test]
fn merge_sort_duplicates() {
    assert_eq!(halving::merge_sort(&[1, 1, 3, 1, 3, 4]), vec![1, 1, 1, 3, 3, 4]);
}

#[test]
fn ifraixedes_empty() {
    assert_eq!(stepped::merge_slices(&[], &[]), vec![]);
}

#[test]
fn basic() {
    assert_eq!(stepped::merge_slices(&[1, 2, 3], &[4, 5, 6]), vec![1, 2, 3, 4, 5, 6]);
}

#[test]
fn interleaved() {
    assert_eq!(stepped::merge_slices(&[1, 3, 5], &[2, 4, 6]), vec![1, 2, 3, 4, 5, 6]);
}

#[test]
fn duplicates() {
    assert_eq!(stepped::merge_slices(&[1, 1, 3], &[1, 3, 4]), vec![1, 1, 1, 3, 3, 4]);
}

#[test]
fn uneven_size() {
    assert_eq!(
        stepped::merge_slices(&[1, 4, 6, 8], &[0, 1, 1, 3, 4, 5, 7, 8, 9]),
        vec![0, 1, 1, 1, 3, 4, 4, 5, 6, 7, 8, 8, 9]
    );
}

#[test]
fn first_empty() {
    assert_eq!(stepped::merge_slices(&[], &[1, 4, 8]), vec![1, 4, 8]);
}

#[test]
fn second_empty() {
    assert_eq!(stepped::merge_slices(&[1, 9, 11], &[]), vec![1, 9, 11]);
}

#[test]
fn stepped_sort_empty() {
    assert_eq!(stepped::merge_sort(&[]), Vec::new(),);
}

#[test]
fn ifraixedes_one_element() {
    assert_eq!(stepped::merge_sort(&[5]), vec![5]);
}

#[test]
fn ifraixedes_two_element_sorted() {
    assert_eq!(stepped::merge_sort(&[2, 6]), vec![2, 6]);
}

#[test]
fn ifraixedes_two_element_unsorted() {
    assert_eq!(stepped::merge_sort(&[5, 1]), vec![1, 5]);
}

#[test]
fn ifraixedes_long_sorted() {
    assert_eq!(
        stepped::merge_sort(&[0, 1, 1, 1, 3, 4, 4, 5, 6, 7, 8, 8, 9]),
        vec![0, 1, 1, 1, 3, 4, 4, 5, 6, 7, 8, 8, 9]
    );
}

#[test]
fn ifraixedes_long_unsorted() {
    assert_eq!(
        stepped::merge_sort(&[8, 0, 1, 3, 1, 1, 4, 5, 6, 7, 4, 9, 8]),
        vec![0, 1, 1, 1, 3, 4, 4, 5, 6, 7, 8, 8, 9]
    );
}

#[test]
fn iterative_empty() {
    assert_eq!(stepped::merge_sort_iterative(&[]), Vec::new(),);
}

#[test]
fn iterative_one_element() {
    assert_eq!(stepped::merge_sort_iterative(&[5]), vec![5]);
}

#[test]
fn iterative_two_element_sorted() {
    assert_eq!(stepped::merge_sort_iterative(&[2, 6]), vec![2, 6]);
}

#[test]
fn iterative_two_element_unsorted() {
    assert_eq!(stepped::merge_sort_iterative(&[5, 1]), vec![1, 5]);
}

#[test]
fn three_element_unsorted() {
    assert_eq!(stepped::merge_sort_iterative(&[3, 2, 1]), vec![1, 2, 3]);
}

#[test]
fn five_element_unseroted() {
    assert_eq!(stepped::merge_sort_iterative(&[3, 2, 1, 0, 5]), vec![0, 1, 2, 3, 5]);
}

#[test]
fn seven_element_unsorted() {
    assert_eq!(
        stepped::merge_sort_iterative(&[3, 2, 1, 5, 7, 0, 8]),
        vec![0, 1, 2, 3, 5, 7, 8]
    );
}

#[test]
fn iterative_long_sorted() {
    assert_eq!(
        stepped::merge_sort_iterative(&[0, 1, 1, 1, 3, 4, 4, 5, 6, 7, 8, 8, 9]),
        vec![0, 1, 1, 1, 3, 4, 4, 5, 6, 7, 8, 8, 9]
    );
}

#[test]
fn iterative_long_unsorted() {
    assert_eq!(
        stepped::merge_sort_iterative(&[8, 0, 1, 3, 1, 1, 4, 5, 6, 7, 4, 9, 8]),
        vec![0, 1, 1, 1, 3, 4, 4, 5, 6, 7, 8, 8, 9]
    );
}
