use sortviz::utils::clone_with_modifications;
use sortviz::utils::create_markers;
use sortviz::utils::find_min_max;
use sortviz::utils::generate_random_list;
use sortviz::utils::has_unique_elements;
use sortviz::utils::merge_vectors;
use sortviz::utils::get_subvector;
use sortviz::utils::parse_number_list;
use sortviz::utils::shuffle_array;
use sortviz::is_sorted;
use sortviz::numfmt::int_to_string;
use sortviz::numfmt::parse_i32;
use sortviz::numfmt::vec_to_string;

#[test]
fn test_generate_random_list() {
    let list = generate_random_list(Some(10), 1, 100, false);
    assert_eq!(list.len(), 10);
}

#[test]
fn test_is_sorted() {
    assert!(is_sorted(&vec![1, 2, 3, 4, 5]));
    assert!(!is_sorted(&vec![5, 2, 3, 1, 4]));
}

#[test]
fn test_create_markers() {
    let markers = create_markers(5, &vec![0, 2, 4]);
    assert_eq!(markers, vec![true, false, true, false, true]);
}

#[test]
fn test_generate_distinct_in_range() {
    // five distinct values, all within [1, 5]
    let list = generate_random_list(Some(5), 1, 5, true);
    assert_eq!(list.len(), 5);
    assert!(list.iter().all(|&x| 1 <= x && x <= 5));
    assert!(has_unique_elements(&list));
}

#[test]
fn test_generate_more_than_range() {
    // more requested than the range holds: the whole range comes first, in
    // order, and random draws pad out the rest
    let list = generate_random_list(Some(10), 1, 3, true);
    assert_eq!(list.len(), 10);
    assert!(list.iter().all(|&x| 1 <= x && x <= 3));
    assert_eq!(&list[0..3], &[1, 2, 3]);
}

#[test]
fn test_clone_with_modifications() {
    // the last pair for a position wins; out-of-range pairs are ignored
    let data = vec![1, 2, 3];
    let out = clone_with_modifications(&data, &vec![(0, 9), (5, 7), (0, 4)]);
    assert_eq!(out, vec![4, 2, 3]);
    assert_eq!(data, vec![1, 2, 3]);
}

#[test]
fn test_generate_default_count() {
    let list = generate_random_list(None, 2, 6, false);
    assert_eq!(list.len(), 5);
}

#[test]
fn test_shuffle_keeps_elements() {
    let mut data = vec![3, 1, 4, 1, 5, 9, 2, 6];
    let mut expected = data.clone();
    shuffle_array(&mut data);
    expected.sort();
    data.sort();
    assert_eq!(data, expected);
}

#[test]
fn test_find_min_max() {
    assert_eq!(find_min_max(&vec![5, -2, 9, 0]), (-2, 9));
    assert_eq!(find_min_max(&vec![]), (0, 0));
}

#[test]
fn test_has_unique_elements() {
    assert!(has_unique_elements(&vec![1, 2, 3]));
    assert!(!has_unique_elements(&vec![1, 2, 1]));
}

#[test]
fn test_get_subvector() {
    assert_eq!(get_subvector(&vec![1, 2, 3, 4], 1, 3), vec![2, 3]);
    assert_eq!(get_subvector(&vec![1, 2, 3, 4], 3, 2), Vec::<i32>::new());
}

#[test]
fn test_merge_vectors() {
    assert_eq!(merge_vectors(vec![1, 2], vec![3, 4]), vec![1, 2, 3, 4]);
}

#[test]
fn test_vec_to_string() {
    assert_eq!(vec_to_string(&vec![1, 2, 3]), "[1, 2, 3]");
    assert_eq!(vec_to_string(&vec![]), "[]");
    assert_eq!(int_to_string(-45), "-45");
    assert_eq!(int_to_string(0), "0");
}

#[test]
fn test_parse_i32() {
    assert_eq!(parse_i32("123"), Some(123));
    assert_eq!(parse_i32("-7"), Some(-7));
    assert_eq!(parse_i32("2147483647"), Some(i32::MAX));
    assert_eq!(parse_i32("-2147483648"), Some(i32::MIN));
    assert_eq!(parse_i32("2147483648"), None);
    assert_eq!(parse_i32("12x"), None);
    assert_eq!(parse_i32(""), None);
}

#[test]
fn test_parse_number_list() {
    // whitespace and commas both separate
    assert_eq!(parse_number_list("3, 1 2\n5"), Some(vec![3, 1, 2, 5]));
    // a non-numeric token aborts the whole load
    assert_eq!(parse_number_list("3 x 5"), None);
    assert_eq!(parse_number_list(""), Some(vec![]));
}
