use uiua_core::shape::{element_count, length, pervasive_shape, rank, starts};

#[test]
fn rank_counts_axes() {
    assert_eq!(rank(&vec![]), 0);
    assert_eq!(rank(&vec![3]), 1);
    assert_eq!(rank(&vec![2, 3, 4]), 3);
}

#[test]
fn length_is_first_axis_or_one() {
    assert_eq!(length(&vec![]), 1);
    assert_eq!(length(&vec![3]), 3);
    assert_eq!(length(&vec![2, 3]), 2);
    assert_eq!(length(&vec![0, 7]), 0);
}

#[test]
fn element_count_is_the_product() {
    assert_eq!(element_count(&vec![]), Some(1));
    assert_eq!(element_count(&vec![3]), Some(3));
    assert_eq!(element_count(&vec![2, 3, 4]), Some(24));
    assert_eq!(element_count(&vec![5, 0, 4]), Some(0));
}

#[test]
fn element_count_reports_overflow() {
    assert_eq!(element_count(&vec![usize::MAX, 2]), None);
    assert_eq!(element_count(&vec![usize::MAX, 1]), Some(usize::MAX));
}

#[test]
fn element_count_with_empty_axis_never_overflows() {
    assert_eq!(element_count(&vec![usize::MAX, usize::MAX, 0]), Some(0));
}

#[test]
fn starts_tests_prefixes() {
    assert!(starts(&vec![], &vec![2, 3]));
    assert!(starts(&vec![2], &vec![2, 3]));
    assert!(starts(&vec![2, 3], &vec![2, 3]));
    assert!(!starts(&vec![3], &vec![2, 3]));
    assert!(!starts(&vec![2, 3, 4], &vec![2, 3]));
}

#[test]
fn pervasive_shape_is_the_longer_shape() {
    assert_eq!(pervasive_shape(&vec![2], &vec![2, 3]), Some(vec![2, 3]));
    assert_eq!(pervasive_shape(&vec![2, 3], &vec![2]), Some(vec![2, 3]));
    assert_eq!(pervasive_shape(&vec![], &vec![4]), Some(vec![4]));
    assert_eq!(pervasive_shape(&vec![4], &vec![4]), Some(vec![4]));
}

#[test]
fn pervasive_shape_rejects_shapes_that_do_not_fit() {
    assert_eq!(pervasive_shape(&vec![2], &vec![3]), None);
    assert_eq!(pervasive_shape(&vec![2, 3], &vec![2, 4]), None);
    assert_eq!(pervasive_shape(&vec![3], &vec![2, 3]), None);
}

#[test]
fn pervasive_shape_does_not_depend_on_the_order() {
    let shapes: Vec<Vec<usize>> = vec![vec![], vec![2], vec![2, 3], vec![3], vec![2, 3, 4]];
    for a in &shapes {
        for b in &shapes {
            assert_eq!(pervasive_shape(a, b), pervasive_shape(b, a));
        }
    }
}
