use uiua_core::array::{pervade, Array};
use uiua_core::error::TypeError;

fn grid() -> Array<i64> {
    Array::new(vec![2, 3], vec![3, 4, 5, 6, 7, 8]).unwrap()
}

#[test]
fn new_checks_the_number_of_elements() {
    assert!(Array::new(vec![2, 3], vec![1, 2, 3, 4, 5, 6]).is_some());
    assert!(Array::new(vec![2, 3], vec![1, 2, 3, 4, 5]).is_none());
    assert!(Array::new(vec![], vec![1]).is_some());
    assert!(Array::<u8>::new(vec![], vec![]).is_none());
    assert!(Array::<u8>::new(vec![0, 5], vec![]).is_some());
}

#[test]
fn scalar_has_no_axes() {
    let a = Array::scalar(7u64);
    assert_eq!(a.shape(), &Vec::<usize>::new());
    assert_eq!(a.data(), &vec![7u64]);
    assert_eq!(a.rank(), 0);
    assert_eq!(a.length(), 1);
}

#[test]
fn list_has_one_axis() {
    let a = Array::list(vec!['a', 'b', 'c']);
    assert_eq!(a.shape(), &vec![3usize]);
    assert_eq!(a.rank(), 1);
    assert_eq!(a.length(), 3);
    let empty = Array::<char>::list(vec![]);
    assert_eq!(empty.shape(), &vec![0usize]);
    assert_eq!(empty.length(), 0);
}

#[test]
fn rank_is_the_length_of_the_shape() {
    for a in [Array::scalar(1i64), Array::list(vec![1, 2, 3]), grid()] {
        let shape = a.shape_list();
        assert_eq!(a.rank(), shape.length());
        assert_eq!(shape.data(), a.shape());
    }
}

#[test]
fn into_parts_gives_shape_and_elements() {
    let (shape, data) = grid().into_parts();
    assert_eq!(shape, vec![2, 3]);
    assert_eq!(data, vec![3, 4, 5, 6, 7, 8]);
}

#[test]
fn copy_is_equal() {
    assert_eq!(grid().copy(), grid());
}

#[test]
fn couple_makes_two_rows() {
    let a = Array::list(vec![1, 2, 3]);
    let b = Array::list(vec![4, 5, 6]);
    let c = Array::couple(&a, &b).unwrap();
    assert_eq!(c.shape(), &vec![2usize, 3]);
    assert_eq!(c.data(), &vec![1, 2, 3, 4, 5, 6]);
    let s = Array::couple(&Array::scalar(1), &Array::scalar(2)).unwrap();
    assert_eq!(s, Array::list(vec![1, 2]));
}

#[test]
fn couple_rejects_different_shapes() {
    let a = Array::list(vec![1, 2, 3]);
    let b = Array::list(vec![4, 5]);
    assert_eq!(
        Array::couple(&a, &b),
        Err(TypeError::Shape { left: vec![3], right: vec![2] })
    );
}

#[test]
fn join_appends_rows() {
    let a = Array::list(vec![1, 2]);
    let b = Array::scalar(3);
    assert_eq!(Array::join(&a, &b).unwrap(), Array::list(vec![1, 2, 3]));
    assert_eq!(Array::join(&b, &a).unwrap(), Array::list(vec![3, 1, 2]));
    assert_eq!(Array::join(&a, &a).unwrap(), Array::list(vec![1, 2, 1, 2]));
    assert_eq!(Array::join(&b, &b).unwrap(), Array::list(vec![3, 3]));
    let row = Array::list(vec![9, 9, 9]);
    let joined = Array::join(&grid(), &row).unwrap();
    assert_eq!(joined.shape(), &vec![3usize, 3]);
    assert_eq!(joined.data(), &vec![3, 4, 5, 6, 7, 8, 9, 9, 9]);
    let both = Array::join(&grid(), &grid()).unwrap();
    assert_eq!(both.shape(), &vec![4usize, 3]);
}

#[test]
fn join_rejects_rows_of_different_shape() {
    let row = Array::list(vec![9, 9]);
    assert_eq!(
        Array::join(&grid(), &row),
        Err(TypeError::Shape { left: vec![2, 3], right: vec![2] })
    );
    let cube = Array::new(vec![1, 1, 1], vec![0]).unwrap();
    assert_eq!(
        Array::join(&cube, &Array::scalar(1)),
        Err(TypeError::Shape { left: vec![1, 1, 1], right: vec![] })
    );
}

#[test]
fn join_reports_too_many_rows() {
    let a = Array::<u8>::new(vec![usize::MAX, 0], vec![]).unwrap();
    let b = Array::<u8>::new(vec![1, 0], vec![]).unwrap();
    assert_eq!(Array::join(&a, &b), Err(TypeError::TooLarge));
}

#[test]
fn pervade_on_equal_shapes_pairs_elements() {
    let a = Array::list(vec![1, 2, 3]);
    let b = Array::list(vec![4, 5, 6]);
    let c = pervade(&a, &b, |x, y| x + y).unwrap();
    assert_eq!(c, Array::list(vec![5, 7, 9]));
}

#[test]
fn pervade_spreads_a_scalar() {
    let c = pervade(&Array::scalar(1), &Array::list(vec![1, 2, 3]), |x, y| x + y).unwrap();
    assert_eq!(c, Array::list(vec![2, 3, 4]));
    let d = pervade(&Array::list(vec![1, 2, 3]), &Array::scalar(1), |x, y| x - y).unwrap();
    assert_eq!(d, Array::list(vec![0, 1, 2]));
}

#[test]
fn pervade_spreads_each_element_along_the_remaining_axes() {
    let tens = Array::list(vec![10, 20]);
    let c = pervade(&tens, &grid(), |x, y| x + y).unwrap();
    assert_eq!(c.shape(), &vec![2usize, 3]);
    assert_eq!(c.data(), &vec![13, 14, 15, 26, 27, 28]);
    let d = pervade(&grid(), &tens, |x, y| x - y).unwrap();
    assert_eq!(d.data(), &vec![-7, -6, -5, -14, -13, -12]);
}

#[test]
fn pervade_keeps_the_order_of_the_operands() {
    let a = Array::scalar(2);
    let b = Array::scalar(5);
    assert_eq!(pervade(&a, &b, |x, y| y - x).unwrap(), Array::scalar(3));
    assert_eq!(pervade(&b, &a, |x, y| y - x).unwrap(), Array::scalar(-3));
}

#[test]
fn pervade_rejects_shapes_that_do_not_fit() {
    let a = Array::list(vec![1, 2]);
    let b = Array::list(vec![3, 4, 5]);
    assert_eq!(
        pervade(&a, &b, |x, y| x + y),
        Err(TypeError::Shape { left: vec![2], right: vec![3] })
    );
}

#[test]
fn pervade_on_empty_arrays_is_empty() {
    let a = Array::<i64>::list(vec![]);
    let b = Array::<i64>::new(vec![0, 3], vec![]).unwrap();
    let c = pervade(&a, &b, |x, y| x + y).unwrap();
    assert_eq!(c.shape(), &vec![0usize, 3]);
    assert!(c.data().is_empty());
}

#[test]
fn row_takes_one_row_out() {
    assert_eq!(grid().row(0), Some(Array::list(vec![3, 4, 5])));
    assert_eq!(grid().row(1), Some(Array::list(vec![6, 7, 8])));
    assert_eq!(grid().row(2), None);
    assert_eq!(Array::list(vec![1, 2]).row(1), Some(Array::scalar(2)));
    assert_eq!(Array::scalar(1).row(0), None);
    let wide = Array::<u8>::new(vec![2, 0], vec![]).unwrap();
    assert_eq!(wide.row(1), Some(Array::list(vec![])));
}

#[test]
fn reverse_turns_the_rows_around() {
    let r = grid().reverse();
    assert_eq!(r.shape(), &vec![2usize, 3]);
    assert_eq!(r.data(), &vec![6, 7, 8, 3, 4, 5]);
    assert_eq!(grid().reverse().reverse(), grid());
    assert_eq!(Array::scalar(1).reverse(), Array::scalar(1));
    assert_eq!(Array::list(vec![1, 2, 3]).reverse(), Array::list(vec![3, 2, 1]));
    assert_eq!(Array::<u8>::list(vec![]).reverse(), Array::list(vec![]));
}

#[test]
fn into_row_adds_an_axis() {
    let r = grid().into_row();
    assert_eq!(r.shape(), &vec![1usize, 2, 3]);
    assert_eq!(r.data(), grid().data());
}
