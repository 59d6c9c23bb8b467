use uiua_core::array::Array;
use uiua_core::error::{ElementType, TypeError};
use uiua_core::fill::{couple_filled, join_filled, pad};
use uiua_core::machine::Machine;
use uiua_core::value::{Fills, Function, Value};

fn grid() -> Array<i64> {
    Array::new(vec![2, 3], vec![1, 2, 3, 4, 5, 6]).unwrap()
}

#[test]
fn pad_keeps_every_element_at_its_place() {
    let wide = pad(&grid(), &vec![2, 4], 0).unwrap();
    assert_eq!(wide.shape(), &vec![2usize, 4]);
    assert_eq!(wide.data(), &vec![1, 2, 3, 0, 4, 5, 6, 0]);
    let tall = pad(&grid(), &vec![3, 3], 9).unwrap();
    assert_eq!(tall.data(), &vec![1, 2, 3, 4, 5, 6, 9, 9, 9]);
    let both = pad(&grid(), &vec![3, 4], 0).unwrap();
    assert_eq!(both.data(), &vec![1, 2, 3, 0, 4, 5, 6, 0, 0, 0, 0, 0]);
}

#[test]
fn pad_to_the_own_shape_changes_nothing() {
    assert_eq!(pad(&grid(), &vec![2, 3], 0), Some(grid()));
    assert_eq!(pad(&Array::scalar(5), &vec![], 0), Some(Array::scalar(5)));
}

#[test]
fn pad_to_a_smaller_shape_drops_what_has_no_place() {
    let small = pad(&grid(), &vec![1, 2], 0).unwrap();
    assert_eq!(small.data(), &vec![1, 2]);
    let none = pad(&grid(), &vec![0, 3], 0).unwrap();
    assert!(none.data().is_empty());
    let mixed = pad(&grid(), &vec![3, 1], 7).unwrap();
    assert_eq!(mixed.data(), &vec![1, 4, 7]);
}

#[test]
fn pad_works_along_three_axes() {
    let cube = Array::new(vec![2, 1, 2], vec![1, 2, 3, 4]).unwrap();
    let padded = pad(&cube, &vec![2, 2, 3], 0).unwrap();
    assert_eq!(padded.data(), &vec![1, 2, 0, 0, 0, 0, 3, 4, 0, 0, 0, 0]);
}

#[test]
fn pad_needs_as_many_axes_and_a_size_that_can_be_counted() {
    assert_eq!(pad(&grid(), &vec![6], 0), None);
    assert_eq!(pad(&grid(), &vec![2, 3, 1], 0), None);
    assert_eq!(pad(&grid(), &vec![usize::MAX, 2], 0), None);
    let empty = Array::<i64>::new(vec![0, 2], vec![]).unwrap();
    assert_eq!(pad(&empty, &vec![usize::MAX, 0], 0).unwrap().shape(), &vec![usize::MAX, 0]);
}

#[test]
fn joining_rows_of_one_shape_needs_no_fill() {
    let a = Array::list(vec![1, 2]);
    let b = Array::scalar(3);
    assert_eq!(join_filled(&a, &b, 0), Array::join(&a, &b));
    assert_eq!(join_filled(&b, &a, 0), Array::join(&b, &a));
    assert_eq!(join_filled(&b, &b, 0), Array::join(&b, &b));
    assert_eq!(join_filled(&grid(), &grid(), 0), Array::join(&grid(), &grid()));
    assert_eq!(join_filled(&a, &a, 0), Ok(Array::list(vec![1, 2, 1, 2])));
}

#[test]
fn joining_rows_of_different_shapes_fills_the_smaller() {
    let short = Array::list(vec![9, 9]);
    let joined = join_filled(&grid(), &short, 0).unwrap();
    assert_eq!(joined.shape(), &vec![3usize, 3]);
    assert_eq!(joined.data(), &vec![1, 2, 3, 4, 5, 6, 9, 9, 0]);
    let long = Array::list(vec![9, 9, 9, 9]);
    let joined = join_filled(&grid(), &long, 0).unwrap();
    assert_eq!(joined.shape(), &vec![3usize, 4]);
    assert_eq!(joined.data(), &vec![1, 2, 3, 0, 4, 5, 6, 0, 9, 9, 9, 9]);
    let narrow = Array::new(vec![1, 2], vec![7, 8]).unwrap();
    let joined = join_filled(&narrow, &grid(), -1).unwrap();
    assert_eq!(joined.shape(), &vec![3usize, 3]);
    assert_eq!(joined.data(), &vec![7, 8, -1, 1, 2, 3, 4, 5, 6]);
}

#[test]
fn joining_needs_close_ranks() {
    let cube = Array::new(vec![1, 1, 1], vec![0]).unwrap();
    assert_eq!(
        join_filled(&cube, &Array::scalar(1), 0),
        Err(TypeError::Shape { left: vec![1, 1, 1], right: vec![] })
    );
    let a = Array::<u8>::new(vec![usize::MAX, 0], vec![]).unwrap();
    let b = Array::<u8>::new(vec![1, 0], vec![]).unwrap();
    assert_eq!(join_filled(&a, &b, 0), Err(TypeError::TooLarge));
}

#[test]
fn coupling_with_fill_makes_two_rows_of_the_larger_shape() {
    let a = Array::list(vec![1, 2]);
    let b = Array::list(vec![3, 4, 5]);
    let c = couple_filled(&a, &b, 0).unwrap();
    assert_eq!(c.shape(), &vec![2usize, 3]);
    assert_eq!(c.data(), &vec![1, 2, 0, 3, 4, 5]);
    assert_eq!(couple_filled(&b, &b, 0), Array::couple(&b, &b));
    assert_eq!(
        couple_filled(&a, &grid(), 0),
        Err(TypeError::Shape { left: vec![2], right: vec![2, 3] })
    );
    let tall = Array::new(vec![3, 1], vec![7, 8, 9]).unwrap();
    let c = couple_filled(&grid(), &tall, 0).unwrap();
    assert_eq!(c.shape(), &vec![2usize, 3, 3]);
    assert_eq!(c.data(), &vec![1, 2, 3, 4, 5, 6, 0, 0, 0, 7, 0, 0, 8, 0, 0, 9, 0, 0]);
}

#[test]
fn values_are_filled_by_their_type() {
    let fills = Fills { number: 7, character: '.' };
    let numbers = Value::join(&Value::numbers(vec![1, 2]), &Value::Num(Array::new(vec![1, 3], vec![3, 4, 5]).unwrap()), fills);
    assert_eq!(numbers, Ok(Value::Num(Array::new(vec![2, 3], vec![1, 2, 7, 3, 4, 5]).unwrap())));
    let text = Value::couple_rows(&Value::string("ab"), &Value::string("cde"), fills).unwrap();
    assert_eq!(text, Value::Char(Array::new(vec![2, 3], "ab.cde".chars().collect()).unwrap()));
    let f = Function { id: 0 };
    let one = Value::Func(Array::list(vec![f]));
    let two = Value::Func(Array::list(vec![f, f]));
    assert!(matches!(Value::couple_rows(&one, &two, fills), Err(TypeError::Shape { .. })));
    assert!(Value::couple_rows(&one, &one, fills).is_ok());
    assert_eq!(
        Value::couple_rows(&one, &Value::string("a"), fills),
        Err(TypeError::Type { left: ElementType::Function, right: ElementType::Character })
    );
}

#[test]
fn the_machine_fills_with_zero_and_space() {
    let mut m = Machine::new();
    assert_eq!(m.fills, Fills { number: 0, character: ' ' });
    m.push(Value::string("cde"));
    m.push(Value::string("ab"));
    assert_eq!(m.collect(0), Ok(()));
    assert_eq!(
        m.pop(),
        Ok(Value::Char(Array::new(vec![2, 3], "ab cde".chars().collect()).unwrap()))
    );
    m.fills.number = 1.5f64.to_bits();
    m.push(Value::numbers(vec![1, 2, 3]));
    m.push(Value::numbers(vec![4]));
    assert_eq!(m.join(), Ok(()));
    assert_eq!(m.pop(), Ok(Value::numbers(vec![4, 1, 2, 3])));
    m.push(Value::numbers(vec![1, 2, 3]));
    m.push(Value::numbers(vec![4]));
    m.push(Value::numbers(vec![5, 6]));
    assert_eq!(m.collect(0), Ok(()));
    let bits = 1.5f64.to_bits();
    assert_eq!(
        m.pop(),
        Ok(Value::Num(Array::new(vec![3, 3], vec![5, 6, bits, 4, bits, bits, 1, 2, 3]).unwrap()))
    );
}
