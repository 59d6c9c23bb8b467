use uiua_core::error::{ElementType, Operation, RuntimeError, TypeError};
use uiua_core::primitive::Primitive;
use uiua_core::value::{Fills, Function, Value};

const FILLS: Fills = Fills { number: 0, character: ' ' };

fn n(x: f64) -> u64 {
    x.to_bits()
}

fn numbers(xs: &[f64]) -> Value {
    Value::numbers(xs.iter().map(|x| x.to_bits()).collect())
}

#[test]
fn constructors_set_type_and_shape() {
    assert_eq!(Value::number(n(5.0)).element_type(), ElementType::Number);
    assert_eq!(Value::character('a').element_type(), ElementType::Character);
    assert_eq!(Value::function(Function { id: 0 }).element_type(), ElementType::Function);
    assert_eq!(Value::number(n(5.0)).rank(), 0);
    assert_eq!(Value::number(n(5.0)).length(), 1);
    let s = Value::string("Hello, World!");
    assert_eq!(s.element_type(), ElementType::Character);
    assert_eq!(s.shape(), &vec![13usize]);
    assert_eq!(s.rank(), 1);
    assert_eq!(s.length(), 13);
}

#[test]
fn string_counts_characters_not_bytes() {
    assert_eq!(Value::string("×÷").shape(), &vec![2usize]);
}

#[test]
fn copy_equals_its_source() {
    let v = numbers(&[1.0, 2.0]);
    assert_eq!(v.copy(), v);
}

#[test]
fn couple_of_strings() {
    let c = Value::couple(&Value::string("Hello"), &Value::string("World")).unwrap();
    assert_eq!(c.shape(), &vec![2usize, 5]);
    assert_eq!(c.element_type(), ElementType::Character);
}

#[test]
fn couple_needs_one_type() {
    let r = Value::couple(&numbers(&[1.0, 2.0, 3.0]), &Value::string("dog"));
    assert_eq!(
        r,
        Err(TypeError::Type { left: ElementType::Number, right: ElementType::Character })
    );
}

#[test]
fn couple_needs_one_shape() {
    let r = Value::couple(&numbers(&[1.0, 2.0]), &numbers(&[1.0]));
    assert_eq!(r, Err(TypeError::Shape { left: vec![2], right: vec![1] }));
}

#[test]
fn join_list_and_scalar() {
    let r = Value::join(&numbers(&[1.0, 2.0]), &Value::number(n(3.0)), FILLS).unwrap();
    assert_eq!(r, numbers(&[1.0, 2.0, 3.0]));
}

#[test]
fn join_needs_one_type() {
    let r = Value::join(&numbers(&[1.0, 2.0]), &Value::character('a'), FILLS);
    assert_eq!(
        r,
        Err(TypeError::Type { left: ElementType::Number, right: ElementType::Character })
    );
}

#[test]
fn only_stack_underflow_ends_a_run() {
    assert!(!RuntimeError::StackUnderflow(Operation::Take).is_recoverable());
    assert!(RuntimeError::Type(TypeError::NotWhole, Operation::Builtin(Primitive::Add)).is_recoverable());
    assert!(RuntimeError::Exhausted.is_recoverable());
}
