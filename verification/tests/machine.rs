use uiua_core::dfn::dfn_arity;
use uiua_core::error::{BindingError, ElementType, Operation, RuntimeError, TypeError};
use uiua_core::primitive::Primitive;
use uiua_core::machine::Machine;
use uiua_core::value::{Function, Value};

fn num(x: f64) -> Value {
    Value::number(x.to_bits())
}

fn nums(xs: &[f64]) -> Value {
    Value::numbers(xs.iter().map(|x| x.to_bits()).collect())
}

#[test]
fn a_new_machine_is_empty() {
    let mut m = Machine::new();
    assert_eq!(m.depth(), 0);
    assert!(m.take_stack().is_empty());
    assert!(!m.bindings.in_scope());
}

#[test]
fn a_new_machine_begins_a_run() {
    let m = Machine::new();
    assert!(m.bindings.lookup("x").is_none());
    assert!(m.imports.lookup("main.ua").is_none());
    assert_eq!(m.scope_base, 0);
    assert!(m.frames.is_empty());
    assert_eq!(m.next_frame, 0);
    assert!(m.functions.is_empty());
    assert_eq!(m.fills.number, 0.0f64.to_bits());
    assert_eq!(m.fills.character, ' ');
}

#[test]
fn push_and_pop_work_at_the_top() {
    let mut m = Machine::new();
    m.push(num(1.0));
    m.push(num(2.0));
    assert_eq!(m.depth(), 2);
    assert_eq!(m.pop(), Ok(num(2.0)));
    assert_eq!(m.pop(), Ok(num(1.0)));
    assert_eq!(m.depth(), 0);
}

#[test]
fn pop_from_the_empty_stack_underflows() {
    let mut m = Machine::new();
    assert_eq!(m.pop(), Err(RuntimeError::StackUnderflow(Operation::Take)));
    assert_eq!(m.depth(), 0);
}

#[test]
fn take_stack_hands_out_bottom_first() {
    let mut m = Machine::new();
    m.push(num(3.0));
    m.push(num(2.0));
    m.push(num(1.0));
    assert_eq!(m.take_stack(), vec![num(3.0), num(2.0), num(1.0)]);
    assert_eq!(m.depth(), 0);
}

#[test]
fn dup_copies_the_top() {
    let mut m = Machine::new();
    assert_eq!(m.dup(), Err(RuntimeError::StackUnderflow(Operation::Builtin(Primitive::Dup))));
    m.push(num(5.0));
    assert_eq!(m.dup(), Ok(()));
    assert_eq!(m.take_stack(), vec![num(5.0), num(5.0)]);
}

#[test]
fn flip_swaps_the_top_two() {
    let mut m = Machine::new();
    m.push(num(1.0));
    assert_eq!(m.flip(), Err(RuntimeError::StackUnderflow(Operation::Builtin(Primitive::Flip))));
    assert_eq!(m.depth(), 1);
    m.push(num(2.0));
    assert_eq!(m.flip(), Ok(()));
    assert_eq!(m.take_stack(), vec![num(2.0), num(1.0)]);
}

#[test]
fn brackets_make_a_list_of_what_was_pushed() {
    // [1 2 3]
    let mut m = Machine::new();
    let mark = m.depth();
    m.push(num(3.0));
    m.push(num(2.0));
    m.push(num(1.0));
    assert_eq!(m.collect(mark), Ok(()));
    let array = m.pop().unwrap();
    assert_eq!(array, nums(&[1.0, 2.0, 3.0]));
    assert_eq!(array.shape(), &vec![3usize]);
    assert_eq!(array.rank(), 1);
    assert_eq!(array.length(), 3);
    assert_eq!(m.depth(), 0);
}

#[test]
fn brackets_leave_what_was_below() {
    let mut m = Machine::new();
    m.push(num(9.0));
    let mark = m.depth();
    m.push(num(2.0));
    m.push(num(1.0));
    assert_eq!(m.collect(mark), Ok(()));
    assert_eq!(m.take_stack(), vec![num(9.0), nums(&[1.0, 2.0])]);
}

#[test]
fn brackets_around_lists_make_rows() {
    // [1_2_3 4_5_6]
    let mut m = Machine::new();
    let mark = m.depth();
    m.push(nums(&[4.0, 5.0, 6.0]));
    m.push(nums(&[1.0, 2.0, 3.0]));
    assert_eq!(m.collect(mark), Ok(()));
    let array = m.pop().unwrap();
    assert_eq!(array.shape(), &vec![2usize, 3]);
    // [...[1 2 3]] has four rows
    let mut d = Machine::new();
    let mark = d.depth();
    d.push(nums(&[1.0, 2.0, 3.0]));
    assert_eq!(d.dup(), Ok(()));
    assert_eq!(d.dup(), Ok(()));
    assert_eq!(d.dup(), Ok(()));
    assert_eq!(d.collect(mark), Ok(()));
    assert_eq!(d.pop().unwrap().shape(), &vec![4usize, 3]);
}

#[test]
fn brackets_around_nothing_make_an_empty_list() {
    let mut m = Machine::new();
    m.push(num(1.0));
    assert_eq!(m.collect(1), Ok(()));
    assert_eq!(m.take_stack(), vec![num(1.0), nums(&[])]);
    let mut below = Machine::new();
    below.push(num(1.0));
    assert_eq!(below.collect(5), Ok(()));
    assert_eq!(below.take_stack(), vec![num(1.0), nums(&[])]);
}

#[test]
fn brackets_around_one_value_make_one_row() {
    let mut m = Machine::new();
    m.push(num(5.0));
    assert_eq!(m.collect(0), Ok(()));
    assert_eq!(m.take_stack(), vec![nums(&[5.0])]);
}

#[test]
fn brackets_around_values_that_do_not_go_together_fail() {
    let mut m = Machine::new();
    m.push(Value::string("dog"));
    m.push(nums(&[1.0, 2.0, 3.0]));
    assert!(matches!(m.collect(0), Err(RuntimeError::Type(..))));
    assert_eq!(m.depth(), 2);
    let mut later = Machine::new();
    later.push(Value::character('x'));
    later.push(num(2.0));
    later.push(num(1.0));
    assert!(matches!(later.collect(0), Err(RuntimeError::Type(..))));
    assert_eq!(later.depth(), 3);
}

#[test]
fn couple_and_join_take_the_top_first() {
    let mut m = Machine::new();
    m.push(num(3.0));
    m.push(nums(&[1.0, 2.0]));
    assert_eq!(m.join(), Ok(()));
    assert_eq!(m.take_stack(), vec![nums(&[1.0, 2.0, 3.0])]);
    let mut c = Machine::new();
    c.push(Value::string("World"));
    c.push(Value::string("Hello"));
    assert_eq!(c.couple(), Ok(()));
    assert_eq!(c.pop().unwrap().shape(), &vec![2usize, 5]);
    let mut t = Machine::new();
    t.push(Value::string("dog"));
    t.push(nums(&[1.0, 2.0, 3.0]));
    assert_eq!(
        t.couple(),
        Err(RuntimeError::Type(TypeError::Type {
            left: ElementType::Number,
            right: ElementType::Character
        }, Operation::Builtin(Primitive::Couple)))
    );
    assert_eq!(t.depth(), 2);
    let mut u = Machine::new();
    assert_eq!(u.couple(), Err(RuntimeError::StackUnderflow(Operation::Builtin(Primitive::Couple))));
    assert_eq!(u.join(), Err(RuntimeError::StackUnderflow(Operation::Builtin(Primitive::Join))));
}

#[test]
fn a_dfn_takes_its_arguments_from_the_top() {
    // [{b a} 1 2]
    let mut m = Machine::new();
    let mark = m.depth();
    m.push(num(2.0));
    m.push(num(1.0));
    let call = m.enter_dfn(None, dfn_arity("b a")).unwrap();
    m.push(m.argument(call, 'a').unwrap());
    m.push(m.argument(call, 'b').unwrap());
    m.leave_dfn();
    assert_eq!(m.collect(mark), Ok(()));
    assert_eq!(m.take_stack(), vec![nums(&[2.0, 1.0])]);
}

#[test]
fn a_dfn_with_too_few_arguments_underflows() {
    let mut m = Machine::new();
    m.push(num(1.0));
    assert_eq!(m.enter_dfn(None, 2), Err(RuntimeError::StackUnderflow(Operation::Call)));
    assert_eq!(m.depth(), 1);
    assert_eq!(m.current_call(), None);
}

#[test]
fn an_argument_is_gone_when_its_dfn_has_returned() {
    // :{(a)}5
    let mut m = Machine::new();
    m.push(num(5.0));
    let call = m.enter_dfn(None, 1).unwrap();
    assert_eq!(m.argument(call, 'a'), Ok(num(5.0)));
    m.leave_dfn();
    assert_eq!(
        m.argument(call, 'a'),
        Err(RuntimeError::Binding(BindingError::ArgumentOutOfScope('a')))
    );
    // not even a later call brings it back
    m.push(num(6.0));
    let later = m.enter_dfn(None, 1).unwrap();
    assert_ne!(later, call);
    assert_eq!(
        m.argument(call, 'a'),
        Err(RuntimeError::Binding(BindingError::ArgumentOutOfScope('a')))
    );
    assert_eq!(m.argument(later, 'a'), Ok(num(6.0)));
}

#[test]
fn a_dfn_has_only_the_arguments_it_took() {
    let mut m = Machine::new();
    m.push(num(5.0));
    let call = m.enter_dfn(None, 1).unwrap();
    for letter in ['b', 'z', 'A', '1', 'é'] {
        assert_eq!(
            m.argument(call, letter),
            Err(RuntimeError::Binding(BindingError::ArgumentOutOfScope(letter)))
        );
    }
}

#[test]
fn calls_nest_and_recursion_means_the_innermost() {
    let mut m = Machine::new();
    assert_eq!(m.recur_target(), None);
    m.push(num(1.0));
    let outer = m.enter_dfn(Some(Function { id: 7 }), 1).unwrap();
    m.push(num(2.0));
    let inner = m.enter_dfn(Some(Function { id: 8 }), 1).unwrap();
    assert_eq!(m.current_call(), Some(inner));
    assert_eq!(m.recur_target(), Some(Function { id: 8 }));
    assert_eq!(m.argument(outer, 'a'), Ok(num(1.0)));
    assert_eq!(m.argument(inner, 'a'), Ok(num(2.0)));
    m.leave_dfn();
    assert_eq!(m.current_call(), Some(outer));
    assert_eq!(m.recur_target(), Some(Function { id: 7 }));
    m.leave_dfn();
    m.leave_dfn();
    assert_eq!(m.current_call(), None);
}

#[test]
fn the_machine_runs_out_of_call_numbers() {
    let mut m = Machine::new();
    m.next_frame = u64::MAX;
    assert_eq!(m.enter_dfn(None, 0), Err(RuntimeError::Exhausted));
}
