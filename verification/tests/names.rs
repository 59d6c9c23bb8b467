use uiua_core::error::{BindingError, ElementType, Operation, RuntimeError, TypeError};
use uiua_core::import::ImportCache;
use uiua_core::machine::Machine;
use uiua_core::primitive::Primitive;
use uiua_core::names::{binds_function, fold_case, lower_case, same_chars};
use uiua_core::scope::Bindings;
use uiua_core::value::{Function, Value};

fn num(x: f64) -> Value {
    Value::number(x.to_bits())
}

fn chars(s: &str) -> Vec<char> {
    s.chars().collect()
}

#[test]
fn fold_case_lowers_ascii_letters_only() {
    assert_eq!(fold_case("FooBar"), chars("foobar"));
    assert_eq!(fold_case("a1_Z"), chars("a1_z"));
    assert_eq!(fold_case("É😀"), chars("É😀"));
    assert_eq!(fold_case(""), chars(""));
    assert_eq!(lower_case('A'), 'a');
    assert_eq!(lower_case('Z'), 'z');
    assert_eq!(lower_case('@'), '@');
    assert_eq!(lower_case('['), '[');
}

#[test]
fn same_chars_compares_element_by_element() {
    assert!(same_chars(&chars("abc"), &chars("abc")));
    assert!(!same_chars(&chars("abc"), &chars("abd")));
    assert!(!same_chars(&chars("abc"), &chars("ab")));
    assert!(same_chars(&chars(""), &chars("")));
}

#[test]
fn a_capital_or_a_glyph_binds_a_function() {
    assert!(binds_function("TimesThree"));
    assert!(binds_function("👋"));
    assert!(binds_function("Part"));
    assert!(!binds_function("foo"));
    assert!(!binds_function("numone"));
    assert!(!binds_function("9lives"));
    assert!(!binds_function(""));
}

#[test]
fn names_are_found_whatever_their_case() {
    // foo ← 5, then FOO and fOo
    let mut b = Bindings::new();
    b.bind("foo", num(5.0));
    assert_eq!(b.lookup("FOO").unwrap().value, num(5.0));
    assert_eq!(b.lookup("fOo").unwrap().value, num(5.0));
    assert_eq!(b.lookup("foo").unwrap().value, num(5.0));
    assert!(!b.lookup("foo").unwrap().function);
    assert!(b.lookup("fo").is_none());
    assert!(b.lookup("fooo").is_none());
}

#[test]
fn the_last_binding_of_a_name_wins() {
    let mut b = Bindings::new();
    b.bind("x", num(1.0));
    b.bind("X", num(2.0));
    assert_eq!(b.lookup("x").unwrap().value, num(2.0));
    assert!(b.lookup("x").unwrap().function);
    assert_eq!(b.lookup("x").unwrap().name, chars("x"));
}

#[test]
fn a_scope_hides_its_bindings_at_its_end() {
    // ---\nfoo ← 5\n---\nfoo
    let mut b = Bindings::new();
    b.bind("outer", num(1.0));
    assert!(b.begin_scope());
    assert!(b.in_scope());
    b.bind("foo", num(5.0));
    b.bind("outer", num(2.0));
    assert_eq!(b.lookup("foo").unwrap().value, num(5.0));
    assert_eq!(b.lookup("outer").unwrap().value, num(2.0));
    assert!(b.end_scope());
    assert!(!b.in_scope());
    assert!(b.lookup("foo").is_none());
    assert_eq!(b.lookup("outer").unwrap().value, num(1.0));
}

#[test]
fn scopes_do_not_nest() {
    let mut b = Bindings::new();
    assert!(!b.end_scope());
    assert!(b.begin_scope());
    b.bind("a", num(1.0));
    assert!(!b.begin_scope());
    assert!(b.lookup("a").is_some());
    assert!(b.end_scope());
    assert!(!b.end_scope());
}

#[test]
fn the_cache_hands_on_what_was_recorded_first() {
    let mut cache = ImportCache::new();
    assert_eq!(cache.lookup("test.ua"), None);
    cache.record("test.ua", vec![num(0.25), num(7.0)]);
    assert_eq!(cache.lookup("test.ua"), Some(vec![num(0.25), num(7.0)]));
    cache.record("test.ua", vec![num(0.75)]);
    assert_eq!(cache.lookup("test.ua"), Some(vec![num(0.25), num(7.0)]));
    assert_eq!(cache.lookup("other.ua"), None);
    cache.record("other.ua", vec![]);
    assert_eq!(cache.lookup("other.ua"), Some(vec![]));
    assert_eq!(cache.lookup("test.ua"), Some(vec![num(0.25), num(7.0)]));
}

/// Imports a file whose code prints a line and leaves a new number each time it runs.
fn import(m: &mut Machine, path: &str, runs: &mut u32) {
    if !m.import_known(path) {
        let mark = m.depth();
        *runs += 1;
        m.push(num(*runs as f64 / 8.0));
        m.import_done(path, mark);
    }
}

#[test]
fn a_file_imported_thrice_runs_once_and_gives_the_same_values() {
    let mut m = Machine::new();
    let mut runs = 0;
    import(&mut m, "test.ua", &mut runs);
    import(&mut m, "test.ua", &mut runs);
    import(&mut m, "test.ua", &mut runs);
    assert_eq!(runs, 1);
    assert_eq!(m.take_stack(), vec![num(0.125), num(0.125), num(0.125)]);
    import(&mut m, "other.ua", &mut runs);
    import(&mut m, "test.ua", &mut runs);
    assert_eq!(runs, 2);
    assert_eq!(m.take_stack(), vec![num(0.25), num(0.125)]);
}

#[test]
fn an_import_records_only_what_the_file_left() {
    let mut m = Machine::new();
    m.push(num(1.0));
    m.push(num(2.0));
    m.import_done("a.ua", 1);
    m.import_done("none.ua", 2);
    m.import_done("below.ua", 9);
    assert_eq!(m.depth(), 2);
    m.take_stack();
    assert!(m.import_known("a.ua"));
    assert_eq!(m.take_stack(), vec![num(2.0)]);
    assert!(m.import_known("none.ua"));
    assert!(m.import_known("below.ua"));
    assert_eq!(m.depth(), 0);
    assert!(!m.import_known("b.ua"));
}

#[test]
fn use_finds_a_function_by_name_whatever_the_case() {
    let mut m = Machine::new();
    let plus_five = m.define(Some("PlusFive"));
    let twin = m.define(Some("Twin"));
    let unnamed = m.define(None);
    assert_eq!((plus_five.id, twin.id, unnamed.id), (0, 1, 2));
    let module = || Value::Func(uiua_core::array::Array::list(vec![unnamed, plus_five, twin]));
    m.push(module());
    m.push(Value::string("twin"));
    assert_eq!(m.use_function(), Ok(()));
    assert_eq!(m.take_stack(), vec![Value::function(twin)]);
    m.push(module());
    m.push(Value::string("PLUSFIVE"));
    assert_eq!(m.use_function(), Ok(()));
    assert_eq!(m.take_stack(), vec![Value::function(plus_five)]);
}

#[test]
fn use_fails_on_an_unknown_name_and_leaves_the_stack() {
    let mut m = Machine::new();
    let twin = m.define(Some("Twin"));
    m.push(Value::function(twin));
    m.push(Value::string("Triple"));
    assert_eq!(
        m.use_function(),
        Err(RuntimeError::Binding(BindingError::UnknownName("Triple".to_string())))
    );
    assert_eq!(m.depth(), 2);
    m.take_stack();
    m.push(Value::function(Function { id: 99 }));
    m.push(Value::string("twin"));
    assert!(matches!(
        m.use_function(),
        Err(RuntimeError::Binding(BindingError::UnknownName(_)))
    ));
}

#[test]
fn use_needs_a_string_and_functions() {
    let mut m = Machine::new();
    m.push(num(1.0));
    m.push(Value::string("twin"));
    assert_eq!(
        m.use_function(),
        Err(RuntimeError::Type(TypeError::Type {
            left: ElementType::Character,
            right: ElementType::Number
        }, Operation::Builtin(Primitive::Use)))
    );
    assert_eq!(m.depth(), 2);
    m.take_stack();
    m.push(Value::string("twin"));
    assert_eq!(m.use_function(), Err(RuntimeError::StackUnderflow(Operation::Builtin(Primitive::Use))));
}

#[test]
fn definitions_without_a_right_side_take_what_a_scope_left_in_order() {
    // ---\na ← 3\nb ← 5\n+ a b\n× a b\n---\nc ←\nd ←
    let mut m = Machine::new();
    m.push(num(100.0));
    assert!(m.toggle_scope());
    m.push(num(3.0));
    m.bind_top("a").unwrap();
    m.push(num(5.0));
    m.bind_top("b").unwrap();
    m.push(num(8.0));
    m.push(num(15.0));
    assert!(m.toggle_scope());
    assert!(m.bindings.lookup("a").is_none());
    m.bind_leftover("c").unwrap();
    m.bind_leftover("d").unwrap();
    assert_eq!(m.bindings.lookup("c").unwrap().value, num(8.0));
    assert_eq!(m.bindings.lookup("d").unwrap().value, num(15.0));
    assert_eq!(m.bind_leftover("e"), Err(RuntimeError::StackUnderflow(Operation::Bind)));
    assert_eq!(m.take_stack(), vec![num(100.0)]);
}

#[test]
fn bind_top_takes_the_top() {
    let mut m = Machine::new();
    assert_eq!(m.bind_top("x"), Err(RuntimeError::StackUnderflow(Operation::Bind)));
    m.push(num(1.0));
    m.push(num(2.0));
    assert_eq!(m.bind_top("x"), Ok(()));
    assert_eq!(m.bindings.lookup("X").unwrap().value, num(2.0));
    assert_eq!(m.depth(), 1);
}

#[test]
fn a_scope_cannot_begin_inside_a_dfn() {
    let mut m = Machine::new();
    m.enter_dfn(None, 0).unwrap();
    assert!(!m.toggle_scope());
    assert!(!m.bindings.in_scope());
    m.leave_dfn();
    assert!(m.toggle_scope());
    assert!(m.bindings.in_scope());
}
