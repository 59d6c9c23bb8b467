use uiua_core::cli::RunMode;
use uiua_core::code::Code;
use uiua_core::error::{BindingError, Operation, RuntimeError, TypeError};
use uiua_core::format::FormatError;
use uiua_core::interpreter::{Action, Event, Interpreter, SourceFile};
use uiua_core::primitive::{IoOp, Primitive};
use uiua_core::token::{tokenize, Bracket, Kind, Token};
use uiua_core::value::Value;

fn number(text: &str) -> f64 {
    let (sign, rest) = match text.strip_prefix('¯') {
        Some(rest) => (-1.0, rest),
        None => (1.0, text),
    };
    sign * match rest {
        "π" => std::f64::consts::PI,
        "∞" => f64::INFINITY,
        digits => digits.parse::<f64>().unwrap(),
    }
}

fn monadic(p: Primitive, x: f64) -> f64 {
    match p {
        Primitive::Neg => -x,
        Primitive::Abs => x.abs(),
        Primitive::Sqrt => x.sqrt(),
        Primitive::Sign => {
            if x == 0.0 {
                0.0
            } else {
                x.signum()
            }
        }
        Primitive::Floor => x.floor(),
        Primitive::Ceil => x.ceil(),
        Primitive::Round => x.round(),
        other => panic!("not monadic: {:?}", other),
    }
}

fn truth(b: bool) -> f64 {
    if b {
        1.0
    } else {
        0.0
    }
}

/// `a` comes from the top of the stack, `b` from below it.
fn dyadic(p: Primitive, a: f64, b: f64) -> f64 {
    match p {
        Primitive::Add => b + a,
        Primitive::Sub => b - a,
        Primitive::Mul => b * a,
        Primitive::Div => b / a,
        Primitive::Mod => b.rem_euclid(a),
        Primitive::Pow => b.powf(a),
        Primitive::Min => b.min(a),
        Primitive::Max => b.max(a),
        Primitive::Eq => truth(b == a),
        Primitive::Ne => truth(b != a),
        Primitive::Lt => truth(b < a),
        Primitive::Le => truth(b <= a),
        Primitive::Gt => truth(b > a),
        Primitive::Ge => truth(b >= a),
        other => panic!("not dyadic: {:?}", other),
    }
}

struct Run {
    stack: Result<Vec<Value>, RuntimeError>,
    printed: Vec<Value>,
    loads: Vec<String>,
}

fn run_with(source: &str, files: &[(&str, &str)]) -> Run {
    let formatted = uiua_core::format::format(source).unwrap();
    let mut it = Interpreter::new();
    it.load(&formatted).unwrap();
    let mut printed = vec![];
    let mut loads = vec![];
    let mut written: Vec<(String, String)> = vec![];
    let mut random = 0.0;
    let mut event = Event::Go;
    let mut steps = 0;
    let failure = loop {
        steps += 1;
        assert!(steps < 100_000, "the run does not end");
        event = match it.step(event) {
            Action::Continue => Event::Go,
            Action::Done => break None,
            Action::Failed(e) => break Some(e),
            Action::Literal(text) => Event::Numbers(vec![number(&text).to_bits()]),
            Action::Monadic(p, xs) => Event::Numbers(
                xs.iter().map(|x| monadic(p, f64::from_bits(*x)).to_bits()).collect(),
            ),
            Action::Dyadic(p, pairs) => Event::Numbers(
                pairs
                    .iter()
                    .map(|(a, b)| dyadic(p, f64::from_bits(*a), f64::from_bits(*b)).to_bits())
                    .collect(),
            ),
            Action::Random => {
                random += 0.125;
                Event::Numbers(vec![f64::to_bits(random)])
            }
            Action::Print(v) => {
                printed.push(v);
                Event::Go
            }
            Action::Load(asked) => {
                let path = asked.trim_start_matches("./").to_string();
                let text = written
                    .iter()
                    .rev()
                    .find(|(p, _)| *p == path)
                    .map(|(_, t)| t.clone())
                    .or_else(|| files.iter().find(|(p, _)| *p == path).map(|(_, t)| t.to_string()));
                loads.push(asked);
                Event::Source(text.map(|text| SourceFile { path, text }))
            }
            Action::Write(path, contents) => {
                written.push((path, contents));
                Event::Go
            }
        };
    };
    assert!(it.is_done());
    let stack = it.machine.take_stack();
    Run {
        stack: match failure {
            Some(e) => Err(e),
            None => Ok(stack),
        },
        printed,
        loads,
    }
}

fn run(source: &str) -> Result<Vec<Value>, RuntimeError> {
    run_with(source, &[]).stack
}

fn num(x: f64) -> Value {
    Value::number(x.to_bits())
}

fn nums(xs: &[f64]) -> Value {
    Value::numbers(xs.iter().map(|x| x.to_bits()).collect())
}

fn table(shape: &[usize], xs: &[f64]) -> Value {
    Value::Num(
        uiua_core::array::Array::new(shape.to_vec(), xs.iter().map(|x| x.to_bits()).collect())
            .unwrap(),
    )
}

#[test]
fn a_number_pushes_its_value() {
    assert_eq!(run("5"), Ok(vec![num(5.0)]));
    assert_eq!(run("1 2 3"), Ok(vec![num(3.0), num(2.0), num(1.0)]));
    assert_eq!(run("3.25 ¯1.5 `2"), Ok(vec![num(-2.0), num(-1.5), num(3.25)]));
    assert_eq!(run("[π ∞]"), Ok(vec![nums(&[std::f64::consts::PI, f64::INFINITY])]));
}

#[test]
fn plus_one_two_leaves_three() {
    assert_eq!(run("+ 1 2"), Ok(vec![num(3.0)]));
}

#[test]
fn minus_two_five_leaves_three() {
    assert_eq!(run("- 2 5"), Ok(vec![num(3.0)]));
}

#[test]
fn three_numbers_in_brackets_are_a_list_of_three() {
    let stack = run("[1 2 3]").unwrap();
    assert_eq!(stack, vec![nums(&[1.0, 2.0, 3.0])]);
    assert_eq!(stack[0].shape(), &vec![3usize]);
    assert_eq!(stack[0].rank(), 1);
    assert_eq!(stack[0].length(), 3);
}

#[test]
fn shapes_that_do_not_fit_are_a_type_error() {
    assert_eq!(
        run("+[1 2] [3 4 5]"),
        Err(RuntimeError::Type(TypeError::Shape { left: vec![2], right: vec![3] }, Operation::Builtin(Primitive::Add)))
    );
}

#[test]
fn a_name_is_found_whatever_its_case() {
    assert_eq!(run("foo ← 5\n+ FOO fOo"), Ok(vec![num(10.0)]));
    assert_eq!(run("foo ← 5\nFOO\nfOo"), Ok(vec![num(5.0), num(5.0)]));
}

#[test]
fn the_quadratic_formula_gives_both_roots() {
    let source = "Quadratic ← {÷ ×2a -b ⊟¯. √- ××4a c ⁿ2 b}\nQuadratic 1 2 0";
    assert_eq!(run(source), Ok(vec![nums(&[-2.0, 0.0])]));
    assert_eq!(run("{÷ ×2a -b ⊟¯. √- ××4a c ⁿ2 b} 1 2 0"), Ok(vec![nums(&[-2.0, 0.0])]));
}

#[test]
fn lines_run_from_the_top_and_each_from_its_right() {
    assert_eq!(
        run("5\n+1 2\n\"Hello, World!\"\n"),
        Ok(vec![num(5.0), num(3.0), Value::string("Hello, World!")])
    );
    assert_eq!(run("3 2 × 1 +"), Err(RuntimeError::StackUnderflow(Operation::Builtin(Primitive::Add))));
    assert_eq!(run("+ 1 × 2 3"), Ok(vec![num(7.0)]));
}

#[test]
fn operators_work_backwards() {
    assert_eq!(run("+2 5"), Ok(vec![num(7.0)]));
    assert_eq!(run("↥2 5"), Ok(vec![num(5.0)]));
    assert_eq!(run("ⁿ2 5"), Ok(vec![num(25.0)]));
    assert_eq!(run("⌈2.5"), Ok(vec![num(3.0)]));
    assert_eq!(run("√4"), Ok(vec![num(2.0)]));
    assert_eq!(run("-2 5"), Ok(vec![num(3.0)]));
    assert_eq!(run("<2 5"), Ok(vec![num(0.0)]));
    assert_eq!(run("÷2 5"), Ok(vec![num(2.5)]));
    assert_eq!(run("max sqrt 2 mod 10 abs `31"), Ok(vec![num(1.4142135623730951)]));
}

#[test]
fn comparisons_give_zero_or_one() {
    assert_eq!(run("=2 5"), Ok(vec![num(0.0)]));
    assert_eq!(run("=2 2"), Ok(vec![num(1.0)]));
    assert_eq!(run("≠2 5 ≤2 2 ≥3 2"), Ok(vec![num(0.0), num(1.0), num(1.0)]));
    assert_eq!(run("= 1_2_3 1_5_3"), Ok(vec![nums(&[1.0, 0.0, 1.0])]));
}

#[test]
fn pervasive_operations_reach_every_element() {
    assert_eq!(run("+1 1_2_3"), Ok(vec![nums(&[2.0, 3.0, 4.0])]));
    assert_eq!(run("√[4 9 16]"), Ok(vec![nums(&[2.0, 3.0, 4.0])]));
    assert_eq!(run("+1_2_3 4_5_6"), Ok(vec![nums(&[5.0, 7.0, 9.0])]));
    assert_eq!(
        run("+10_20 [3_4_5 6_7_8]"),
        Ok(vec![table(&[2, 3], &[13.0, 14.0, 15.0, 26.0, 27.0, 28.0])])
    );
    assert_eq!(
        run("-10_20 [3_4_5 6_7_8]"),
        Ok(vec![table(&[2, 3], &[-7.0, -6.0, -5.0, -14.0, -13.0, -12.0])])
    );
}

#[test]
fn strands_make_lists_without_running_anything() {
    assert_eq!(run("1_2_3"), Ok(vec![nums(&[1.0, 2.0, 3.0])]));
    assert_eq!(run("5 1_2 7"), Ok(vec![num(7.0), nums(&[1.0, 2.0]), num(5.0)]));
    let words = run("\"Hello\"_\"World\"").unwrap();
    assert_eq!(words[0].shape(), &vec![2usize, 5]);
    let functions = run("+_-_×_÷").unwrap();
    assert_eq!(functions.len(), 1);
    assert_eq!(functions[0].shape(), &vec![4usize]);
    assert!(matches!(functions[0], Value::Func(_)));
    assert_eq!(run("a ← 1\nb ← 2\na_b_a"), Ok(vec![nums(&[1.0, 2.0, 1.0])]));
}

#[test]
fn a_strand_needs_elements() {
    assert!(matches!(run("_1"), Err(RuntimeError::Syntax { position: 0 })));
    assert!(matches!(run("1_[2]"), Err(RuntimeError::Syntax { .. })));
}

#[test]
fn brackets_run_their_code_and_collect_what_is_new() {
    assert_eq!(run("[¯5 37 42]"), Ok(vec![nums(&[-5.0, 37.0, 42.0])]));
    assert_eq!(run("[...5]"), Ok(vec![nums(&[5.0, 5.0, 5.0, 5.0])]));
    assert_eq!(run("[×2.×2.×2.×2 .2]"), Ok(vec![nums(&[32.0, 16.0, 8.0, 4.0, 2.0])]));
    assert_eq!(run("[+1 2 +3 4]"), Ok(vec![nums(&[3.0, 7.0])]));
    assert_eq!(run("[]"), Ok(vec![nums(&[])]));
    assert_eq!(run("[5]"), Ok(vec![nums(&[5.0])]));
    assert_eq!(run("9 [1 2]"), Ok(vec![nums(&[1.0, 2.0]), num(9.0)]));
    assert_eq!(
        run("[1_2_3 4_5_6]"),
        Ok(vec![table(&[2, 3], &[1.0, 2.0, 3.0, 4.0, 5.0, 6.0])])
    );
    assert_eq!(run("[...[1 2 3]]").unwrap()[0].shape(), &vec![4usize, 3]);
    assert_eq!(run("['a' 'b' 'c']"), Ok(vec![Value::string("abc")]));
}

#[test]
fn rows_of_different_shapes_are_filled_up() {
    assert_eq!(
        run("[1_2 3_4_5]"),
        Ok(vec![table(&[2, 3], &[1.0, 2.0, 0.0, 3.0, 4.0, 5.0])])
    );
    assert_eq!(
        run("[1_2_3 4 5_6]"),
        Err(RuntimeError::Type(TypeError::Shape { left: vec![3], right: vec![] }, Operation::Collect))
    );
    assert_eq!(
        run("⊂ 1_2_3 [4_5 6_7]"),
        Ok(vec![table(&[3, 3], &[1.0, 2.0, 3.0, 4.0, 5.0, 0.0, 6.0, 7.0, 0.0])])
    );
    assert_eq!(
        run("[\"ab\" \"cde\"]"),
        Ok(vec![Value::Char(
            uiua_core::array::Array::new(vec![2, 3], "ab cde".chars().collect()).unwrap()
        )])
    );
    assert!(matches!(run("⊟ 1_2 3_4_5"), Err(RuntimeError::Type(TypeError::Shape { .. }, _))));
}

#[test]
fn brackets_do_not_reach_over_lines() {
    assert!(matches!(run("[1\n2]"), Err(RuntimeError::Syntax { .. })));
}

#[test]
fn shape_length_and_rank() {
    assert_eq!(run("△[1 2 3]"), Ok(vec![nums(&[3.0])]));
    assert_eq!(run("△5"), Ok(vec![nums(&[])]));
    assert_eq!(run("△[[1 2 3] [4 5 6]]"), Ok(vec![nums(&[2.0, 3.0])]));
    assert_eq!(run("△[...[1 2 3]]"), Ok(vec![nums(&[4.0, 3.0])]));
    assert_eq!(
        run("△[1 2 3]\n≢[1 2 3]\n∴[1 2 3]"),
        Ok(vec![nums(&[3.0]), num(3.0), num(1.0)])
    );
    assert_eq!(run("≢5 ∴5"), Ok(vec![num(0.0), num(1.0)]));
    assert_eq!(run("= ∴[1 2 3] ≢△[1 2 3]"), Ok(vec![num(1.0)]));
    assert_eq!(run("= ∴[1_2 3_4] ≢△[1_2 3_4]"), Ok(vec![num(1.0)]));
}

#[test]
fn a_new_interpreter_is_done_and_holds_nothing() {
    let mut it = Interpreter::new();
    assert!(it.is_done());
    assert!(it.codes.is_empty());
    assert!(it.bodies.is_empty());
    assert!(it.tasks.is_empty());
    assert!(it.paths.is_empty());
    assert_eq!(it.machine.depth(), 0);
    assert!(!it.machine.bindings.in_scope());
    assert!(it.machine.imports.lookup("main.ua").is_none());
    assert!(it.machine.frames.is_empty());
    assert_eq!(it.machine.next_frame, 0);
    assert!(it.machine.functions.is_empty());
    assert_eq!(it.machine.fills.number, 0.0f64.to_bits());
    assert_eq!(it.machine.fills.character, ' ');
    assert_eq!(it.step(Event::Go), Action::Done);
    assert!(it.is_done());
    assert!(it.machine.take_stack().is_empty());
}

#[test]
fn the_mode_of_a_run_is_kept() {
    assert_eq!(Interpreter::new().mode(), RunMode::Normal);
    let mut it = Interpreter::new().with_mode(RunMode::Test);
    assert_eq!(it.mode(), RunMode::Test);
    it.load("\"ab\"").unwrap();
    let mut action = it.step(Event::Go);
    while action == Action::Continue {
        action = it.step(Event::Go);
    }
    assert_eq!(action, Action::Done);
    assert_eq!(it.mode(), RunMode::Test);
    assert_eq!(it.machine.take_stack(), vec![Value::string("ab")]);
    assert_eq!(Interpreter::new().with_mode(RunMode::All).mode(), RunMode::All);
}

#[test]
fn a_shape_too_large_to_count_is_refused() {
    let mut it = Interpreter::new();
    it.load("△").unwrap();
    let huge = uiua_core::array::Array::<u64>::new(vec![1 << 60, 0], vec![]).unwrap();
    it.machine.push(Value::Num(huge));
    let mut action = it.step(Event::Go);
    while action == Action::Continue {
        action = it.step(Event::Go);
    }
    assert_eq!(action, Action::Failed(RuntimeError::Type(TypeError::TooLarge, Operation::Builtin(Primitive::Shape))));
    assert_eq!(it.machine.depth(), 1);
}

#[test]
fn structure_needs_one_type() {
    assert_eq!(run("⊂ 1_2 3"), Ok(vec![nums(&[1.0, 2.0, 3.0])]));
    assert_eq!(run("⊟ \"Hello\" \"World\"").unwrap()[0].shape(), &vec![2usize, 5]);
    assert!(matches!(
        run("⊟ 1_2_3 \"dog\""),
        Err(RuntimeError::Type(TypeError::Type { .. }, _))
    ));
    assert!(matches!(run("+'a' 'b'"), Err(RuntimeError::Type(TypeError::Character { .. }, _))));
}

#[test]
fn characters_and_numbers_are_points_and_distances() {
    assert_eq!(run("+1 'a'"), Ok(vec![Value::character('b')]));
    assert_eq!(run("+'a' 1"), Ok(vec![Value::character('b')]));
    assert_eq!(run("-'a' 'z'"), Ok(vec![num(25.0)]));
    assert_eq!(run("-1 'b'"), Ok(vec![Value::character('a')]));
    assert_eq!(run("+1 \"HAL\""), Ok(vec![Value::string("IBM")]));
    assert_eq!(run("+0_1_2 \"IBM\""), Ok(vec![Value::string("ICO")]));
    assert_eq!(run("+3.1 'a'"), Err(RuntimeError::Type(TypeError::NotWhole, Operation::Builtin(Primitive::Add))));
    assert!(matches!(run("-'a' 1"), Err(RuntimeError::Type(TypeError::Character { .. }, _))));
    assert!(matches!(run("×2 'a'"), Err(RuntimeError::Type(TypeError::Character { .. }, _))));
    assert!(matches!(run("+1 (+)"), Err(RuntimeError::Type(TypeError::Character { .. }, _))));
}

#[test]
fn a_failed_operation_leaves_its_operands() {
    let r = run_with("7\n⊟ 1_2_3 \"dog\"", &[]);
    assert!(r.stack.is_err());
    let mut it = Interpreter::new();
    it.load("7\n⊟ 1_2_3 \"dog\"").unwrap();
    let mut event = Event::Go;
    loop {
        event = match it.step(event) {
            Action::Literal(text) => Event::Numbers(vec![number(&text).to_bits()]),
            Action::Failed(_) => break,
            _ => Event::Go,
        };
    }
    assert_eq!(
        it.machine.take_stack(),
        vec![num(7.0), Value::string("dog"), nums(&[1.0, 2.0, 3.0])]
    );
}

#[test]
fn stack_functions() {
    assert_eq!(run(". 5"), Ok(vec![num(5.0), num(5.0)]));
    assert_eq!(run("~ 1 2"), Ok(vec![num(1.0), num(2.0)]));
    assert_eq!(run("[~ 1 2]"), Ok(vec![nums(&[2.0, 1.0])]));
    assert_eq!(run("."), Err(RuntimeError::StackUnderflow(Operation::Builtin(Primitive::Dup))));
    assert_eq!(run("~ 1"), Err(RuntimeError::StackUnderflow(Operation::Builtin(Primitive::Flip))));
    assert_eq!(run("+ 1"), Err(RuntimeError::StackUnderflow(Operation::Builtin(Primitive::Add))));
}

#[test]
fn bindings_of_values_and_functions() {
    assert_eq!(run("a = 3\nb = 5\n+ a b"), Ok(vec![num(8.0)]));
    assert_eq!(run("numone ← 1\nNuMtWo ← 2\n+ numone numtwo"), Ok(vec![num(3.0)]));
    assert_eq!(run("Part ← 5\n×2 Part"), Ok(vec![num(10.0)]));
    assert_eq!(run("TimesThree ← ×3\nTimesThree 7"), Ok(vec![num(21.0)]));
    assert_eq!(run("x ← + 1 2\nx x"), Ok(vec![num(3.0), num(3.0)]));
    assert_eq!(
        run("unknown"),
        Err(RuntimeError::Binding(BindingError::UnknownName("unknown".to_string())))
    );
    assert_eq!(run("x ← 1\nx ← 2\nx"), Ok(vec![num(2.0)]));
    assert_eq!(run("5\nx ←\nx"), Ok(vec![num(5.0)]));
    assert_eq!(run("x ←"), Err(RuntimeError::StackUnderflow(Operation::Bind)));
}

#[test]
fn a_glyph_can_be_a_name() {
    assert_eq!(
        run("👋 ← ⊂\"Hello, \"\n👋 \"World!\""),
        Ok(vec![Value::string("Hello, World!")])
    );
    assert_eq!(run("😀 ← \"happy\"\n😀"), Ok(vec![Value::string("happy")]));
}

#[test]
fn functions_in_brackets_are_values_until_called() {
    let stack = run("(+ 1)").unwrap();
    assert!(matches!(stack[0], Value::Func(_)));
    assert_eq!(run(":(+ 1) 2"), Ok(vec![num(3.0)]));
    assert_eq!(run("F ← (× 2)\n: F 4"), Ok(vec![num(8.0)]));
    assert!(matches!(run(": 5"), Err(RuntimeError::Type(_, Operation::Call))));
    assert_eq!(run(":"), Err(RuntimeError::StackUnderflow(Operation::Builtin(Primitive::Call))));
}

#[test]
fn dfns_take_their_arguments_by_letter() {
    assert_eq!(run("[{b a} 1 2]"), Ok(vec![nums(&[2.0, 1.0])]));
    assert_eq!(run("{+ a a} 4"), Ok(vec![num(8.0)]));
    assert_eq!(run("{7}"), Ok(vec![num(7.0)]));
    assert_eq!(run("{a} 1 2"), Ok(vec![num(2.0), num(1.0)]));
    assert_eq!(run("{c} 1 2"), Err(RuntimeError::StackUnderflow(Operation::Call)));
    assert_eq!(run("{- {a} b a} 1 5"), Ok(vec![num(-4.0)]));
}

#[test]
fn an_argument_cannot_leave_its_dfn() {
    assert_eq!(
        run(":{(a)}5"),
        Err(RuntimeError::Binding(BindingError::ArgumentOutOfScope('a')))
    );
    assert_eq!(run("{:(a)}5"), Ok(vec![num(5.0)]));
}

#[test]
fn recursion_calls_the_dfn_again() {
    assert_eq!(run("↬"), Err(RuntimeError::Unsupported(Primitive::Recur)));
    // a dfn that adds up the stack, calling itself until the stack is used up
    assert_eq!(run("{↬ +a b} 1 2 3"), Err(RuntimeError::StackUnderflow(Operation::Call)));
}

#[test]
fn scopes_hide_names_and_keep_values() {
    assert_eq!(
        run("---\nfoo ← 5\n---\nfoo"),
        Err(RuntimeError::Binding(BindingError::UnknownName("foo".to_string())))
    );
    assert_eq!(
        run("---\na ← 3\nb ← 5\n+ a b\n× a b\n---\nc ← \nd ←\nc_d"),
        Ok(vec![nums(&[8.0, 15.0])])
    );
    assert_eq!(run("x ← 1\n---\nx ← 2\nx\n---\nx"), Ok(vec![num(2.0), num(1.0)]));
}

#[test]
fn modules_hand_out_functions_by_name() {
    let source = "---
PlusFive ← +5
Twin ← ⊟.
PlusFive_Twin
---
mymodule ←
twin ← use \"twin\" mymodule
plusfive ← use \"PlusFive\" mymodule

Twin PlusFive 3";
    assert_eq!(run(source), Ok(vec![nums(&[8.0, 8.0])]));
    let missing = "---\nTwin ← ⊟.\nTwin_Twin\n---\nm ←\nuse \"triple\" m";
    assert_eq!(
        run(missing),
        Err(RuntimeError::Binding(BindingError::UnknownName("triple".to_string())))
    );
}

#[test]
fn a_file_is_imported_once() {
    let files = [("test.ua", "print \"Loading module\"\nrand")];
    let source = "import \"test.ua\"\nimport \"test.ua\"\nimport \"test.ua\"";
    let r = run_with(source, &files);
    assert_eq!(r.stack, Ok(vec![num(0.125), num(0.125), num(0.125)]));
    assert_eq!(r.printed, vec![Value::string("Loading module")]);
    assert_eq!(r.loads, vec!["test.ua".to_string(); 3]);
}

#[test]
fn a_file_under_two_spellings_is_imported_once() {
    let files = [("test.ua", "print \"Loading module\"\nrand")];
    let source = "import \"test.ua\"\nimport \"./test.ua\"\nimport \"././test.ua\"";
    let r = run_with(source, &files);
    assert_eq!(r.stack, Ok(vec![num(0.125), num(0.125), num(0.125)]));
    assert_eq!(r.printed, vec![Value::string("Loading module")]);
    assert_eq!(
        r.loads,
        vec!["test.ua".to_string(), "./test.ua".to_string(), "././test.ua".to_string()]
    );
}

#[test]
fn two_files_with_one_text_are_both_run() {
    let files = [("a.ua", "rand"), ("b.ua", "rand")];
    let r = run_with("import \"a.ua\"\nimport \"b.ua\"\nimport \"a.ua\"", &files);
    assert_eq!(r.stack, Ok(vec![num(0.125), num(0.25), num(0.125)]));
}

#[test]
fn a_file_that_cannot_be_had_ends_the_run_with_its_written_path() {
    let r = run_with("import \"./gone.ua\"", &[]);
    assert_eq!(r.stack, Err(RuntimeError::Import("./gone.ua".to_string())));
}

#[test]
fn an_imported_module_is_used_like_any_other() {
    let files = [(
        "example.ua",
        "Square ← ×.\nDouble ← +.\nIncrement ← +1\nSquare_Double_Increment",
    )];
    let source = "import \"example.ua\"
square ← use \"square\".
double ← use \"double\".
increment ← use \"increment\"

increment square double 5";
    let r = run_with(source, &files);
    assert_eq!(r.stack, Ok(vec![num(101.0)]));
    assert_eq!(r.loads.len(), 1);
}

#[test]
fn a_written_file_can_be_imported() {
    let source = "code ← \"print \\\"Loading module\\\"\\nrand\"
FWriteAll \"test.ua\" code
⍥(import \"test.ua\")3";
    let r = run_with(source, &[]);
    assert_eq!(r.stack, Ok(vec![num(0.125), num(0.125), num(0.125)]));
    assert_eq!(r.printed, vec![Value::string("Loading module")]);
    assert_eq!(r.loads, vec!["test.ua".to_string(); 3]);
    assert!(matches!(run("FWriteAll 1 \"a\""), Err(RuntimeError::Type(TypeError::Type { .. }, _))));
    assert_eq!(run("FWriteAll \"a\""), Err(RuntimeError::StackUnderflow(Operation::Builtin(Primitive::Io(IoOp::FWriteAll)))));
}

#[test]
fn an_import_can_fail() {
    let r = run_with("import \"nowhere.ua\"", &[]);
    assert_eq!(r.stack, Err(RuntimeError::Import("nowhere.ua".to_string())));
    let broken = run_with("import \"broken.ua\"", &[("broken.ua", "[1 2")]);
    assert_eq!(
        broken.stack,
        Err(RuntimeError::Source(FormatError::Unbalanced { position: 0 }))
    );
    assert!(matches!(run("import 5"), Err(RuntimeError::Type(..))));
}

#[test]
fn built_ins_without_a_meaning_here_are_refused() {
    assert_eq!(run("◫ 2 1_2_3"), Err(RuntimeError::Unsupported(Primitive::Windows)));
    assert_eq!(run("⊜ 1_1 1_2"), Err(RuntimeError::Unsupported(Primitive::Partition)));
    assert_eq!(run("/ 1_2"), Err(RuntimeError::Unsupported(Primitive::Reduce)));
    assert_eq!(run("⍥ 3"), Err(RuntimeError::Unsupported(Primitive::Repeat)));
}

#[test]
fn rows_are_picked_by_whole_numbers() {
    assert_eq!(run("⊡ 2 [4 7 9 1 0]"), Ok(vec![num(9.0)]));
    assert_eq!(run("⊡ 0 [4 7 9 1 0]"), Ok(vec![num(4.0)]));
    assert_eq!(run("⊡ 1 [1_2 3_4]"), Ok(vec![nums(&[3.0, 4.0])]));
    assert_eq!(run("⊡ 1 \"abc\""), Ok(vec![Value::character('b')]));
    assert_eq!(run("⊡ 3.1 [4 7 9 1 0]"), Err(RuntimeError::Type(TypeError::NotWhole, Operation::Builtin(Primitive::Pick))));
    assert_eq!(
        run("⊡ 5 [4 7 9 1 0]"),
        Err(RuntimeError::Type(TypeError::Index { index: 5, length: 5 }, Operation::Builtin(Primitive::Pick)))
    );
    assert_eq!(
        run("⊡ ¯1 [4 7 9 1 0]"),
        Err(RuntimeError::Type(TypeError::Index { index: -1, length: 5 }, Operation::Builtin(Primitive::Pick)))
    );
    assert_eq!(
        run("⊡ 0 5"),
        Err(RuntimeError::Type(TypeError::Index { index: 0, length: 0 }, Operation::Builtin(Primitive::Pick)))
    );
    assert!(matches!(run("⊡ 0_1 [4 7]"), Err(RuntimeError::Type(TypeError::Type { .. }, _))));
    assert!(matches!(run("⊡ 'a' [4 7]"), Err(RuntimeError::Type(TypeError::Type { .. }, _))));
    assert_eq!(run("⊡ 1"), Err(RuntimeError::StackUnderflow(Operation::Builtin(Primitive::Pick))));
}

#[test]
fn a_failed_pick_leaves_its_operands() {
    let mut it = Interpreter::new();
    it.load("⊡ 3.1 [4 7]").unwrap();
    let mut event = Event::Go;
    let failure = loop {
        event = match it.step(event) {
            Action::Literal(text) => Event::Numbers(vec![number(&text).to_bits()]),
            Action::Failed(e) => break e,
            _ => Event::Go,
        };
    };
    assert_eq!(failure, RuntimeError::Type(TypeError::NotWhole, Operation::Builtin(Primitive::Pick)));
    assert!(failure.is_recoverable());
    assert_eq!(it.machine.take_stack(), vec![nums(&[4.0, 7.0]), num(3.1)]);
}

#[test]
fn first_and_reverse_work_on_rows() {
    assert_eq!(run("⊢ [4 7 9]"), Ok(vec![num(4.0)]));
    assert_eq!(run("⊢ [1_2 3_4]"), Ok(vec![nums(&[1.0, 2.0])]));
    assert_eq!(
        run("⊢ 5"),
        Err(RuntimeError::Type(TypeError::Index { index: 0, length: 0 }, Operation::Builtin(Primitive::First)))
    );
    assert_eq!(
        run("⊢ []"),
        Err(RuntimeError::Type(TypeError::Index { index: 0, length: 0 }, Operation::Builtin(Primitive::First)))
    );
    assert_eq!(run("⇌ 1_2_3"), Ok(vec![nums(&[3.0, 2.0, 1.0])]));
    assert_eq!(run("⇌ [1_2 3_4 5_6]"), Ok(vec![table(&[3, 2], &[5.0, 6.0, 3.0, 4.0, 1.0, 2.0])]));
    assert_eq!(run("⇌ 5"), Ok(vec![num(5.0)]));
    assert_eq!(run("⇌ []"), Ok(vec![nums(&[])]));
    assert_eq!(run("⇌ \"abc\""), Ok(vec![Value::string("cba")]));
    assert_eq!(run("⊢⇌ 1_2_3"), Ok(vec![num(3.0)]));
    assert_eq!(run("⊢"), Err(RuntimeError::StackUnderflow(Operation::Builtin(Primitive::First))));
    assert_eq!(run("⇌"), Err(RuntimeError::StackUnderflow(Operation::Builtin(Primitive::Reverse))));
}

#[test]
fn recursion_computes_fibonacci_numbers() {
    assert_eq!(run("{:⊡~(+ ↬-1a ↬-2a)_(a) <2a} 10"), Ok(vec![num(55.0)]));
    assert_eq!(run("Fib ← {:⊡~(+ ↬-1a ↬-2a)_(a) <2a}\n[Fib 0 Fib 1 Fib 2 Fib 7]"), Ok(vec![nums(&[0.0, 1.0, 1.0, 13.0])]));
}

#[test]
fn a_modifier_takes_the_function_behind_it() {
    assert_eq!(run("⍥(+1)3 0"), Ok(vec![num(3.0)]));
    assert_eq!(run("⍥.2 5"), Ok(vec![num(5.0), num(5.0), num(5.0)]));
    assert_eq!(run("⍥(+1)0 7"), Ok(vec![num(7.0)]));
    assert_eq!(run("Inc ← +1\n⍥Inc 2 0"), Ok(vec![num(2.0)]));
    assert_eq!(run("× 2 ⍥(+1)3 0"), Ok(vec![num(6.0)]));
    assert_eq!(run("[⍥(. ×2)3 1]"), Ok(vec![nums(&[8.0, 8.0, 4.0, 2.0])]));
}

#[test]
fn reducing_folds_the_rows() {
    assert_eq!(run("/+ 1_2_3_4"), Ok(vec![num(10.0)]));
    assert_eq!(run("/× 1_2_3_4"), Ok(vec![num(24.0)]));
    assert_eq!(run("/- 1_2_3"), Ok(vec![num(2.0)]));
    assert_eq!(run("/+ [1_2 3_4 5_6]"), Ok(vec![nums(&[9.0, 12.0])]));
    assert_eq!(run("/+ 5"), Ok(vec![num(5.0)]));
    assert_eq!(run("/+ [7]"), Ok(vec![num(7.0)]));
    assert_eq!(run("9 /+ 1_2"), Ok(vec![num(3.0), num(9.0)]));
    assert_eq!(
        run("/+ []"),
        Err(RuntimeError::Type(TypeError::Index { index: 0, length: 0 }, Operation::Builtin(Primitive::Reduce)))
    );
    assert_eq!(run("/+"), Err(RuntimeError::StackUnderflow(Operation::Builtin(Primitive::Reduce))));
    assert_eq!(run("/⊂ [1_2 3_4]"), Ok(vec![nums(&[1.0, 2.0, 3.0, 4.0])]));
}

#[test]
fn scanning_keeps_every_result() {
    assert_eq!(run("\\+ 1_2_3_4"), Ok(vec![nums(&[1.0, 3.0, 6.0, 10.0])]));
    assert_eq!(run("\\- 1_2_3"), Ok(vec![nums(&[1.0, 1.0, 2.0])]));
    assert_eq!(run("\\+ [5]"), Ok(vec![nums(&[5.0])]));
    assert_eq!(run("\\+ []"), Ok(vec![nums(&[])]));
    assert_eq!(
        run("\\+ [1_2 3_4 5_6]"),
        Ok(vec![table(&[3, 2], &[1.0, 2.0, 4.0, 6.0, 9.0, 12.0])])
    );
}

#[test]
fn each_goes_over_the_elements_and_rows_over_the_rows() {
    assert_eq!(run("∵(+1) 1_2_3"), Ok(vec![nums(&[2.0, 3.0, 4.0])]));
    assert_eq!(
        run("∵(+1) [1_2 3_4]"),
        Ok(vec![table(&[2, 2], &[2.0, 3.0, 4.0, 5.0])])
    );
    assert_eq!(
        run("∵(⊂÷~1.) 1_2_4_5"),
        Ok(vec![table(&[4, 2], &[1.0, 1.0, 0.5, 2.0, 0.25, 4.0, 0.2, 5.0])])
    );
    assert_eq!(run("∵(+1) 5"), Ok(vec![num(6.0)]));
    assert_eq!(run("∵(+1) []"), Ok(vec![nums(&[])]));
    assert_eq!(run("A ← [2_5_3 0_2_1 0_0_2]\n≡(⊢⇌)A"), Ok(vec![nums(&[3.0, 1.0, 2.0])]));
    assert_eq!(run("≡⇌ [1_2 3_4]"), Ok(vec![table(&[2, 2], &[2.0, 1.0, 4.0, 3.0])]));
    assert_eq!(run("≡(/+) [1_2 3_4]"), Ok(vec![nums(&[3.0, 7.0])]));
    assert_eq!(run("7 ≡(/+) [1_2 3_4]"), Ok(vec![nums(&[3.0, 7.0]), num(7.0)]));
    assert_eq!(run("∵(△) [1_2 3_4]").unwrap()[0].shape(), &vec![2usize, 2, 0]);
}

#[test]
fn an_operand_must_leave_one_value_for_what_it_was_given() {
    assert_eq!(run("∵. 1_2"), Err(RuntimeError::Signature));
    assert_eq!(run("≡+ 1_2"), Err(RuntimeError::Signature));
    assert_eq!(run("/. 1_2"), Err(RuntimeError::Signature));
    assert_eq!(run("9 ∵+ 1_2"), Err(RuntimeError::Signature));
}

#[test]
fn results_of_different_shapes_are_filled_up() {
    assert_eq!(
        run("≡(⍥(⊂1)~[]) 0_2_1"),
        Ok(vec![table(&[3, 2], &[0.0, 0.0, 1.0, 1.0, 1.0, 0.0])])
    );
}

#[test]
fn repeating_needs_a_count() {
    assert_eq!(run("⍥(+1)1.5 0"), Err(RuntimeError::Type(TypeError::NotWhole, Operation::Builtin(Primitive::Repeat))));
    assert_eq!(run("⍥(+1)¯1 0"), Err(RuntimeError::Type(TypeError::NotWhole, Operation::Builtin(Primitive::Repeat))));
    assert!(matches!(run("⍥(+1)1_2 0"), Err(RuntimeError::Type(TypeError::Type { .. }, _))));
    assert!(matches!(run("⍥(+1)'a' 0"), Err(RuntimeError::Type(TypeError::Type { .. }, _))));
    assert_eq!(run("⍥(+1)"), Err(RuntimeError::StackUnderflow(Operation::Builtin(Primitive::Repeat))));
    assert_eq!(
        run("⍥nothing 2"),
        Err(RuntimeError::Binding(BindingError::UnknownName("nothing".to_string())))
    );
    assert!(matches!(
        run("x ← 5\n⍥x 2"),
        Err(RuntimeError::Type(_, Operation::Builtin(Primitive::Repeat)))
    ));
}

#[test]
fn a_file_imported_in_a_loop_runs_once() {
    let files = [("test.ua", "print \"Loading module\"\nrand")];
    let r = run_with("⍥(import \"test.ua\")3", &files);
    assert_eq!(r.stack, Ok(vec![num(0.125), num(0.125), num(0.125)]));
    assert_eq!(r.printed.len(), 1);
    assert_eq!(r.loads.len(), 3);
}

#[test]
fn a_host_that_answers_wrongly_ends_the_run() {
    let mut it = Interpreter::new();
    it.load("+ 1 2").unwrap();
    assert_eq!(it.step(Event::Go), Action::Continue);
    assert_eq!(it.step(Event::Go), Action::Literal("2".to_string()));
    assert_eq!(it.step(Event::Go), Action::Failed(RuntimeError::Host));
    assert!(it.is_done());
    let mut two = Interpreter::new();
    two.load("√ 1_2").unwrap();
    loop {
        match two.step(Event::Numbers(vec![1.0f64.to_bits()])) {
            Action::Monadic(p, xs) => {
                assert_eq!(p, Primitive::Sqrt);
                assert_eq!(xs.len(), 2);
                break;
            }
            Action::Failed(e) => panic!("{:?}", e),
            _ => {}
        }
    }
    assert_eq!(two.step(Event::Numbers(vec![0])), Action::Failed(RuntimeError::Host));
}

#[test]
fn a_comparison_answers_nothing_but_zero_and_one() {
    let answer = |source: &str, reply: f64| {
        let mut it = Interpreter::new();
        it.load(source).unwrap();
        let mut event = Event::Go;
        loop {
            event = match it.step(event) {
                Action::Literal(text) => Event::Numbers(vec![number(&text).to_bits()]),
                Action::Dyadic(_, pairs) => Event::Numbers(vec![reply.to_bits(); pairs.len()]),
                Action::Done => return Ok(it.machine.take_stack()),
                Action::Failed(e) => return Err(e),
                _ => Event::Go,
            };
        }
    };
    assert_eq!(answer("= 1 2", 0.0), Ok(vec![num(0.0)]));
    assert_eq!(answer("< 1 2", 1.0), Ok(vec![num(1.0)]));
    assert_eq!(answer("≥ 1_2 2", 1.0), Ok(vec![nums(&[1.0, 1.0])]));
    for p in ["=", "≠", "<", "≤", ">", "≥"] {
        assert_eq!(answer(&format!("{p} 1 2"), 2.0), Err(RuntimeError::Host));
        assert_eq!(answer(&format!("{p} 1 2"), 0.5), Err(RuntimeError::Host));
        assert_eq!(answer(&format!("{p} 1 2"), -0.0), Err(RuntimeError::Host));
        assert_eq!(answer(&format!("{p} 1 2"), f64::NAN), Err(RuntimeError::Host));
    }
    assert_eq!(answer("+ 1 2", 2.0), Ok(vec![num(2.0)]));
}

#[test]
fn the_interpreter_asks_pair_by_pair() {
    let mut it = Interpreter::new();
    it.load("- 1_2 [3_4 5_6]").unwrap();
    let mut event = Event::Go;
    let pairs = loop {
        event = match it.step(event) {
            Action::Literal(text) => Event::Numbers(vec![number(&text).to_bits()]),
            Action::Dyadic(p, pairs) => {
                assert_eq!(p, Primitive::Sub);
                break pairs;
            }
            _ => Event::Go,
        };
    };
    let seen: Vec<(f64, f64)> =
        pairs.iter().map(|(a, b)| (f64::from_bits(*a), f64::from_bits(*b))).collect();
    assert_eq!(seen, vec![(1.0, 3.0), (1.0, 4.0), (2.0, 5.0), (2.0, 6.0)]);
}

#[test]
fn code_is_read_before_it_runs() {
    assert!(Code::new("+ 1 [2 (3) {a}]").is_ok());
    assert_eq!(Code::new("[1 2").err(), Some(FormatError::Unbalanced { position: 0 }));
    assert_eq!(Code::new("1 2]").err(), Some(FormatError::Unbalanced { position: 3 }));
    assert_eq!(Code::new("(1 ]").err(), Some(FormatError::Unbalanced { position: 3 }));
    assert_eq!(Code::new("([1 2)").err(), Some(FormatError::Unbalanced { position: 5 }));
    assert_eq!(Code::new("{(").err(), Some(FormatError::Unbalanced { position: 1 }));
    assert_eq!(Code::new("1 @ 2").err(), Some(FormatError::Unknown { position: 2 }));
    assert_eq!(Code::new("\"abc").err(), Some(FormatError::Incomplete { position: 0 }));
    assert_eq!(Code::new("'ab'").err(), Some(FormatError::Incomplete { position: 0 }));
    let mut it = Interpreter::new();
    assert_eq!(it.load("[1"), Err(FormatError::Unbalanced { position: 0 }));
    assert!(it.is_done());
}

#[test]
fn tokens_know_their_places() {
    let s: Vec<char> = "x ← +1.5 \"a\\n\" # c\n---\n'\\n'_¯2".chars().collect();
    let tokens = tokenize(&s).unwrap();
    let kinds: Vec<Kind> = tokens.iter().map(|t| t.kind).collect();
    assert_eq!(
        kinds,
        vec![
            Kind::Name,
            Kind::Arrow,
            Kind::Primitive(Primitive::Add),
            Kind::Number,
            Kind::Text,
            Kind::Line,
            Kind::Scope,
            Kind::Line,
            Kind::Character('\n'),
            Kind::Strand,
            Kind::Number,
        ]
    );
    assert_eq!(tokens[3], Token { kind: Kind::Number, start: 5, end: 8 });
    assert_eq!(tokens[4], Token { kind: Kind::Text, start: 9, end: 14 });
    assert_eq!(tokens[10], Token { kind: Kind::Number, start: 28, end: 30 });
    let brackets: Vec<char> = "([{}])".chars().collect();
    let kinds: Vec<Kind> = tokenize(&brackets).unwrap().iter().map(|t| t.kind).collect();
    assert_eq!(
        kinds,
        vec![
            Kind::Open(Bracket::Round),
            Kind::Open(Bracket::Square),
            Kind::Open(Bracket::Curly),
            Kind::Close(Bracket::Curly),
            Kind::Close(Bracket::Square),
            Kind::Close(Bracket::Round),
        ]
    );
}

#[test]
fn numbers_minus_signs_and_dots_are_told_apart() {
    let s: Vec<char> = "2.×¯.-3 - --".chars().collect();
    let kinds: Vec<Kind> = tokenize(&s).unwrap().iter().map(|t| t.kind).collect();
    assert_eq!(
        kinds,
        vec![
            Kind::Number,
            Kind::Primitive(Primitive::Dup),
            Kind::Primitive(Primitive::Mul),
            Kind::Primitive(Primitive::Neg),
            Kind::Primitive(Primitive::Dup),
            Kind::Primitive(Primitive::Sub),
            Kind::Number,
            Kind::Primitive(Primitive::Sub),
            Kind::Primitive(Primitive::Sub),
            Kind::Primitive(Primitive::Sub),
        ]
    );
    let words: Vec<char> = "use import print rand used".chars().collect();
    let kinds: Vec<Kind> = tokenize(&words).unwrap().iter().map(|t| t.kind).collect();
    assert_eq!(
        kinds,
        vec![
            Kind::Primitive(Primitive::Use),
            Kind::Primitive(Primitive::Io(uiua_core::primitive::IoOp::Import)),
            Kind::Primitive(Primitive::Io(uiua_core::primitive::IoOp::Print)),
            Kind::Primitive(Primitive::Rand),
            Kind::Name,
        ]
    );
}

/// The examples of the tutorial.
fn examples() -> Vec<&'static str> {
    vec![
        "5",
        "1 2 3",
        "+ 1 2",
        "5\n+1 2\n\"Hello, World!\"\n+1 'a'",
        "# Click Run to format!\n%6 *3 8",
        "max sqrt 10 mod 10 pow 2 8",
        "* `1 `2",
        "(cei ceil ceili ceilin ceiling)",
        "+ `1 `2",
        "+2 5",
        "↥2 5",
        "ⁿ2 5",
        "⌈2.5",
        "√4",
        "-2 5",
        "<2 5",
        "÷2 5",
        "=2 5",
        "=2 2",
        "# Click Run to format!\nmax sqrt 2 mod 10 abs `31",
        "1_2_3",
        "\"Hello\"_\"World\"",
        "+_-_×_÷",
        "[1 2 3]",
        "[¯5 37 42 π]",
        "[...5]",
        "[×2.×2.×2.×2 .2]",
        "[+1 2 +3 4]",
        "[1_2_3 4_5_6]",
        "[...[1 2 3]]",
        "△[1 2 3]",
        "△5",
        "△[[1 2 3] [4 5 6]]",
        "△[...[1 2 3]]",
        "△[1 2 3]\n≢[1 2 3]\n∴[1 2 3]",
        "= ∴[1 2 3] ≢△[1 2 3]",
        "+1 1_2_3\n√[4 9 16]\n+1_2_3 4_5_6",
        "+[1 2] [3 4 5]",
        "△10_20\n△[3_4_5 6_7_8]\n+10_20 [3_4_5 6_7_8]",
        "[5 0 3.2 ¯1.1 π ∞]",
        "⊡ 2 [4 7 9 1 0]",
        "⊡ 3.1 [4 7 9 1 0]",
        "['a' 'b' 'c']",
        "\"Hello, World!\"",
        "+1 'a'",
        "-'a' 'z'",
        "+'a' 'b'",
        "⊂ 1_2 3",
        "⊟ \"Hello\" \"World\"",
        "⊟ 1_2_3 \"dog\"",
        "a = 3\nb = 5\n+ a b",
        "numone ← 1\nNuMtWo ← 2\n😀 ← \"happy\"",
        "variable_1 ← 5",
        "foo ← 5\n+ FOO fOo",
        "part = 5",
        "Part ← 5\n×2 Part",
        "TimesThree ← ×3\nTimesThree 7",
        "👋 ← ⊂\"Hello, \"\n👋 \"World!\"",
        "/+ 1_2_3_4",
        "\\+ 1_2_3_4",
        "∵(⊂÷~1.) 1_2_4_5",
        "A ← [2_5_3 0_2_1 0_0_2]\nA\n≡(⊢⇌)A",
        "[1 2]\n[~ 1 2]\n[{b a} 1 2]",
        "Quadratic ← {÷ ×2a -b ⊟¯. √- ××4a c ⁿ2 b}\nQuadratic 1 2 0",
        "{:⊡~(+ ↬-1a ↬-2a)_(a) <2a} 10",
        ":{(a)}5",
        "---\nfoo ← 5\n---\nfoo",
        "---\na ← 3\nb ← 5\n+ a b\n× a b\n---\nc ← \nd ←\nc_d",
        r#"---
PlusFive ← +5
Twin ← ⊟.
PlusFive_Twin
---
mymodule ←
twin ← use "twin" mymodule
plusfive ← use "PlusFive" mymodule

Twin PlusFive 3"#,
        r#"import "example.ua"
square ← use "square".
double ← use "double".
increment ← use "increment"

increment square double 5"#,
        r#"code ← "print \"Loading module\"\nrand"
FWriteAll "test.ua" code
⍥(import "test.ua")3"#,
        "+ 1 × 2 3",
        "× + + 1 2 3 4",
    ]
}

#[test]
fn every_example_of_the_tutorial_formats_to_a_fixed_point() {
    for example in examples() {
        if let Ok(once) = uiua_core::format::format(example) {
            assert_eq!(uiua_core::format::format(&once), Ok(once.clone()), "{example}");
        }
    }
}

#[test]
fn every_example_of_the_tutorial_runs_to_an_end() {
    let files = [(
        "example.ua",
        "Square ← ×.\nDouble ← +.\nIncrement ← +1\nSquare_Double_Increment",
    )];
    let mut failed = vec![];
    for example in examples() {
        let formatted = uiua_core::format::format(example).unwrap();
        if run_with(&formatted, &files).stack.is_err() {
            failed.push(example);
        }
    }
    // The examples that show what goes wrong.
    assert_eq!(
        failed,
        vec![
            "+[1 2] [3 4 5]",
            "⊡ 3.1 [4 7 9 1 0]",
            "+'a' 'b'",
            "⊟ 1_2_3 \"dog\"",
            "variable_1 ← 5",
            "part = 5",
            ":{(a)}5",
            "---\nfoo ← 5\n---\nfoo",
        ]
    );
}
