//! The interpreter: it carries out code on the machine, one step at a time.
//!
//! A step never waits. Where a step needs what only the host can give (the
//! value of a number, arithmetic on numbers, the text of a file), it hands
//! out the question as its action, and the next step takes the answer as its
//! event. The host runs the loop: it calls [`Interpreter::step`] until the
//! action is [`Action::Done`] or [`Action::Failed`]. What a step does is
//! said in the module `semantics`.

use vstd::prelude::*;
use crate::array::Array;
use crate::chars::affine_values;
use crate::cli::RunMode;
use crate::code::{Code, CodeView};
use crate::dfn::arity_between;
use crate::error::{BindingError, ElementType, Operation, RuntimeError, TypeError};
use crate::format::FormatError;
use crate::machine::Machine;
use crate::names::{binds_function, fold};
use crate::number::{bits_of, whole, whole_bits, FRACTION, ONE, ZERO};
use crate::primitive::{IoOp, Primitive};
use crate::semantics::{
    counted, counts_of, item_of, items_in, line_stop, modifier_of, pairs_of, truths, uncountable,
    with_top, Operand,
};
use crate::shape::length_of;
use crate::text::{copy_range, string_of};
use crate::token::{unescape, Bracket, Kind, Token};
use crate::value::{Function, Value};

verus! {

/// What a function does when it is called.
#[derive(Clone, Copy, Debug, PartialEq, Eq, Structural)]
pub enum Body {
    /// It is a built-in.
    Primitive(Primitive),
    /// It carries out the tokens from `lo` up to `hi` of the code number
    /// `code`. Letters in it name the arguments of the call number `call`.
    Block { code: usize, lo: usize, hi: usize, call: Option<u64> },
    /// It is a dfn that takes `arity` arguments and carries out the tokens
    /// from `lo` up to `hi` of the code number `code`.
    Dfn { code: usize, lo: usize, hi: usize, arity: u8 },
}

/// What happens when a stretch of tokens has been carried out.
#[derive(Clone, Copy, Debug, PartialEq, Eq, Structural)]
pub enum After {
    Nothing,
    /// The values put on the stack above this height become one array.
    Collect(usize),
    /// The innermost call of a dfn ends.
    Leave,
    /// The top of the stack is bound to the name that is the token of this number.
    Bind(usize),
}

/// Something that the interpreter is in the middle of.
#[derive(Clone, Copy, Debug, PartialEq, Eq, Structural)]
pub enum Task {
    /// The lines of a code from the token number `next` on. Where the code
    /// is an imported file, `import` is the number of its path, and `mark`
    /// the height that the stack had before the file ran.
    Lines { code: usize, next: usize, import: Option<usize>, mark: usize },
    /// The tokens from `lo` up to `at`, the last one first.
    Range { code: usize, lo: usize, at: usize, call: Option<u64>, after: After },
    /// A strand whose next element is the token before `at`, or has just been
    /// put on the stack where `pushed` says so.
    Strand { code: usize, lo: usize, at: usize, call: Option<u64>, mark: usize, pushed: bool },
    /// A built-in that is to be carried out.
    Perform(Primitive),
    /// A function that is to be called this many times more.
    Repeat { function: Function, left: u64 },
    /// A function that is being called on the rows or elements of the array
    /// at the place `at` of the stack, of which there are `count`. What the
    /// calls have made so far stands above the array. `next` says which row
    /// or element is fed next: those that go over every row or element feed
    /// the last one first and count down, those that fold feed the second
    /// one first and count up.
    Loop { kind: Looping, function: Function, at: usize, next: usize, count: usize },
}

/// The ways in which a modifier calls its operand on an array.
#[derive(Clone, Copy, Debug, PartialEq, Eq, Structural)]
pub enum Looping {
    /// Between the rows: the result so far and the next row give the next result.
    Reduce,
    /// As reducing does, with every result so far as a row of the result.
    Scan,
    /// On every element, with what it makes in the place of the element.
    Each,
    /// On every row, with what it makes as a row of the result.
    Rows,
}

/// The question that the host has been asked, by what its answer is for.
#[derive(Clone, Copy, Debug, PartialEq, Eq, Structural)]
pub enum Pending {
    Nothing,
    /// One number, to be put on the stack.
    Number,
    /// One number for each element of the top of the stack, to take its place.
    Monadic,
    /// One number for each pair of elements of the two values on top of the
    /// stack, to take their place. The numbers are the results of this
    /// built-in; where it compares, each of them must be 0 or 1.
    Dyadic(Primitive),
    /// Nothing but the word that the action has been carried out.
    Acknowledge,
    /// The text of the file whose path has this number.
    Load(usize),
}

/// A file as the host has found it.
#[derive(Debug, PartialEq, Eq)]
pub struct SourceFile {
    /// The canonical path of the file: a file has one, however the path to
    /// it was written. Imported files are told apart by it.
    pub path: String,
    /// The text of the file.
    pub text: String,
}

/// What the host tells the interpreter.
#[derive(Debug, PartialEq, Eq)]
pub enum Event {
    /// Nothing: the interpreter may go on.
    Go,
    /// The numbers that were asked for, as bit patterns.
    Numbers(Vec<u64>),
    /// The file that was asked for, or that it cannot be had.
    Source(Option<SourceFile>),
}

/// What the interpreter tells the host.
#[derive(Debug, PartialEq, Eq)]
pub enum Action {
    /// There is more to do: step again.
    Continue,
    /// The code has been carried out.
    Done,
    /// The run has ended with an error.
    Failed(RuntimeError),
    /// Asks for the number that is written like this.
    Literal(String),
    /// Asks for the results of the built-in on each of the numbers.
    Monadic(Primitive, Vec<u64>),
    /// Asks for the results of the built-in on each pair of numbers. The
    /// first number of a pair is an element of the first operand, which was
    /// the top of the stack.
    Dyadic(Primitive, Vec<(u64, u64)>),
    /// Asks for a random number.
    Random,
    /// Asks to print the value.
    Print(Value),
    /// Asks for the file at the path, which is as the code has written it.
    /// The answer names the file by its canonical path, and by that path the
    /// interpreter knows whether it has run the file before: a file that is
    /// imported under two spellings is run once.
    Load(String),
    /// Asks to write the text, which comes second, into the file at the
    /// path, which comes first.
    Write(String, String),
}

/// The interpreter: a machine, the code that it has read, and what it is in
/// the middle of.
#[derive(Debug)]
pub struct Interpreter {
    /// The machine that the code is carried out on.
    pub machine: Machine,
    /// The codes read so far.
    pub codes: Vec<Code>,
    /// What each function of the machine does, by the number of the function.
    pub bodies: Vec<Body>,
    /// What the interpreter is in the middle of, the innermost last.
    pub tasks: Vec<Task>,
    /// The question that the host has been asked.
    pub pending: Pending,
    /// The paths that have been met in imports so far: those that the code
    /// has asked for, as they were written, and the canonical paths of the
    /// files that have been run.
    pub paths: Vec<String>,
    /// The mode of the run. No step changes it, and the language has no
    /// means to mark a line as a test: in every mode every line is carried
    /// out.
    pub mode: RunMode,
}

/// The views of a sequence of codes.
pub open spec fn code_views(codes: Seq<Code>) -> Seq<CodeView> {
    codes.map_values(|c: Code| c@)
}

impl Interpreter {
    /// The codes read so far.
    pub open spec fn codes(&self) -> Seq<CodeView> {
        code_views(self.codes@)
    }

    /// What each function of the machine does, by the number of the function.
    pub open spec fn bodies(&self) -> Seq<Body> {
        self.bodies@
    }

    /// What the interpreter is in the middle of, the innermost last.
    pub open spec fn tasks(&self) -> Seq<Task> {
        self.tasks@
    }

    /// The question that the host has been asked.
    pub open spec fn pending(&self) -> Pending {
        self.pending
    }

    /// The paths that have been met in imports so far.
    pub open spec fn paths(&self) -> Seq<Seq<char>> {
        self.paths@.map_values(|p: String| p@)
    }

    /// The stretch from `lo` to `hi` lies within the tokens of the code
    /// number `code`.
    pub open spec fn in_code(&self, code: usize, lo: usize, hi: usize) -> bool {
        code < self.codes().len() && lo <= hi <= self.codes()[code as int].tokens.len()
    }

    /// The body speaks of tokens that there are.
    pub open spec fn body_ok(&self, body: Body) -> bool {
        match body {
            Body::Primitive(_) => true,
            Body::Block { code, lo, hi, .. } => self.in_code(code, lo, hi),
            Body::Dfn { code, lo, hi, .. } => self.in_code(code, lo, hi),
        }
    }

    /// The task speaks of tokens and paths that there are.
    pub open spec fn task_ok(&self, task: Task) -> bool {
        match task {
            Task::Lines { code, next, import, .. } => {
                &&& self.in_code(code, next, next)
                &&& match import {
                    Some(p) => p < self.paths().len(),
                    None => true,
                }
            },
            Task::Range { code, lo, at, after, .. } => {
                &&& self.in_code(code, lo, at)
                &&& match after {
                    After::Bind(name) => name < self.codes()[code as int].tokens.len(),
                    _ => true,
                }
            },
            Task::Strand { code, lo, at, .. } => self.in_code(code, lo, at) && lo < at,
            Task::Perform(_) => true,
            Task::Repeat { .. } => true,
            Task::Loop { .. } => true,
        }
    }

    /// Everything that the interpreter holds is in order.
    pub open spec fn wf(&self) -> bool {
        &&& self.machine.wf()
        &&& self.bodies().len() == self.machine.function_names().len()
        &&& forall|k: int| 0 <= k < self.codes().len() ==> (#[trigger] self.codes()[k]).wf()
        &&& forall|k: int| 0 <= k < self.bodies().len() ==> self.body_ok(#[trigger] self.bodies()[k])
        &&& forall|k: int| 0 <= k < self.tasks().len() ==> self.task_ok(#[trigger] self.tasks()[k])
        &&& match self.pending() {
            Pending::Load(p) => p < self.paths().len(),
            _ => true,
        }
    }

    /// An interpreter that has read nothing, with a new machine: its machine
    /// is as a machine is at the beginning of a run, it holds no code, no
    /// function and no path, it is in the middle of nothing, and it has asked
    /// the host nothing. So it is done, and its next step hands out
    /// [`Action::Done`] until code is loaded.
    pub fn new() -> (r: Interpreter)
        ensures
            r.wf(),
            r.machine.fresh(),
            r.mode == RunMode::Normal,
            r.machine.stack_view().len() == 0,
            r.codes().len() == 0,
            r.bodies().len() == 0,
            r.tasks().len() == 0,
            r.pending() is Nothing,
            r.paths().len() == 0,
    {
        Interpreter {
            machine: Machine::new(),
            codes: Vec::new(),
            bodies: Vec::new(),
            tasks: Vec::new(),
            pending: Pending::Nothing,
            paths: Vec::new(),
            mode: RunMode::Normal,
        }
    }

    /// The same interpreter for a run in the mode `mode`.
    pub fn with_mode(self, mode: RunMode) -> (r: Interpreter)
        requires
            self.wf(),
        ensures
            r.wf(),
            r.mode == mode,
            r.machine == self.machine,
            r.codes == self.codes,
            r.bodies == self.bodies,
            r.tasks == self.tasks,
            r.pending == self.pending,
            r.paths == self.paths,
    {
        let mut r = self;
        r.mode = mode;
        proof {
            r.lemma_machine(&self);
        }
        r
    }

    /// The mode of the run.
    pub fn mode(&self) -> (r: RunMode)
        ensures
            r == self.mode,
    {
        self.mode
    }

    /// Whether there is nothing left to do.
    pub fn is_done(&self) -> (r: bool)
        ensures
            r == (self.tasks().len() == 0 && self.pending() is Nothing),
    {
        self.tasks.len() == 0 && match self.pending {
            Pending::Nothing => true,
            _ => false,
        }
    }

    /// Reads the text `source` and makes its lines the next thing to carry out.
    ///
    /// Fails as [`Code::new`] does; then nothing has changed.
    pub fn load(&mut self, source: &str) -> (r: Result<(), FormatError>)
        requires
            old(self).wf(),
        ensures
            final(self).wf(),
            final(self).machine == old(self).machine,
            final(self).bodies() == old(self).bodies(),
            final(self).pending() == old(self).pending(),
            final(self).paths() == old(self).paths(),
            final(self).mode == old(self).mode,
            match r {
                Ok(_) => {
                    let code = final(self).codes().last();
                    &&& final(self).codes() == old(self).codes().push(code)
                    &&& code.source == source@
                    &&& code.wf()
                    &&& final(self).tasks() == old(self).tasks().push(
                        Task::Lines {
                            code: old(self).codes().len() as usize,
                            next: 0,
                            import: None,
                            mark: old(self).machine.stack_view().len() as usize,
                        },
                    )
                },
                Err(e) => {
                    &&& final(self).codes() == old(self).codes()
                    &&& final(self).tasks() == old(self).tasks()
                    &&& Code::refused(e, source@)
                },
            },
            r is Ok <==> Code::new_spec(source@),
    {
        let code = match Code::new(source) {
            Ok(code) => code,
            Err(e) => {
                return Err(e);
            },
        };
        let index = self.codes.len();
        let mark = self.machine.depth();
        proof {
            let c = code;
            assert(c@.wf());
        }
        let ghost view = code@;
        self.codes.push(code);
        self.tasks.push(Task::Lines { code: index, next: 0, import: None, mark });
        proof {
            assert(self.codes() =~= old(self).codes().push(view));
            assert(self.paths() =~= old(self).paths());
            assert forall|k: int| 0 <= k < self.bodies().len() implies self.body_ok(
                #[trigger] self.bodies()[k],
            ) by {
                assert(old(self).body_ok(old(self).bodies()[k]));
            }
            assert forall|k: int| 0 <= k < self.tasks().len() implies self.task_ok(
                #[trigger] self.tasks()[k],
            ) by {
                if k < old(self).tasks().len() {
                    assert(old(self).task_ok(old(self).tasks()[k]));
                }
            }
        }
        Ok(())
    }
}

impl Interpreter {

    /// What was in order in `pre` is in order in an interpreter that has
    /// read at least as much.
    proof fn lemma_grown(&self, pre: &Interpreter)
        requires
            pre.wf(),
            pre.codes().len() <= self.codes().len(),
            pre.paths().len() <= self.paths().len(),
            forall|k: int| 0 <= k < pre.codes().len() ==> #[trigger] self.codes()[k] == pre.codes()[k],
        ensures
            forall|b: Body| pre.body_ok(b) ==> #[trigger] self.body_ok(b),
            forall|t: Task| pre.task_ok(t) ==> #[trigger] self.task_ok(t),
    {
    }

    /// An interpreter is in order where it has read what `pre` has read and
    /// its functions, its tasks and its open question are in order.
    proof fn lemma_wf(&self, pre: &Interpreter)
        requires
            pre.wf(),
            self.machine.wf(),
            self.bodies().len() == self.machine.function_names().len(),
            pre.codes().len() <= self.codes().len(),
            pre.paths().len() <= self.paths().len(),
            forall|k: int| 0 <= k < pre.codes().len() ==> #[trigger] self.codes()[k] == pre.codes()[k],
            forall|k: int|
                pre.codes().len() <= k < self.codes().len() ==> (#[trigger] self.codes()[k]).wf(),
            forall|k: int|
                0 <= k < self.bodies().len() ==> (k < pre.bodies().len() && pre.bodies()[k]
                    == #[trigger] self.bodies()[k]) || self.body_ok(self.bodies()[k]),
            forall|k: int|
                0 <= k < self.tasks().len() ==> (exists|j: int|
                    0 <= j < pre.tasks().len() && pre.tasks()[j] == #[trigger] self.tasks()[k])
                    || self.task_ok(self.tasks()[k]),
            match self.pending() {
                Pending::Load(p) => p < self.paths().len(),
                _ => true,
            },
        ensures
            self.wf(),
    {
        self.lemma_grown(pre);
        assert forall|k: int| 0 <= k < self.codes().len() implies (#[trigger] self.codes()[k]).wf() by {
            if k < pre.codes().len() {
                assert(pre.codes()[k].wf());
            }
        }
        assert forall|k: int| 0 <= k < self.bodies().len() implies self.body_ok(
            #[trigger] self.bodies()[k],
        ) by {
            if k < pre.bodies().len() && pre.bodies()[k] == self.bodies()[k] {
                assert(pre.body_ok(pre.bodies()[k]));
            }
        }
        assert forall|k: int| 0 <= k < self.tasks().len() implies self.task_ok(
            #[trigger] self.tasks()[k],
        ) by {
            if !self.task_ok(self.tasks()[k]) {
                let j = choose|j: int| 0 <= j < pre.tasks().len() && pre.tasks()[j] == self.tasks()[k];
                assert(pre.task_ok(pre.tasks()[j]));
            }
        }
    }

    /// Ends the run with the error `e`.
    fn fail(&mut self, e: RuntimeError) -> (action: Action)
        requires
            old(self).wf(),
        ensures
            final(self).wf(),
            final(self).aborted(old(self)),
            action == Action::Failed(e),
    {
        self.tasks.clear();
        self.pending = Pending::Nothing;
        self.machine.abandon_calls();
        Action::Failed(e)
    }

    /// Replaces the last task by `task`.
    fn set_top(&mut self, task: Task)
        requires
            old(self).wf(),
            old(self).tasks().len() > 0,
            old(self).task_ok(task),
        ensures
            final(self).wf(),
            final(self).tasks() == with_top(old(self).tasks(), task),
            final(self).machine == old(self).machine,
            final(self).codes == old(self).codes,
            final(self).bodies == old(self).bodies,
            final(self).pending == old(self).pending,
            final(self).paths == old(self).paths,
            final(self).mode == old(self).mode,
    {
        let n = self.tasks.len();
        self.tasks.set(n - 1, task);
        proof {
            assert(self.tasks() =~= with_top(old(self).tasks(), task));
            self.lemma_grown(old(self));
            assert forall|k: int| 0 <= k < self.tasks().len() implies (exists|j: int|
                0 <= j < old(self).tasks().len() && old(self).tasks()[j] == #[trigger] self.tasks()[k])
                || self.task_ok(self.tasks()[k]) by {
                if k < n - 1 {
                    assert(old(self).tasks()[k] == self.tasks()[k]);
                }
            }
            self.lemma_wf(old(self));
        }
    }

    /// Puts `task` behind the last task.
    fn add_task(&mut self, task: Task)
        requires
            old(self).wf(),
            old(self).task_ok(task),
        ensures
            final(self).wf(),
            final(self).tasks() == old(self).tasks().push(task),
            final(self).machine == old(self).machine,
            final(self).codes == old(self).codes,
            final(self).bodies == old(self).bodies,
            final(self).pending == old(self).pending,
            final(self).paths == old(self).paths,
            final(self).mode == old(self).mode,
    {
        self.tasks.push(task);
        proof {
            self.lemma_grown(old(self));
            assert forall|k: int| 0 <= k < self.tasks().len() implies (exists|j: int|
                0 <= j < old(self).tasks().len() && old(self).tasks()[j] == #[trigger] self.tasks()[k])
                || self.task_ok(self.tasks()[k]) by {
                if k < old(self).tasks().len() {
                    assert(old(self).tasks()[k] == self.tasks()[k]);
                }
            }
            self.lemma_wf(old(self));
        }
    }

    /// Takes the last task away.
    fn drop_task(&mut self)
        requires
            old(self).wf(),
            old(self).tasks().len() > 0,
        ensures
            final(self).wf(),
            final(self).tasks() == old(self).tasks().drop_last(),
            final(self).machine == old(self).machine,
            final(self).codes == old(self).codes,
            final(self).bodies == old(self).bodies,
            final(self).pending == old(self).pending,
            final(self).paths == old(self).paths,
            final(self).mode == old(self).mode,
    {
        let _ = self.tasks.pop();
        proof {
            assert(self.tasks() =~= old(self).tasks().drop_last());
            assert forall|k: int| 0 <= k < self.tasks().len() implies (exists|j: int|
                0 <= j < old(self).tasks().len() && old(self).tasks()[j] == #[trigger] self.tasks()[k])
                || self.task_ok(self.tasks()[k]) by {
                assert(old(self).tasks()[k] == self.tasks()[k]);
            }
            self.lemma_wf(old(self));
        }
    }

    /// Enters a function with the body `body` into the table of functions.
    fn define(&mut self, name: Option<&str>, body: Body) -> (f: Function)
        requires
            old(self).wf(),
            old(self).body_ok(body),
        ensures
            final(self).wf(),
            f.id == old(self).machine.function_names().len(),
            final(self).machine.function_names() == old(self).machine.function_names().push(
                match name {
                    Some(n) => Some(fold(n@)),
                    None => None,
                },
            ),
            final(self).bodies() == old(self).bodies().push(body),
            final(self).machine.stack == old(self).machine.stack,
            final(self).machine.bindings == old(self).machine.bindings,
            final(self).machine.imports == old(self).machine.imports,
            final(self).machine.fills == old(self).machine.fills,
            final(self).machine.scope_base == old(self).machine.scope_base,
            final(self).machine.frames == old(self).machine.frames,
            final(self).machine.next_frame == old(self).machine.next_frame,
            final(self).codes == old(self).codes,
            final(self).tasks == old(self).tasks,
            final(self).pending == old(self).pending,
            final(self).paths == old(self).paths,
            final(self).mode == old(self).mode,
    {
        let f = self.machine.define(name);
        self.bodies.push(body);
        proof {
            assert(self.bodies() =~= old(self).bodies().push(body));
            self.lemma_grown(old(self));
            assert forall|k: int| 0 <= k < self.tasks().len() implies (exists|j: int|
                0 <= j < old(self).tasks().len() && old(self).tasks()[j] == #[trigger] self.tasks()[k])
                || self.task_ok(self.tasks()[k]) by {
                assert(old(self).tasks()[k] == self.tasks()[k]);
            }
            self.lemma_wf(old(self));
        }
        f
    }

    /// Begins a call of a dfn.
    fn enter(
        &mut self,
        function: Function,
        code: usize,
        lo: usize,
        hi: usize,
        arity: u8,
        defined: Option<Body>,
        Ghost(pre): Ghost<&Interpreter>,
    ) -> (action: Action)
        requires
            old(self).wf(),
            pre.wf(),
            old(self).continues(pre),
            old(self).in_code(code, lo, hi),
            match defined {
                Some(body) => old(self).body_ok(body) && function.id
                    == old(self).machine.function_names().len(),
                None => true,
            },
        ensures
            final(self).wf(),
            final(self).entered(
                pre,
                action,
                old(self).machine.stack_view(),
                old(self).tasks(),
                function,
                code,
                lo,
                hi,
                arity,
                defined,
            ),
    {
        if self.machine.depth() < arity as usize {
            return self.fail(RuntimeError::StackUnderflow(Operation::Call));
        }
        if self.machine.next_frame == u64::MAX {
            return self.fail(RuntimeError::Exhausted);
        }
        match defined {
            Some(body) => {
                let _ = self.define(None, body);
            },
            None => {},
        }
        let ghost mid = *self;
        match self.machine.enter_dfn(Some(function), arity) {
            Ok(id) => {
                proof {
                    self.lemma_grown(&mid);
                    assert forall|k: int| 0 <= k < self.tasks().len() implies (exists|j: int|
                        0 <= j < mid.tasks().len() && mid.tasks()[j] == #[trigger] self.tasks()[k])
                        || self.task_ok(self.tasks()[k]) by {
                        assert(mid.tasks()[k] == self.tasks()[k]);
                    }
                    self.lemma_wf(&mid);
                }
                self.add_task(Task::Range { code, lo, at: hi, call: Some(id), after: After::Leave });
                Action::Continue
            },
            Err(e) => {
                proof {
                    assert(false);
                }
                Action::Failed(e)
            },
        }
    }

    /// Calls the value `v`.
    fn call_value(&mut self, v: &Value, Ghost(pre): Ghost<&Interpreter>) -> (action: Action)
        requires
            old(self).wf(),
            pre.wf(),
            old(self).continues(pre),
        ensures
            final(self).wf(),
            final(self).called(pre, action, v@, old(self).machine.stack_view(), old(self).tasks()),
    {
        let f = match v {
            Value::Func(a) => {
                if a.rank() != 0 || a.data().len() != 1 {
                    return self.fail(
                        RuntimeError::Type(
                            TypeError::Type { left: v.element_type(), right: v.element_type() },
                            Operation::Call,
                        ),
                    );
                }
                a.data()[0]
            },
            _ => {
                return self.fail(
                    RuntimeError::Type(
                        TypeError::Type { left: v.element_type(), right: v.element_type() },
                        Operation::Call,
                    ),
                );
            },
        };
        if f.id >= self.bodies.len() {
            return self.fail(RuntimeError::Unsupported(Primitive::Call));
        }
        let body = self.bodies[f.id];
        assert(self.body_ok(self.bodies()[f.id as int]));
        match body {
            Body::Primitive(q) => {
                self.add_task(Task::Perform(q));
                Action::Continue
            },
            Body::Block { code, lo, hi, call } => {
                self.add_task(Task::Range { code, lo, at: hi, call, after: After::Nothing });
                Action::Continue
            },
            Body::Dfn { code, lo, hi, arity } => self.enter(
                f,
                code,
                lo,
                hi,
                arity,
                None,
                Ghost(pre),
            ),
        }
    }

    /// An interpreter is in order where only its machine has changed since
    /// `mid`, the machine is in order, and its functions are as they were.
    proof fn lemma_machine(&self, mid: &Interpreter)
        requires
            mid.wf(),
            self.codes == mid.codes,
            self.bodies == mid.bodies,
            self.tasks == mid.tasks,
            self.paths == mid.paths,
            self.pending == mid.pending,
            self.machine.wf(),
            self.machine.functions == mid.machine.functions,
        ensures
            self.wf(),
    {
        self.lemma_grown(mid);
        assert forall|k: int| 0 <= k < self.tasks().len() implies (exists|j: int|
            0 <= j < mid.tasks().len() && mid.tasks()[j] == #[trigger] self.tasks()[k])
            || self.task_ok(self.tasks()[k]) by {
            assert(mid.tasks()[k] == self.tasks()[k]);
        }
        self.lemma_wf(mid);
    }

    /// Asks the host a question.
    fn ask(&mut self, pending: Pending)
        requires
            old(self).wf(),
            !(pending is Load),
        ensures
            final(self).wf(),
            final(self).pending() == pending,
            final(self).machine == old(self).machine,
            final(self).codes == old(self).codes,
            final(self).bodies == old(self).bodies,
            final(self).tasks == old(self).tasks,
            final(self).paths == old(self).paths,
            final(self).mode == old(self).mode,
    {
        self.pending = pending;
        proof {
            self.lemma_grown(old(self));
            assert forall|k: int| 0 <= k < self.tasks().len() implies (exists|j: int|
                0 <= j < old(self).tasks().len() && old(self).tasks()[j] == #[trigger] self.tasks()[k])
                || self.task_ok(self.tasks()[k]) by {
                assert(old(self).tasks()[k] == self.tasks()[k]);
            }
            self.lemma_wf(old(self));
        }
    }

    /// Carries out the built-in `p`.
    #[verifier::rlimit(40)]
    fn perform(&mut self, p: Primitive, Ghost(pre): Ghost<&Interpreter>) -> (action: Action)
        requires
            old(self).wf(),
            pre.wf(),
            old(self).continues(pre),
            old(self).machine.stack_view() == pre.machine.stack_view(),
        ensures
            final(self).wf(),
            final(self).performed(pre, action, p, old(self).tasks()),
    {
        let n = self.machine.stack.len();
        let ghost mid = *self;
        let ghost stack = self.machine.stack_view();
        match p {
            Primitive::Dup => {
                let r = self.machine.dup();
                proof {
                    self.lemma_machine(&mid);
                }
                match r {
                    Ok(_) => Action::Continue,
                    Err(e) => self.fail(e),
                }
            },
            Primitive::Flip => {
                let r = self.machine.flip();
                proof {
                    self.lemma_machine(&mid);
                }
                match r {
                    Ok(_) => Action::Continue,
                    Err(e) => self.fail(e),
                }
            },
            Primitive::Couple => {
                let r = self.machine.couple();
                proof {
                    self.lemma_machine(&mid);
                }
                match r {
                    Ok(_) => Action::Continue,
                    Err(e) => self.fail(e),
                }
            },
            Primitive::Join => {
                let r = self.machine.join();
                proof {
                    self.lemma_machine(&mid);
                }
                match r {
                    Ok(_) => Action::Continue,
                    Err(e) => self.fail(e),
                }
            },
            Primitive::Use => {
                let r = self.machine.use_function();
                proof {
                    self.lemma_machine(&mid);
                }
                match r {
                    Ok(_) => Action::Continue,
                    Err(e) => self.fail(e),
                }
            },
            Primitive::Neg | Primitive::Abs | Primitive::Sqrt | Primitive::Sign | Primitive::Floor
            | Primitive::Ceil | Primitive::Round => {
                if n < 1 {
                    return self.fail(RuntimeError::StackUnderflow(Operation::Builtin(p)));
                }
                assert(stack[n - 1] == self.machine.stack@[n - 1]@);
                let data = match &self.machine.stack[n - 1] {
                    Value::Num(a) => copy_numbers(a.data()),
                    other => {
                        let kind = other.element_type();
                        return self.fail(
                            RuntimeError::Type(
                                TypeError::Character { left: kind, right: kind },
                                Operation::Builtin(p),
                            ),
                        );
                    },
                };
                self.ask(Pending::Monadic);
                Action::Monadic(p, data)
            },
            Primitive::Eq | Primitive::Ne | Primitive::Lt | Primitive::Le | Primitive::Gt
            | Primitive::Ge | Primitive::Add | Primitive::Sub | Primitive::Mul | Primitive::Div
            | Primitive::Mod | Primitive::Pow | Primitive::Min | Primitive::Max => {
                if n < 2 {
                    return self.fail(RuntimeError::StackUnderflow(Operation::Builtin(p)));
                }
                assert(stack[n - 1] == self.machine.stack@[n - 1]@);
                assert(stack[n - 2] == self.machine.stack@[n - 2]@);
                let made = match (&self.machine.stack[n - 1], &self.machine.stack[n - 2]) {
                    (Value::Num(a), Value::Num(b)) => {
                        let pair = |x: u64, y: u64| -> (r: (u64, u64))
                            ensures
                                r == (x, y),
                            { (x, y) };
                        match crate::array::pervade(a, b, pair) {
                            Ok(c) => {
                                let (_, data) = c.into_parts();
                                assert(data@ =~= pairs_of(a@, b@));
                                Ok(data)
                            },
                            Err(e) => Err(e),
                        }
                    },
                    (a, b) => {
                        return match affine_values(p, a, b) {
                            Ok(v) => {
                                self.machine.replace_two(v);
                                proof {
                                    self.lemma_machine(&mid);
                                }
                                Action::Continue
                            },
                            Err(e) => self.fail(RuntimeError::Type(e, Operation::Builtin(p))),
                        };
                    },
                };
                match made {
                    Ok(data) => {
                        self.ask(Pending::Dyadic(p));
                        Action::Dyadic(p, data)
                    },
                    Err(e) => self.fail(RuntimeError::Type(e, Operation::Builtin(p))),
                }
            },
            Primitive::Shape | Primitive::Len | Primitive::Rank => {
                if n < 1 {
                    return self.fail(RuntimeError::StackUnderflow(Operation::Builtin(p)));
                }
                assert(stack[n - 1] == self.machine.stack@[n - 1]@);
                let top = &self.machine.stack[n - 1];
                let mut counts: Vec<usize> = Vec::new();
                match p {
                    Primitive::Shape => {
                        counts = copy_sizes(top.shape());
                    },
                    Primitive::Len => {
                        counts.push(top.length());
                        assert(counts@ =~= seq![length_of(stack[n - 1].shape()) as usize]);
                    },
                    _ => {
                        counts.push(top.rank());
                        assert(counts@ =~= seq![stack[n - 1].shape().len() as usize]);
                    },
                }
                assert(counts@ == counts_of(p, stack[n - 1].shape()));
                let bits = match count_bits(&counts) {
                    Some(bits) => bits,
                    None => {
                        return self.fail(
                            RuntimeError::Type(TypeError::TooLarge, Operation::Builtin(p)),
                        );
                    },
                };
                let made = match p {
                    Primitive::Shape => Value::numbers(bits),
                    _ => Value::number(bits[0]),
                };
                self.machine.replace_top(made);
                proof {
                    self.lemma_machine(&mid);
                }
                Action::Continue
            },
            Primitive::Reverse => {
                if n < 1 {
                    return self.fail(RuntimeError::StackUnderflow(Operation::Builtin(p)));
                }
                assert(stack[n - 1] == self.machine.stack@[n - 1]@);
                let made = self.machine.stack[n - 1].reverse();
                self.machine.replace_top(made);
                proof {
                    self.lemma_machine(&mid);
                }
                Action::Continue
            },
            Primitive::First => {
                if n < 1 {
                    return self.fail(RuntimeError::StackUnderflow(Operation::Builtin(p)));
                }
                assert(stack[n - 1] == self.machine.stack@[n - 1]@);
                match self.machine.stack[n - 1].row(0) {
                    Some(made) => {
                        self.machine.replace_top(made);
                        proof {
                            self.lemma_machine(&mid);
                        }
                        Action::Continue
                    },
                    None => self.fail(
                        RuntimeError::Type(
                            TypeError::Index { index: 0, length: 0 },
                            Operation::Builtin(p),
                        ),
                    ),
                }
            },
            Primitive::Pick => {
                if n < 2 {
                    return self.fail(RuntimeError::StackUnderflow(Operation::Builtin(p)));
                }
                assert(stack[n - 1] == self.machine.stack@[n - 1]@);
                assert(stack[n - 2] == self.machine.stack@[n - 2]@);
                let index = match &self.machine.stack[n - 1] {
                    Value::Num(a) => if a.rank() == 0 && a.data().len() == 1 {
                        whole(a.data()[0])
                    } else {
                        return self.fail(
                            RuntimeError::Type(
                                TypeError::Type {
                                    left: crate::error::ElementType::Number,
                                    right: crate::error::ElementType::Number,
                                },
                                Operation::Builtin(p),
                            ),
                        );
                    },
                    other => {
                        let kind = other.element_type();
                        return self.fail(
                            RuntimeError::Type(
                                TypeError::Type { left: kind, right: kind },
                                Operation::Builtin(p),
                            ),
                        );
                    },
                };
                let i = match index {
                    Some(i) => i,
                    None => {
                        return self.fail(
                            RuntimeError::Type(TypeError::NotWhole, Operation::Builtin(p)),
                        );
                    },
                };
                let array = &self.machine.stack[n - 2];
                let length: usize = if array.rank() > 0 {
                    array.length()
                } else {
                    0
                };
                if i < 0 || (i as u64) >= (length as u64) {
                    return self.fail(
                        RuntimeError::Type(
                            TypeError::Index { index: i, length },
                            Operation::Builtin(p),
                        ),
                    );
                }
                match array.row(i as usize) {
                    Some(made) => {
                        self.machine.replace_two(made);
                        proof {
                            self.lemma_machine(&mid);
                        }
                        Action::Continue
                    },
                    None => self.fail(
                        RuntimeError::Type(
                            TypeError::Index { index: i, length },
                            Operation::Builtin(p),
                        ),
                    ),
                }
            },
            Primitive::Call => {
                match self.machine.pop() {
                    Ok(v) => {
                        proof {
                            self.lemma_machine(&mid);
                        }
                        self.call_value(&v, Ghost(pre))
                    },
                    Err(_) => {
                        proof {
                            self.lemma_machine(&mid);
                        }
                        self.fail(RuntimeError::StackUnderflow(Operation::Builtin(p)))
                    },
                }
            },
            Primitive::Recur => {
                match self.machine.recur_target() {
                    Some(f) => {
                        let v = Value::function(f);
                        self.call_value(&v, Ghost(pre))
                    },
                    None => self.fail(RuntimeError::Unsupported(Primitive::Recur)),
                }
            },
            Primitive::Rand => {
                self.ask(Pending::Number);
                Action::Random
            },
            Primitive::Io(IoOp::Print) => {
                match self.machine.pop() {
                    Ok(v) => {
                        proof {
                            self.lemma_machine(&mid);
                        }
                        self.ask(Pending::Acknowledge);
                        Action::Print(v)
                    },
                    Err(_) => {
                        proof {
                            self.lemma_machine(&mid);
                        }
                        self.fail(RuntimeError::StackUnderflow(Operation::Builtin(p)))
                    },
                }
            },
            Primitive::Io(IoOp::FWriteAll) => {
                if n < 2 {
                    return self.fail(RuntimeError::StackUnderflow(Operation::Builtin(p)));
                }
                assert(stack[n - 1] == self.machine.stack@[n - 1]@);
                assert(stack[n - 2] == self.machine.stack@[n - 2]@);
                let texts = match (&self.machine.stack[n - 1], &self.machine.stack[n - 2]) {
                    (Value::Char(path), Value::Char(contents)) => {
                        let path = path.data();
                        let contents = contents.data();
                        Ok(
                            (
                                string_of(&copy_range(path, 0, path.len())),
                                string_of(&copy_range(contents, 0, contents.len())),
                            ),
                        )
                    },
                    (a, b) => Err(
                        TypeError::Type { left: a.element_type(), right: b.element_type() },
                    ),
                };
                match texts {
                    Ok((path, contents)) => {
                        assert(path@ =~= stack[n - 1]->Char_0.data);
                        assert(contents@ =~= stack[n - 2]->Char_0.data);
                        self.machine.stack.truncate(n - 2);
                        proof {
                            assert(self.machine.stack_view() =~= stack.take(n - 2));
                            self.lemma_machine(&mid);
                        }
                        self.ask(Pending::Acknowledge);
                        Action::Write(path, contents)
                    },
                    Err(e) => self.fail(RuntimeError::Type(e, Operation::Builtin(p))),
                }
            },
            Primitive::Io(IoOp::Import) => {
                if n < 1 {
                    return self.fail(RuntimeError::StackUnderflow(Operation::Builtin(p)));
                }
                assert(stack[n - 1] == self.machine.stack@[n - 1]@);
                let path = match &self.machine.stack[n - 1] {
                    Value::Char(a) => {
                        let data = a.data();
                        string_of(&copy_range(data, 0, data.len()))
                    },
                    other => {
                        let kind = other.element_type();
                        return self.fail(
                            RuntimeError::Type(
                                TypeError::Type { left: kind, right: kind },
                                Operation::Builtin(p),
                            ),
                        );
                    },
                };
                assert(path@ =~= stack[n - 1]->Char_0.data);
                let _ = self.machine.pop();
                proof {
                    self.lemma_machine(&mid);
                }
                {
                    let index = self.paths.len();
                    let ghost mid2 = *self;
                    let sent = path.clone();
                    self.paths.push(path);
                    self.pending = Pending::Load(index);
                    proof {
                        assert(self.paths() =~= mid2.paths().push(sent@));
                        self.lemma_grown(&mid2);
                        assert forall|k: int| 0 <= k < self.tasks().len() implies (exists|j: int|
                            0 <= j < mid2.tasks().len() && mid2.tasks()[j]
                                == #[trigger] self.tasks()[k]) || self.task_ok(self.tasks()[k]) by {
                            assert(mid2.tasks()[k] == self.tasks()[k]);
                        }
                        self.lemma_wf(&mid2);
                    }
                    Action::Load(sent)
                }
            },
            _ => self.fail(RuntimeError::Unsupported(p)),
        }
    }

    /// Puts `v` on the stack.
    fn put(&mut self, v: Value)
        requires
            old(self).wf(),
        ensures
            final(self).wf(),
            final(self).machine.keeps(&old(self).machine),
            final(self).machine.stack_view() == old(self).machine.stack_view().push(v@),
            final(self).codes == old(self).codes,
            final(self).bodies == old(self).bodies,
            final(self).tasks == old(self).tasks,
            final(self).pending == old(self).pending,
            final(self).paths == old(self).paths,
            final(self).mode == old(self).mode,
    {
        self.machine.push(v);
        proof {
            self.lemma_machine(old(self));
        }
    }

    /// Enters a function into the table of functions and puts it on the stack.
    fn define_put(&mut self, name: Option<&str>, body: Body, Ghost(pre): Ghost<&Interpreter>) -> (action:
        Action)
        requires
            old(self).wf(),
            pre.wf(),
            old(self).continues(pre),
            old(self).machine.stack_view() == pre.machine.stack_view(),
            old(self).body_ok(body),
        ensures
            final(self).wf(),
            final(self).defined(
                pre,
                action,
                match name {
                    Some(n) => Some(fold(n@)),
                    None => None,
                },
                body,
                old(self).tasks(),
            ),
    {
        let f = self.define(name, body);
        let ghost before = self.machine.stack_view();
        self.put(Value::function(f));
        assert(before == pre.machine.stack_view());
        Action::Continue
    }

    /// Finds what the word `text` stands for.
    fn find_name(
        &mut self,
        text: Vec<char>,
        call: Option<u64>,
        calling: bool,
        Ghost(pre): Ghost<&Interpreter>,
    ) -> (action: Action)
        requires
            old(self).wf(),
            pre.wf(),
            old(self).continues(pre),
            old(self).machine.stack_view() == pre.machine.stack_view(),
        ensures
            final(self).wf(),
            final(self).named(pre, action, text@, call, old(self).tasks(), calling),
    {
        let is_argument = text.len() == 1 && 'a' <= text[0] && text[0] <= 'z';
        match call {
            Some(c) => {
                if is_argument {
                    return match self.machine.argument(c, text[0]) {
                        Ok(v) => {
                            self.put(v);
                            Action::Continue
                        },
                        Err(e) => self.fail(
                            RuntimeError::Binding(BindingError::ArgumentOutOfScope(text[0])),
                        ),
                    };
                }
            },
            None => {},
        }
        let name = string_of(&text);
        let found = match self.machine.bindings.lookup(name.as_str()) {
            Some(b) => Some(b.value.copy()),
            None => None,
        };
        match found {
            Some(value) => {
                let single = match &value {
                    Value::Func(a) => a.rank() == 0 && a.data().len() == 1,
                    _ => false,
                };
                if single && calling {
                    self.call_value(&value, Ghost(pre))
                } else {
                    self.put(value);
                    Action::Continue
                }
            },
            None => self.fail(RuntimeError::Binding(BindingError::UnknownName(name))),
        }
    }

    /// A step at the end of a stretch of tokens.
    fn finish_range(&mut self, code: usize, after: After) -> (action: Action)
        requires
            old(self).wf(),
            old(self).pending() is Nothing,
            old(self).tasks().len() > 0,
            old(self).tasks().last() is Range,
            old(self).tasks().last()->Range_code == code,
            old(self).tasks().last()->Range_after == after,
        ensures
            final(self).wf(),
            final(self).finished(old(self), action),
    {
        proof {
            assert(self.task_ok(self.tasks().last()));
            assert(self.codes()[code as int] == self.codes@[code as int]@);
        }
        let ghost pre = *self;
        match after {
            After::Nothing => {
                self.drop_task();
                Action::Continue
            },
            After::Collect(mark) => {
                let ghost mid = *self;
                let r = self.machine.collect(mark);
                proof {
                    self.lemma_machine(&mid);
                }
                match r {
                    Ok(_) => {
                        self.drop_task();
                        Action::Continue
                    },
                    Err(e) => self.fail(e),
                }
            },
            After::Leave => {
                let ghost mid = *self;
                self.machine.leave_dfn();
                proof {
                    self.lemma_machine(&mid);
                }
                self.drop_task();
                Action::Continue
            },
            After::Bind(k) => {
                let token = self.codes[code].tokens()[k];
                let source = self.codes[code].source();
                let name = string_of(&copy_range(source, token.start, token.end));
                let ghost mid = *self;
                let r = self.machine.bind_top(name.as_str());
                proof {
                    self.lemma_machine(&mid);
                }
                match r {
                    Ok(_) => {
                        self.drop_task();
                        Action::Continue
                    },
                    Err(e) => self.fail(e),
                }
            },
        }
    }

    /// Carries out the modifier `m` with the operand `operand`.
    fn modify(&mut self, m: Primitive, operand: Operand, Ghost(pre): Ghost<&Interpreter>) -> (action:
        Action)
        requires
            old(self).wf(),
            pre.wf(),
            old(self).continues(pre),
            old(self).machine.stack_view() == pre.machine.stack_view(),
            match operand {
                Operand::New(body) => old(self).body_ok(body),
                Operand::Known(_) => true,
            },
        ensures
            final(self).wf(),
            final(self).modified(pre, action, m, operand, old(self).tasks()),
    {
        let n = self.machine.stack.len();
        let ghost stack = self.machine.stack_view();
        let kind = match m {
            Primitive::Reduce => Some(Looping::Reduce),
            Primitive::Scan => Some(Looping::Scan),
            Primitive::Each => Some(Looping::Each),
            Primitive::Rows => Some(Looping::Rows),
            _ => None,
        };
        match kind {
            Some(kind) => {
                if n < 1 {
                    return self.fail(RuntimeError::StackUnderflow(Operation::Builtin(m)));
                }
                assert(stack[n - 1] == self.machine.stack@[n - 1]@);
                let top = &self.machine.stack[n - 1];
                let count = match kind {
                    Looping::Each => top.count(),
                    _ => top.length(),
                };
                let folds = count > 0 && match kind {
                    Looping::Reduce | Looping::Scan => true,
                    _ => false,
                };
                if count == 0 && matches!(kind, Looping::Reduce) {
                    return self.fail(
                        RuntimeError::Type(
                            TypeError::Index { index: 0, length: 0 },
                            Operation::Builtin(m),
                        ),
                    );
                }
                let first = if folds {
                    Self::item(top, kind, 0)
                } else {
                    None
                };
                let function = match operand {
                    Operand::New(body) => self.define(None, body),
                    Operand::Known(f) => f,
                };
                match first {
                    Some(item) => {
                        self.put(item);
                    },
                    None => {},
                }
                self.add_task(
                    Task::Loop {
                        kind,
                        function,
                        at: n - 1,
                        next: if folds {
                            1
                        } else {
                            count
                        },
                        count,
                    },
                );
                return Action::Continue;
            },
            None => {},
        }
        if !matches!(m, Primitive::Repeat) {
            return self.fail(RuntimeError::Unsupported(m));
        }
        if n < 1 {
            return self.fail(RuntimeError::StackUnderflow(Operation::Builtin(m)));
        }
        assert(stack[n - 1] == self.machine.stack@[n - 1]@);
        let count = match &self.machine.stack[n - 1] {
            Value::Num(a) => if a.rank() == 0 && a.data().len() == 1 {
                whole(a.data()[0])
            } else {
                return self.fail(
                    RuntimeError::Type(
                        TypeError::Type {
                            left: crate::error::ElementType::Number,
                            right: crate::error::ElementType::Number,
                        },
                        Operation::Builtin(m),
                    ),
                );
            },
            other => {
                let kind = other.element_type();
                return self.fail(
                    RuntimeError::Type(
                        TypeError::Type { left: kind, right: kind },
                        Operation::Builtin(m),
                    ),
                );
            },
        };
        let left: u64 = match count {
            Some(c) => if c < 0 {
                return self.fail(RuntimeError::Type(TypeError::NotWhole, Operation::Builtin(m)));
            } else {
                c as u64
            },
            None => {
                return self.fail(RuntimeError::Type(TypeError::NotWhole, Operation::Builtin(m)));
            },
        };
        let function = match operand {
            Operand::New(body) => self.define(None, body),
            Operand::Known(f) => f,
        };
        let ghost mid = *self;
        let _ = self.machine.pop();
        proof {
            self.lemma_machine(&mid);
        }
        self.add_task(Task::Repeat { function, left });
        Action::Continue
    }

    /// The row or element number `k` of `a` that a modifier feeds, where
    /// there is one.
    fn item(a: &Value, kind: Looping, k: usize) -> (r: Option<Value>)
        ensures
            r is Some <==> k < items_in(kind, a@),
            r is Some ==> r.unwrap()@ == item_of(kind, a@, k as int),
    {
        match kind {
            Looping::Each => a.element(k),
            _ => if a.rank() == 0 {
                let _ = a.shape();
                if k == 0 {
                    Some(a.copy())
                } else {
                    None
                }
            } else {
                a.row(k)
            },
        }
    }

    /// A step on a function that is being called on the rows or elements of
    /// an array.
    fn step_loop(&mut self, kind: Looping, function: Function, at: usize, next: usize, count: usize) -> (action:
        Action)
        requires
            old(self).wf(),
            old(self).pending() is Nothing,
            old(self).tasks().len() > 0,
            old(self).tasks().last() == (Task::Loop { kind, function, at, next, count }),
        ensures
            final(self).wf(),
            final(self).looped(old(self), action),
    {
        let ghost pre = *self;
        let ghost stack = self.machine.stack_view();
        let n = self.machine.stack.len();
        let mapping = matches!(kind, Looping::Each | Looping::Rows);
        let made: usize = if mapping {
            if next > count {
                return self.fail(RuntimeError::Signature);
            }
            count - next
        } else if matches!(kind, Looping::Reduce) {
            if count > 0 {
                1
            } else {
                0
            }
        } else {
            next
        };
        if at >= n || n - at - 1 != made {
            return self.fail(RuntimeError::Signature);
        }
        proof {
            assert(stack[at as int] == self.machine.stack@[at as int]@);
            assert(stack[n - 1] == self.machine.stack@[n - 1]@);
        }
        let done = if mapping {
            next == 0
        } else {
            next >= count
        };
        if done {
            let result: Value = if count == 0 {
                self.machine.stack[at].copy()
            } else if matches!(kind, Looping::Reduce) {
                self.machine.stack[n - 1].copy()
            } else {
                let rows = match self.machine.rows_above(at + 1) {
                    Ok(rows) => rows,
                    Err(e) => {
                        return self.fail(
                            RuntimeError::Type(e, Operation::Builtin(loop_modifier(kind)),
                        ));
                    },
                };
                match kind {
                    Looping::Scan => rows.reverse(),
                    Looping::Rows => rows,
                    _ => {
                        let mut shape = copy_sizes(self.machine.stack[at].shape());
                        let inner = rows.shape();
                        let mut d: usize = 1;
                        let ghost outer = shape@;
                        assert(inner@.subrange(1, 1) =~= Seq::<usize>::empty());
                        while d < inner.len()
                            invariant
                                1 <= d <= inner.len(),
                                shape@ == outer + inner@.subrange(1, d as int),
                            decreases inner.len() - d,
                        {
                            shape.push(inner[d]);
                            d = d + 1;
                            assert(shape@ =~= outer + inner@.subrange(1, d as int));
                        }
                        proof {
                            if inner@.len() >= 1 {
                                assert(inner@.subrange(1, inner@.len() as int)
                                    =~= inner@.drop_first());
                            }
                        }
                        if inner.len() < 1 {
                            return self.fail(RuntimeError::Signature);
                        }
                        match rows.reshape(shape) {
                            Some(made) => made,
                            None => {
                                return self.fail(
                                    RuntimeError::Type(
                                        TypeError::TooLarge,
                                        Operation::Builtin(loop_modifier(kind),
                                    ),
                                ));
                            },
                        }
                    },
                }
            };
            let ghost mid = *self;
            self.machine.stack.truncate(at);
            self.machine.stack.push(result);
            proof {
                assert(self.machine.stack_view() =~= stack.take(at as int).push(result@));
                self.lemma_machine(&mid);
            }
            self.drop_task();
            return Action::Continue;
        }
        let k = if mapping {
            next - 1
        } else {
            next
        };
        let item = match Self::item(&self.machine.stack[at], kind, k) {
            Some(item) => item,
            None => {
                return self.fail(RuntimeError::Signature);
            },
        };
        match kind {
            Looping::Reduce => {
                let ghost mid = *self;
                let acc = self.machine.stack.pop().unwrap();
                self.machine.stack.push(item);
                self.machine.stack.push(acc);
                proof {
                    assert(self.machine.stack_view() =~= stack.drop_last().push(item@).push(
                        stack.last(),
                    ));
                    self.lemma_machine(&mid);
                }
            },
            Looping::Scan => {
                let acc = self.machine.stack[n - 1].copy();
                self.put(item);
                self.put(acc);
            },
            _ => {
                self.put(item);
            },
        }
        let after = if mapping {
            next - 1
        } else {
            if next == usize::MAX {
                return self.fail(RuntimeError::Exhausted);
            }
            next + 1
        };
        self.set_top(Task::Loop { kind, function, at, next: after, count });
        let v = Value::function(function);
        self.call_value(&v, Ghost(&pre))
    }

    /// A step on a function that is being repeated.
    fn step_repeat(&mut self, function: Function, left: u64) -> (action: Action)
        requires
            old(self).wf(),
            old(self).pending() is Nothing,
            old(self).tasks().len() > 0,
            old(self).tasks().last() == (Task::Repeat { function, left }),
        ensures
            final(self).wf(),
            final(self).repeated(old(self), action),
    {
        let ghost pre = *self;
        if left == 0 {
            self.drop_task();
            return Action::Continue;
        }
        self.set_top(Task::Repeat { function, left: left - 1 });
        let v = Value::function(function);
        self.call_value(&v, Ghost(&pre))
    }

    /// A step on the last token of a stretch of tokens.
    fn step_token(&mut self, code: usize, lo: usize, at: usize, call: Option<u64>, after: After) -> (action:
        Action)
        requires
            old(self).wf(),
            old(self).pending() is Nothing,
            old(self).tasks().len() > 0,
            old(self).tasks().last() == (Task::Range { code, lo, at, call, after }),
            at > lo,
        ensures
            final(self).wf(),
            final(self).tokened(old(self), action),
    {
        proof {
            assert(self.task_ok(self.tasks().last()));
            assert(self.codes()[code as int] == self.codes@[code as int]@);
        }
        let ghost pre = *self;
        let j = at - 1;
        let tokens = self.codes[code].tokens();
        let source = self.codes[code].source();
        let token = tokens[j];
        let partner = self.codes[code].partner(j);
        if matches!(token.kind, Kind::Close(_)) && partner < lo {
            return self.fail(RuntimeError::Syntax { position: token.start });
        }
        let first = if token.kind == Kind::Close(Bracket::Round) {
            partner
        } else {
            j
        };
        if first > lo {
            match tokens[first - 1].kind {
                Kind::Primitive(m) => {
                    let operand = matches!(token.kind, Kind::Primitive(_))
                        || matches!(token.kind, Kind::Name) || token.kind == Kind::Close(
                        Bracket::Round,
                    );
                    let modifier = matches!(
                        m,
                        Primitive::Reduce | Primitive::Scan | Primitive::Each | Primitive::Rows
                            | Primitive::Repeat
                    );
                    if operand && modifier {
                        let rest = Task::Range { code, lo, at: first - 1, call, after };
                        return match token.kind {
                            Kind::Primitive(q) => {
                                self.set_top(rest);
                                self.modify(m, Operand::New(Body::Primitive(q)), Ghost(&pre))
                            },
                            Kind::Name => {
                                let name = string_of(&copy_range(source, token.start, token.end));
                                let found = match self.machine.bindings.lookup(name.as_str()) {
                                    Some(b) => Some(
                                        match &b.value {
                                            Value::Func(a) => if a.rank() == 0 && a.data().len()
                                                == 1 {
                                                Ok(a.data()[0])
                                            } else {
                                                Err(b.value.element_type())
                                            },
                                            other => Err(other.element_type()),
                                        },
                                    ),
                                    None => None,
                                };
                                match found {
                                    Some(Ok(f)) => {
                                        self.set_top(rest);
                                        self.modify(m, Operand::Known(f), Ghost(&pre))
                                    },
                                    Some(Err(kind)) => self.fail(
                                        RuntimeError::Type(
                                            TypeError::Type { left: kind, right: kind },
                                            Operation::Builtin(m),
                                        ),
                                    ),
                                    None => self.fail(
                                        RuntimeError::Binding(BindingError::UnknownName(name)),
                                    ),
                                }
                            },
                            _ => {
                                self.set_top(rest);
                                self.modify(
                                    m,
                                    Operand::New(Body::Block { code, lo: partner + 1, hi: j, call }),
                                    Ghost(&pre),
                                )
                            },
                        };
                    }
                },
                _ => {},
            }
        }
        if first > lo && matches!(tokens[first - 1].kind, Kind::Strand) {
            let mark = self.machine.depth();
            self.add_task(Task::Strand { code, lo, at, call, mark, pushed: false });
            return Action::Continue;
        }
        let rest = Task::Range { code, lo, at: first, call, after };
        match token.kind {
            Kind::Number => {
                let text = string_of(&copy_range(source, token.start, token.end));
                self.set_top(rest);
                self.ask(Pending::Number);
                Action::Literal(text)
            },
            Kind::Character(c) => {
                self.set_top(rest);
                self.put(Value::character(c));
                Action::Continue
            },
            Kind::Text => {
                let chars = if token.end - token.start >= 2 {
                    unescape(source, token.start + 1, token.end - 1)
                } else {
                    Vec::new()
                };
                self.set_top(rest);
                self.put(Value::Char(Array::list(chars)));
                Action::Continue
            },
            Kind::Name => {
                let text = copy_range(source, token.start, token.end);
                self.set_top(rest);
                self.find_name(text, call, true, Ghost(&pre))
            },
            Kind::Primitive(p) => {
                self.set_top(rest);
                self.perform(p, Ghost(&pre))
            },
            Kind::Close(Bracket::Square) => {
                let mark = self.machine.depth();
                self.set_top(Task::Range { code, lo, at: partner, call, after });
                self.add_task(
                    Task::Range { code, lo: partner + 1, at: j, call, after: After::Collect(mark) },
                );
                Action::Continue
            },
            Kind::Close(Bracket::Round) => {
                self.set_top(rest);
                self.define_put(None, Body::Block { code, lo: partner + 1, hi: j, call }, Ghost(&pre))
            },
            Kind::Close(Bracket::Curly) => {
                let open = tokens[partner];
                let arity = arity_between(source, open.end, token.start);
                let function = Function { id: self.machine.functions.len() };
                self.set_top(Task::Range { code, lo, at: partner, call, after });
                self.enter(
                    function,
                    code,
                    partner + 1,
                    j,
                    arity,
                    Some(Body::Dfn { code, lo: partner + 1, hi: j, arity }),
                    Ghost(&pre),
                )
            },
            _ => self.fail(RuntimeError::Syntax { position: token.start }),
        }
    }

    /// A step on a strand.
    fn step_strand(
        &mut self,
        code: usize,
        lo: usize,
        at: usize,
        call: Option<u64>,
        mark: usize,
        pushed: bool,
    ) -> (action: Action)
        requires
            old(self).wf(),
            old(self).pending() is Nothing,
            old(self).tasks().len() > 0,
            old(self).tasks().last() == (Task::Strand { code, lo, at, call, mark, pushed }),
        ensures
            final(self).wf(),
            final(self).stranded(old(self), action),
    {
        proof {
            assert(self.task_ok(self.tasks().last()));
            assert(self.codes()[code as int] == self.codes@[code as int]@);
        }
        let ghost pre = *self;
        let j = at - 1;
        let tokens = self.codes[code].tokens();
        let source = self.codes[code].source();
        let token = tokens[j];
        let partner = self.codes[code].partner(j);
        if !pushed {
            let done = Task::Strand { code, lo, at, call, mark, pushed: true };
            match token.kind {
                Kind::Number => {
                    let text = string_of(&copy_range(source, token.start, token.end));
                    self.set_top(done);
                    self.ask(Pending::Number);
                    Action::Literal(text)
                },
                Kind::Character(c) => {
                    self.set_top(done);
                    self.put(Value::character(c));
                    Action::Continue
                },
                Kind::Text => {
                    let chars = if token.end - token.start >= 2 {
                        unescape(source, token.start + 1, token.end - 1)
                    } else {
                        Vec::new()
                    };
                    self.set_top(done);
                    self.put(Value::Char(Array::list(chars)));
                    Action::Continue
                },
                Kind::Name => {
                    let text = copy_range(source, token.start, token.end);
                    self.set_top(done);
                    self.find_name(text, call, false, Ghost(&pre))
                },
                Kind::Primitive(p) => {
                    self.set_top(done);
                    self.define_put(p.name(), Body::Primitive(p), Ghost(&pre))
                },
                Kind::Close(Bracket::Round) => {
                    if partner < lo {
                        return self.fail(RuntimeError::Syntax { position: token.start });
                    }
                    self.set_top(
                        Task::Strand { code, lo, at: partner + 1, call, mark, pushed: true },
                    );
                    self.define_put(
                        None,
                        Body::Block { code, lo: partner + 1, hi: j, call },
                        Ghost(&pre),
                    )
                },
                _ => self.fail(RuntimeError::Syntax { position: token.start }),
            }
        } else if j > lo && matches!(tokens[j - 1].kind, Kind::Strand) {
            if j - 1 > lo {
                self.set_top(Task::Strand { code, lo, at: j - 1, call, mark, pushed: false });
                Action::Continue
            } else {
                let position = tokens[j - 1].start;
                self.fail(RuntimeError::Syntax { position })
            }
        } else {
            let n = self.tasks.len();
            let parent = if n >= 2 {
                match self.tasks[n - 2] {
                    Task::Range { code: c, lo: l, at: a, call: k, after } => if c == code && l <= j
                        && j <= a {
                        Some(Task::Range { code, lo: l, at: j, call: k, after })
                    } else {
                        None
                    },
                    _ => None,
                }
            } else {
                None
            };
            match parent {
                Some(task) => {
                    let ghost mid = *self;
                    let r = self.machine.collect(mark);
                    proof {
                        self.lemma_machine(&mid);
                    }
                    match r {
                        Ok(_) => {
                            self.drop_task();
                            self.set_top(task);
                            assert(self.tasks() =~= pre.tasks().take(n - 2).push(task));
                            Action::Continue
                        },
                        Err(e) => self.fail(e),
                    }
                },
                None => self.fail(RuntimeError::Host),
            }
        }
    }

    /// Closes the question that is open.
    fn settle(&mut self)
        requires
            old(self).wf(),
        ensures
            final(self).wf(),
            final(self).pending() is Nothing,
            final(self).machine == old(self).machine,
            final(self).codes == old(self).codes,
            final(self).bodies == old(self).bodies,
            final(self).tasks == old(self).tasks,
            final(self).paths == old(self).paths,
            final(self).mode == old(self).mode,
    {
        self.ask(Pending::Nothing);
    }

    /// Replaces the top of the stack by `v`.
    fn swap_top(&mut self, v: Value)
        requires
            old(self).wf(),
            old(self).machine.stack_view().len() >= 1,
        ensures
            final(self).wf(),
            final(self).machine.keeps(&old(self).machine),
            final(self).machine.stack_view() == old(self).machine.stack_view().drop_last().push(v@),
            final(self).codes == old(self).codes,
            final(self).bodies == old(self).bodies,
            final(self).tasks == old(self).tasks,
            final(self).pending == old(self).pending,
            final(self).paths == old(self).paths,
            final(self).mode == old(self).mode,
    {
        self.machine.replace_top(v);
        proof {
            self.lemma_machine(old(self));
        }
    }

    /// Whether every one of `bits` is the number 0 or the number 1.
    fn all_truths(bits: &Vec<u64>) -> (r: bool)
        ensures
            r == truths(bits@),
    {
        let mut k: usize = 0;
        while k < bits.len()
            invariant
                k <= bits.len(),
                forall|i: int| 0 <= i < k ==> #[trigger] bits@[i] == ZERO || bits@[i] == ONE,
            decreases bits.len() - k,
        {
            if bits[k] != ZERO && bits[k] != ONE {
                return false;
            }
            k = k + 1;
        }
        true
    }

    /// A step that takes the answer of the host.
    fn resume(&mut self, event: Event) -> (action: Action)
        requires
            old(self).wf(),
            !(old(self).pending() is Nothing),
        ensures
            final(self).wf(),
            final(self).resumed(old(self), event, action),
    {
        let n = self.machine.stack.len();
        let ghost stack = self.machine.stack_view();
        proof {
            if n >= 1 {
                assert(stack[n - 1] == self.machine.stack@[n - 1]@);
            }
            if n >= 2 {
                assert(stack[n - 2] == self.machine.stack@[n - 2]@);
            }
        }
        match self.pending {
            Pending::Nothing => Action::Continue,
            Pending::Number => match event {
                Event::Numbers(bits) => {
                    if bits.len() != 1 {
                        return self.fail(RuntimeError::Host);
                    }
                    self.settle();
                    self.put(Value::number(bits[0]));
                    Action::Continue
                },
                _ => self.fail(RuntimeError::Host),
            },
            Pending::Monadic => match event {
                Event::Numbers(bits) => {
                    if n < 1 {
                        return self.fail(RuntimeError::Host);
                    }
                    let shape = match &self.machine.stack[n - 1] {
                        Value::Num(a) => copy_sizes(a.shape()),
                        _ => {
                            return self.fail(RuntimeError::Host);
                        },
                    };
                    match Array::new(shape, bits) {
                        Some(a) => {
                            self.settle();
                            self.swap_top(Value::Num(a));
                            Action::Continue
                        },
                        None => self.fail(RuntimeError::Host),
                    }
                },
                _ => self.fail(RuntimeError::Host),
            },
            Pending::Dyadic(p) => match event {
                Event::Numbers(bits) => {
                    if n < 2 {
                        return self.fail(RuntimeError::Host);
                    }
                    let compares = matches!(
                        p,
                        Primitive::Eq | Primitive::Ne | Primitive::Lt | Primitive::Le
                            | Primitive::Gt | Primitive::Ge
                    );
                    if compares && !Self::all_truths(&bits) {
                        return self.fail(RuntimeError::Host);
                    }
                    let shape = match (&self.machine.stack[n - 1], &self.machine.stack[n - 2]) {
                        (Value::Num(a), Value::Num(b)) => crate::shape::pervasive_shape(
                            a.shape(),
                            b.shape(),
                        ),
                        _ => None,
                    };
                    let made = match shape {
                        Some(shape) => Array::new(shape, bits),
                        None => None,
                    };
                    match made {
                        Some(a) => {
                            self.settle();
                            let ghost mid = *self;
                            self.machine.replace_two(Value::Num(a));
                            proof {
                                self.lemma_machine(&mid);
                            }
                            Action::Continue
                        },
                        None => self.fail(RuntimeError::Host),
                    }
                },
                _ => self.fail(RuntimeError::Host),
            },
            Pending::Acknowledge => match event {
                Event::Go => {
                    self.settle();
                    Action::Continue
                },
                _ => self.fail(RuntimeError::Host),
            },
            Pending::Load(p) => match event {
                Event::Source(Some(file)) => {
                    let ghost pre = *self;
                    if self.machine.import_known(file.path.as_str()) {
                        proof {
                            self.lemma_machine(&pre);
                        }
                        self.settle();
                        return Action::Continue;
                    }
                    proof {
                        self.lemma_machine(&pre);
                    }
                    match Code::new(file.text.as_str()) {
                        Ok(code) => {
                            self.settle();
                            let index = self.codes.len();
                            let place = self.paths.len();
                            let mark = self.machine.depth();
                            let ghost mid = *self;
                            let ghost view = code@;
                            proof {
                                let c = code;
                                assert(c@.wf());
                            }
                            self.codes.push(code);
                            self.paths.push(file.path);
                            self.tasks.push(
                                Task::Lines { code: index, next: 0, import: Some(place), mark },
                            );
                            proof {
                                assert(self.codes() =~= mid.codes().push(view));
                                assert(self.paths() =~= mid.paths().push(file.path@));
                                self.lemma_grown(&mid);
                                assert forall|k: int|
                                    0 <= k < self.tasks().len() implies (exists|j: int|
                                    0 <= j < mid.tasks().len() && mid.tasks()[j]
                                        == #[trigger] self.tasks()[k]) || self.task_ok(
                                    self.tasks()[k],
                                ) by {
                                    if k < mid.tasks().len() {
                                        assert(mid.tasks()[k] == self.tasks()[k]);
                                    }
                                }
                                self.lemma_wf(&mid);
                            }
                            Action::Continue
                        },
                        Err(e) => self.fail(RuntimeError::Source(e)),
                    }
                },
                Event::Source(None) => {
                    assert(self.paths()[p as int] == self.paths@[p as int]@);
                    let path = self.paths[p].clone();
                    self.fail(RuntimeError::Import(path))
                },
                _ => self.fail(RuntimeError::Host),
            },
        }
    }

    /// Carries out one step.
    ///
    /// The event is the answer to the question that the step before has
    /// asked; where it has asked none, the event does not matter.
    pub fn step(&mut self, event: Event) -> (action: Action)
        requires
            old(self).wf(),
        ensures
            final(self).wf(),
            final(self).stepped(old(self), event, action),
    {
        if !matches!(self.pending, Pending::Nothing) {
            return self.resume(event);
        }
        let n = self.tasks.len();
        if n == 0 {
            return Action::Done;
        }
        let ghost pre = *self;
        match self.tasks[n - 1] {
            Task::Lines { code, next, import, mark } => self.step_lines(code, next, import, mark),
            Task::Range { code, lo, at, call, after } => {
                if at == lo {
                    self.finish_range(code, after)
                } else {
                    proof {
                        assert(self.task_ok(self.tasks().last()));
                    }
                    self.step_token(code, lo, at, call, after)
                }
            },
            Task::Strand { code, lo, at, call, mark, pushed } => self.step_strand(
                code,
                lo,
                at,
                call,
                mark,
                pushed,
            ),
            Task::Perform(p) => {
                self.drop_task();
                self.perform(p, Ghost(&pre))
            },
            Task::Repeat { function, left } => self.step_repeat(function, left),
            Task::Loop { kind, function, at, next, count } => self.step_loop(
                kind,
                function,
                at,
                next,
                count,
            ),
        }
    }

    /// The place where the line of the token number `next` ends.
    fn find_line_stop(tokens: &Vec<Token>, next: usize) -> (stop: usize)
        requires
            next <= tokens@.len(),
        ensures
            stop == line_stop(tokens@, next as nat),
            next <= stop <= tokens@.len(),
    {
        let mut stop: usize = next;
        while stop < tokens.len() && !matches!(tokens[stop].kind, Kind::Line)
            invariant
                next <= stop <= tokens@.len(),
                line_stop(tokens@, next as nat) == line_stop(tokens@, stop as nat),
            decreases tokens@.len() - stop,
        {
            stop = stop + 1;
        }
        stop
    }

    /// A step on the lines of a code.
    fn step_lines(&mut self, code: usize, next: usize, import: Option<usize>, mark: usize) -> (action:
        Action)
        requires
            old(self).wf(),
            old(self).pending() is Nothing,
            old(self).tasks().len() > 0,
            old(self).tasks().last() == (Task::Lines { code, next, import, mark }),
        ensures
            final(self).wf(),
            final(self).lined(old(self), action),
    {
        proof {
            assert(self.task_ok(self.tasks().last()));
            assert(self.codes()[code as int] == self.codes@[code as int]@);
        }
        let length = self.codes[code].tokens().len();
        if next >= length {
            self.drop_task();
            match import {
                Some(p) => {
                    assert(self.paths()[p as int] == self.paths@[p as int]@);
                    let path = self.paths[p].clone();
                    self.machine.import_done(path.as_str(), mark);
                },
                None => {},
            }
            proof {
                assert forall|k: int| 0 <= k < self.tasks().len() implies self.task_ok(
                    #[trigger] self.tasks()[k],
                ) by {
                    assert(old(self).task_ok(old(self).tasks()[k]));
                }
            }
            return Action::Continue;
        }
        let tokens = self.codes[code].tokens();
        let stop = Self::find_line_stop(tokens, next);
        let after = if stop < length {
            stop + 1
        } else {
            length
        };
        let rest = Task::Lines { code, next: after, import, mark };
        let first = tokens[next];
        if stop == next {
            self.set_top(rest);
            return Action::Continue;
        }
        let second_is_arrow = next + 1 < stop && matches!(tokens[next + 1].kind, Kind::Arrow);
        match first.kind {
            Kind::Scope => {
                if self.machine.frames.len() > 0 {
                    assert(self.machine.frame_views().len() > 0);
                    return self.fail(RuntimeError::Syntax { position: first.start });
                }
                assert(self.machine.frame_views().len() == 0);
                self.set_top(rest);
                self.machine.toggle_scope();
                Action::Continue
            },
            Kind::Name => {
                if second_is_arrow {
                    let source = self.codes[code].source();
                    let name = string_of(&copy_range(source, first.start, first.end));
                    if next + 2 == stop {
                        if self.machine.scope_base >= self.machine.depth() {
                            return self.fail(RuntimeError::StackUnderflow(Operation::Bind));
                        }
                        self.set_top(rest);
                        let _ = self.machine.bind_leftover(name.as_str());
                        Action::Continue
                    } else if binds_function(name.as_str()) {
                        self.set_top(rest);
                        let ghost before = self.machine.stack_view();
                        let f = self.define(
                            Some(name.as_str()),
                            Body::Block { code, lo: next + 2, hi: stop, call: None },
                        );
                        self.machine.push(Value::function(f));
                        let _ = self.machine.bind_top(name.as_str());
                        proof {
                            assert(self.machine.stack_view() =~= before);
                            assert forall|k: int| 0 <= k < self.bodies().len() implies self.body_ok(
                                #[trigger] self.bodies()[k],
                            ) by {}
                            assert forall|k: int| 0 <= k < self.tasks().len() implies self.task_ok(
                                #[trigger] self.tasks()[k],
                            ) by {}
                        }
                        Action::Continue
                    } else {
                        self.set_top(rest);
                        self.add_task(
                            Task::Range {
                                code,
                                lo: next + 2,
                                at: stop,
                                call: None,
                                after: After::Bind(next),
                            },
                        );
                        Action::Continue
                    }
                } else {
                    self.set_top(rest);
                    self.add_task(
                        Task::Range { code, lo: next, at: stop, call: None, after: After::Nothing },
                    );
                    Action::Continue
                }
            },
            _ => {
                self.set_top(rest);
                self.add_task(
                    Task::Range { code, lo: next, at: stop, call: None, after: After::Nothing },
                );
                Action::Continue
            },
        }
    }
}

fn loop_modifier(kind: Looping) -> (m: Primitive)
    ensures
        m == modifier_of(kind),
{
    match kind {
        Looping::Reduce => Primitive::Reduce,
        Looping::Scan => Primitive::Scan,
        Looping::Each => Primitive::Each,
        Looping::Rows => Primitive::Rows,
    }
}

fn copy_numbers(v: &Vec<u64>) -> (r: Vec<u64>)
    ensures
        r@ == v@,
{
    let mut r: Vec<u64> = Vec::new();
    let mut k: usize = 0;
    while k < v.len()
        invariant
            k <= v.len(),
            r@ == v@.take(k as int),
        decreases v.len() - k,
    {
        r.push(v[k]);
        k = k + 1;
        assert(r@ =~= v@.take(k as int));
    }
    assert(v@.take(v@.len() as int) =~= v@);
    r
}

fn copy_sizes(v: &Vec<usize>) -> (r: Vec<usize>)
    ensures
        r@ == v@,
{
    let mut r: Vec<usize> = Vec::new();
    let mut k: usize = 0;
    while k < v.len()
        invariant
            k <= v.len(),
            r@ == v@.take(k as int),
        decreases v.len() - k,
    {
        r.push(v[k]);
        k = k + 1;
        assert(r@ =~= v@.take(k as int));
    }
    assert(v@.take(v@.len() as int) =~= v@);
    r
}

/// The numbers that count `counts`, where a number can count them.
fn count_bits(counts: &Vec<usize>) -> (r: Option<Vec<u64>>)
    ensures
        match r {
            Some(bits) => bits@ == counted(counts@) && !uncountable(counts@),
            None => uncountable(counts@),
        },
{
    let mut bits: Vec<u64> = Vec::new();
    let mut k: usize = 0;
    proof {
        vstd::arithmetic::power2::lemma2_to64_rest();
    }
    while k < counts.len()
        invariant
            k <= counts.len(),
            bits@.len() == k,
            vstd::arithmetic::power2::pow2(53) == 2 * FRACTION,
            forall|i: int| 0 <= i < k ==> #[trigger] counts@[i] < 2 * FRACTION,
            forall|i: int| 0 <= i < k ==> #[trigger] bits@[i] == bits_of(counts@[i] as int),
        decreases counts.len() - k,
    {
        let count = counts[k] as u64;
        if count >= 2 * FRACTION {
            return None;
        }
        match whole_bits(count as i64) {
            Some(b) => {
                bits.push(b);
            },
            None => {
                return None;
            },
        }
        k = k + 1;
    }
    assert(bits@ =~= counted(counts@));
    Some(bits)
}

} // verus!
