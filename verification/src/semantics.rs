//! What a step of the interpreter does.
//!
//! A step depends on what the interpreter is in the middle of: it takes the
//! answer of the host to an open question, or goes on with the innermost
//! task. Every function here says of one kind of step how the interpreter
//! after the step, and the action that the step hands out, follow from the
//! interpreter before it.

use vstd::prelude::*;
use crate::array::ArrayView;
use crate::calls::{argument_of, arguments};
use crate::chars::{affine, affine_fault};
use crate::code::{Code, CodeView};
use crate::dfn::arity_of;
use crate::error::{BindingError, ElementType, Operation, RuntimeError, TypeError};
use crate::import::{cache_after, recorded, Request};
use crate::interpreter::{
    Action, After, Body, Event, Interpreter, Looping, Pending, Task,
};
use crate::lex::is_lower;
use crate::machine::{below, gathered, rows_fault, rows_of, FrameView};
use crate::modules::{function_value, is_first_called, left_since};
use crate::names::{fold, names_function};
use crate::number::{bits_of, whole_of, FRACTION, ONE, ZERO};
use crate::primitive::{IoOp, Primitive};
use crate::scope::BindingsView;
use crate::shape::{broadcast, compatible, length_of, size, span};
use crate::token::{unescaped, Bracket, Kind, Token};
use crate::value::{couple_fault, coupled, join_fault, joined, Function, ValueView};

verus! {

/// A built-in that works on every number of one array.
pub open spec fn is_monadic(p: Primitive) -> bool {
    p == Primitive::Neg || p == Primitive::Abs || p == Primitive::Sqrt || p == Primitive::Sign || p
        == Primitive::Floor || p == Primitive::Ceil || p == Primitive::Round
}

/// A built-in that compares. There are no truth values: what it answers is
/// the number 0 or the number 1.
pub open spec fn is_comparison(p: Primitive) -> bool {
    p == Primitive::Eq || p == Primitive::Ne || p == Primitive::Lt || p == Primitive::Le || p
        == Primitive::Gt || p == Primitive::Ge
}

/// Whether every one of `bits` is the number 0 or the number 1.
pub open spec fn truths(bits: Seq<u64>) -> bool {
    forall|i: int| 0 <= i < bits.len() ==> #[trigger] bits[i] == ZERO || bits[i] == ONE
}

/// A built-in that works on the pairs of elements of two arrays.
pub open spec fn is_dyadic(p: Primitive) -> bool {
    p == Primitive::Eq || p == Primitive::Ne || p == Primitive::Lt || p == Primitive::Le || p
        == Primitive::Gt || p == Primitive::Ge || p == Primitive::Add || p == Primitive::Sub || p
        == Primitive::Mul || p == Primitive::Div || p == Primitive::Mod || p == Primitive::Pow || p
        == Primitive::Min || p == Primitive::Max
}

/// The pairs of elements that meet in an elementwise operation on `a` and
/// `b`, in the order of the elements of the result. The element of `a` is
/// the first of each pair.
pub open spec fn pairs_of(a: ArrayView<u64>, b: ArrayView<u64>) -> Seq<(u64, u64)> {
    let shape = broadcast(a.shape, b.shape);
    Seq::new(
        size(shape),
        |i: int| (a.data[i / span(a.shape, shape) as int], b.data[i / span(b.shape, shape) as int]),
    )
}

/// What the built-in `p` counts of an array of the shape `shape`: its axes,
/// its rows, or the number of its axes.
pub open spec fn counts_of(p: Primitive, shape: Seq<usize>) -> Seq<usize> {
    if p == Primitive::Shape {
        shape
    } else if p == Primitive::Len {
        seq![length_of(shape) as usize]
    } else {
        seq![shape.len() as usize]
    }
}

/// Whether one of `counts` is too large for a number to count it exactly.
pub open spec fn uncountable(counts: Seq<usize>) -> bool {
    exists|i: int| 0 <= i < counts.len() && #[trigger] counts[i] >= 2 * FRACTION
}

/// The numbers that count `counts`.
pub open spec fn counted(counts: Seq<usize>) -> Seq<u64> {
    Seq::new(counts.len(), |i: int| bits_of(counts[i] as int))
}

/// The number of rows that can be taken out of an array of the shape
/// `shape`: the size of its first axis, and none for a scalar.
pub open spec fn rows_in(shape: Seq<usize>) -> int {
    if shape.len() > 0 {
        shape[0] as int
    } else {
        0
    }
}

/// The modifier that calls its operand in the way `kind`.
pub open spec fn modifier_of(kind: Looping) -> Primitive {
    match kind {
        Looping::Reduce => Primitive::Reduce,
        Looping::Scan => Primitive::Scan,
        Looping::Each => Primitive::Each,
        Looping::Rows => Primitive::Rows,
    }
}

/// The way in which the modifier `m` calls its operand on an array, where
/// it does.
pub open spec fn looping(m: Primitive) -> Option<Looping> {
    if m == Primitive::Reduce {
        Some(Looping::Reduce)
    } else if m == Primitive::Scan {
        Some(Looping::Scan)
    } else if m == Primitive::Each {
        Some(Looping::Each)
    } else if m == Primitive::Rows {
        Some(Looping::Rows)
    } else {
        None
    }
}

/// The number of rows or elements of `a` that a modifier calls its operand
/// on. A scalar is a single row.
pub open spec fn items_in(kind: Looping, a: ValueView) -> nat {
    if kind is Each {
        a.count()
    } else {
        length_of(a.shape())
    }
}

/// The row or element number `k` of `a` that a modifier calls its operand on.
pub open spec fn item_of(kind: Looping, a: ValueView, k: int) -> ValueView {
    if kind is Each {
        a.element(k)
    } else if a.shape().len() == 0 {
        a
    } else {
        a.row(k)
    }
}

/// Whether a modifier of the kind `kind` goes over every row or element,
/// rather than folding them.
pub open spec fn maps(kind: Looping) -> bool {
    kind is Each || kind is Rows
}

/// A built-in that takes the function behind it as its operand, and calls
/// it as it sees fit.
pub open spec fn is_modifier(p: Primitive) -> bool {
    p == Primitive::Reduce || p == Primitive::Scan || p == Primitive::Each || p == Primitive::Rows
        || p == Primitive::Repeat
}

/// Whether a token of the kind `kind` can be the operand of a modifier: a
/// built-in, a word, or a function in brackets.
pub open spec fn is_operand(kind: Kind) -> bool {
    kind is Primitive || kind is Name || kind == Kind::Close(Bracket::Round)
}

/// The scalar number with the bit pattern `bits`.
pub open spec fn number_value(bits: u64) -> ValueView {
    ValueView::Num(ArrayView { shape: Seq::empty(), data: seq![bits] })
}

/// The array of numbers with the shape `shape` and the bit patterns `bits`.
pub open spec fn numbers_value(shape: Seq<usize>, bits: Seq<u64>) -> ValueView {
    ValueView::Num(ArrayView { shape, data: bits })
}

/// The scalar character `c`.
pub open spec fn character_value(c: char) -> ValueView {
    ValueView::Char(ArrayView { shape: Seq::empty(), data: seq![c] })
}

/// The string of the characters `text`.
pub open spec fn text_value(text: Seq<char>) -> ValueView {
    ValueView::Char(ArrayView { shape: seq![text.len() as usize], data: text })
}

/// What stands between the quotes of the string `token` of the code `code`.
pub open spec fn contents(code: CodeView, token: Token) -> Seq<char> {
    if token.end - token.start >= 2 {
        code.source.subrange(token.start + 1, token.end - 1)
    } else {
        Seq::empty()
    }
}

/// The place of the token that ends the line which the token number `next`
/// stands in: the next end of a line, or the end of the tokens.
pub open spec fn line_stop(tokens: Seq<Token>, next: nat) -> nat
    decreases tokens.len() - next,
{
    if next >= tokens.len() {
        tokens.len()
    } else if tokens[next as int].kind is Line {
        next
    } else {
        line_stop(tokens, next + 1)
    }
}

/// The place of the first token of the line behind the one that ends at `stop`.
pub open spec fn line_after(tokens: Seq<Token>, stop: nat) -> nat {
    if stop < tokens.len() {
        stop + 1
    } else {
        tokens.len()
    }
}

/// The text of the token `token` of the code `code`.
pub open spec fn text_of(code: CodeView, token: Token) -> Seq<char> {
    code.source.subrange(token.start as int, token.end as int)
}

/// `tasks` with its last task replaced by `task`.
pub open spec fn with_top(tasks: Seq<Task>, task: Task) -> Seq<Task> {
    tasks.drop_last().push(task)
}

/// The operand of a modifier: a function that the operand makes, or one
/// that is there already.
pub enum Operand {
    New(Body),
    Known(Function),
}

/// An elementwise operation meets the same elements whatever the order of
/// its operands: with the operands exchanged, every pair is the same pair
/// the other way round. So an operation whose arithmetic does not depend on
/// the order of a pair, like adding, gives the same result for both orders
/// of its operands, and one whose arithmetic does, like subtracting, does not.
pub proof fn lemma_pairs_exchanged(a: ArrayView<u64>, b: ArrayView<u64>)
    requires
        compatible(a.shape, b.shape),
    ensures
        pairs_of(b, a).len() == pairs_of(a, b).len(),
        pairs_of(a, b).len() == size(broadcast(a.shape, b.shape)),
        forall|i: int|
            0 <= i < pairs_of(a, b).len() ==> (#[trigger] pairs_of(b, a)[i]) == (
                pairs_of(a, b)[i].1,
                pairs_of(a, b)[i].0,
            ),
{
    crate::shape::lemma_broadcast(a.shape, b.shape);
}

/// A built-in that compares leaves nothing but the numbers 0 and 1: when the
/// interpreter goes on after the host has answered for such a built-in, the
/// value on top of the stack is an array of numbers that are 0 or 1.
pub proof fn lemma_comparisons_leave_truths(
    pre: &Interpreter,
    event: Event,
    post: &Interpreter,
    action: Action,
    p: Primitive,
)
    requires
        pre.pending() == Pending::Dyadic(p),
        is_comparison(p),
        post.resumed(pre, event, action),
        action is Continue,
    ensures
        post.machine.stack_view().len() > 0,
        post.machine.stack_view().last() is Num,
        truths(post.machine.stack_view().last()->Num_0.data),
{
}

/// The rank of an array is the length of its shape: the number that the
/// rank of an array is, is the number that the length of the shape of the
/// array is, the shape being the list that the built-in for the shape makes.
pub proof fn lemma_rank_is_length_of_shape(shape: Seq<usize>)
    requires
        shape.len() <= usize::MAX,
    ensures
        counts_of(Primitive::Rank, shape) == counts_of(
            Primitive::Len,
            seq![counts_of(Primitive::Shape, shape).len() as usize],
        ),
        counts_of(Primitive::Len, shape) == seq![length_of(shape) as usize],
        shape.len() > 0 ==> length_of(shape) == shape[0],
        shape.len() == 0 ==> length_of(shape) == 1,
{
}

impl Interpreter {
    /// What has been read is as it is in `pre`, and so is the mode of the run.
    pub open spec fn reads_as(&self, pre: &Interpreter) -> bool {
        self.codes() == pre.codes() && self.paths() == pre.paths() && self.mode == pre.mode
    }

    /// The functions are as they are in `pre`.
    pub open spec fn defines_as(&self, pre: &Interpreter) -> bool {
        self.bodies() == pre.bodies() && self.machine.functions == pre.machine.functions
    }

    /// The run has ended early, with `stack` as the stack: nothing is left to
    /// do and no call is being carried out; the bindings, the imports and the
    /// functions are as they are in `pre`.
    pub open spec fn stopped(&self, pre: &Interpreter, stack: Seq<ValueView>) -> bool {
        &&& self.tasks().len() == 0
        &&& self.pending() is Nothing
        &&& self.reads_as(pre)
        &&& self.defines_as(pre)
        &&& self.machine.stack_view() == stack
        &&& self.machine.bindings == pre.machine.bindings
        &&& self.machine.imports == pre.machine.imports
        &&& self.machine.fills == pre.machine.fills
        &&& self.machine.scope_base == pre.machine.scope_base
        &&& self.machine.next_frame == pre.machine.next_frame
        &&& self.machine.frame_views().len() == 0
    }

    /// The run has ended early, and the stack is as it is in `pre`.
    pub open spec fn aborted(&self, pre: &Interpreter) -> bool {
        self.stopped(pre, pre.machine.stack_view())
    }

    /// The run has ended because the operation needed more values than the
    /// stack holds.
    pub open spec fn underflowed(
        &self,
        pre: &Interpreter,
        action: Action,
        operation: Operation,
    ) -> bool {
        self.aborted(pre) && action == Action::Failed(RuntimeError::StackUnderflow(operation))
    }

    /// The run has ended because the operation was given values that it
    /// cannot work on.
    pub open spec fn mistyped(&self, pre: &Interpreter, action: Action, operation: Operation) -> bool {
        &&& self.aborted(pre)
        &&& action is Failed
        &&& action->Failed_0 is Type
        &&& action->Failed_0->Type_1 == operation
    }

    /// The run has ended because the operation was given a value with
    /// elements of the type `found` where it cannot work on such.
    pub open spec fn ill_typed(
        &self,
        pre: &Interpreter,
        action: Action,
        operation: Operation,
        found: ElementType,
    ) -> bool {
        self.aborted(pre) && action == Action::Failed(
            RuntimeError::Type(TypeError::Type { left: found, right: found }, operation),
        )
    }

    /// The host has been asked a question: nothing has changed since `pre`
    /// but the tasks and the question that is open.
    pub open spec fn asks(&self, pre: &Interpreter, tasks: Seq<Task>, pending: Pending) -> bool {
        &&& self.tasks() == tasks
        &&& self.pending() == pending
        &&& self.reads_as(pre)
        &&& self.defines_as(pre)
        &&& self.machine.keeps(&pre.machine)
        &&& self.machine.stack_view() == pre.machine.stack_view()
    }

    /// A call of a dfn has begun. The dfn is the function `function`, takes
    /// `arity` arguments from `stack`, and carries out the tokens from `lo` up
    /// to `hi` of the code number `code`. Where `defined` holds a body, the
    /// dfn has been entered into the table of functions with it.
    pub open spec fn entered(
        &self,
        pre: &Interpreter,
        action: Action,
        stack: Seq<ValueView>,
        tasks: Seq<Task>,
        function: Function,
        code: usize,
        lo: usize,
        hi: usize,
        arity: u8,
        defined: Option<Body>,
    ) -> bool {
        if stack.len() < arity {
            self.stopped(pre, stack) && action == Action::Failed(RuntimeError::StackUnderflow(Operation::Call))
        } else if pre.machine.next_frame == u64::MAX {
            self.stopped(pre, stack) && action == Action::Failed(RuntimeError::Exhausted)
        } else {
            let id = pre.machine.next_frame;
            &&& action is Continue
            &&& self.tasks() == tasks.push(
                Task::Range { code, lo, at: hi, call: Some(id), after: After::Leave },
            )
            &&& self.pending() is Nothing
            &&& self.reads_as(pre)
            &&& match defined {
                Some(body) => {
                    &&& self.bodies() == pre.bodies().push(body)
                    &&& self.machine.function_names() == pre.machine.function_names().push(None)
                },
                None => self.defines_as(pre),
            }
            &&& self.machine.bindings == pre.machine.bindings
            &&& self.machine.imports == pre.machine.imports
        &&& self.machine.fills == pre.machine.fills
            &&& self.machine.scope_base == pre.machine.scope_base
            &&& self.machine.next_frame == id + 1
            &&& self.machine.stack_view() == stack.take(stack.len() - arity)
            &&& self.machine.frame_views() == pre.machine.frame_views().push(
                FrameView { id, function: Some(function), args: arguments(stack, arity as nat) },
            )
        }
    }

    /// The value `v` has been called, with `stack` as the stack and `tasks`
    /// as what is left to do behind the call.
    ///
    /// Only a single function can be called. A built-in is carried out by the
    /// next step, a block is carried out from its last token on, and a dfn
    /// takes its arguments first.
    pub open spec fn called(
        &self,
        pre: &Interpreter,
        action: Action,
        v: ValueView,
        stack: Seq<ValueView>,
        tasks: Seq<Task>,
    ) -> bool {
        if !(v is Func && v.shape().len() == 0 && v.count() == 1) {
            self.stopped(pre, stack) && action == Action::Failed(
                RuntimeError::Type(
                    TypeError::Type { left: v.element_type(), right: v.element_type() },
                    Operation::Call,
                ),
            )
        } else {
            let f = v->Func_0.data[0];
            if f.id >= pre.bodies().len() {
                self.stopped(pre, stack) && action == Action::Failed(
                    RuntimeError::Unsupported(Primitive::Call),
                )
            } else {
                match pre.bodies()[f.id as int] {
                    Body::Primitive(q) => action is Continue && self.stacked(
                        pre,
                        stack,
                        tasks.push(Task::Perform(q)),
                    ),
                    Body::Block { code, lo, hi, call } => action is Continue && self.stacked(
                        pre,
                        stack,
                        tasks.push(Task::Range { code, lo, at: hi, call, after: After::Nothing }),
                    ),
                    Body::Dfn { code, lo, hi, arity } => self.entered(
                        pre,
                        action,
                        stack,
                        tasks,
                        f,
                        code,
                        lo,
                        hi,
                        arity,
                        None,
                    ),
                }
            }
        }
    }

    /// The built-in `p` has been carried out on the machine of `pre`, with
    /// `tasks` as what is left to do behind it.
    pub open spec fn performed(&self, pre: &Interpreter, action: Action, p: Primitive, tasks: Seq<Task>) -> bool {
        let stack = pre.machine.stack_view();
        let n = stack.len() as int;
        if p == Primitive::Dup {
            if n < 1 {
                self.underflowed(pre, action, Operation::Builtin(p))
            } else {
                action is Continue && self.stacked(pre, stack.push(stack.last()), tasks)
            }
        } else if p == Primitive::Flip {
            if n < 2 {
                self.underflowed(pre, action, Operation::Builtin(p))
            } else {
                action is Continue && self.stacked(
                    pre,
                    stack.take(n - 2).push(stack[n - 1]).push(stack[n - 2]),
                    tasks,
                )
            }
        } else if p == Primitive::Couple || p == Primitive::Join {
            if n < 2 {
                self.underflowed(pre, action, Operation::Builtin(p))
            } else {
                let made = if p == Primitive::Couple {
                    coupled(stack[n - 1], stack[n - 2])
                } else {
                    joined(stack[n - 1], stack[n - 2], pre.machine.fills)
                };
                match made {
                    Some(c) => action is Continue && self.stacked(
                        pre,
                        stack.take(n - 2).push(c),
                        tasks,
                    ),
                    None => self.mistyped(pre, action, Operation::Builtin(p)) && if p == Primitive::Couple {
                        couple_fault(action->Failed_0->Type_0, stack[n - 1], stack[n - 2])
                    } else {
                        join_fault(action->Failed_0->Type_0, stack[n - 1], stack[n - 2])
                    },
                }
            }
        } else if is_monadic(p) {
            if n < 1 {
                self.underflowed(pre, action, Operation::Builtin(p))
            } else if !(stack.last() is Num) {
                self.aborted(pre) && action == Action::Failed(
                    RuntimeError::Type(
                        TypeError::Character {
                            left: stack.last().element_type(),
                            right: stack.last().element_type(),
                        },
                        Operation::Builtin(p),
                    ),
                )
            } else {
                &&& self.asks(pre, tasks, Pending::Monadic)
                &&& action is Monadic
                &&& action->Monadic_0 == p
                &&& action->Monadic_1@ == stack.last()->Num_0.data
            }
        } else if is_dyadic(p) {
            if n < 2 {
                self.underflowed(pre, action, Operation::Builtin(p))
            } else {
                let a = stack[n - 1];
                let b = stack[n - 2];
                if a is Num && b is Num {
                    if !compatible(a.shape(), b.shape()) {
                        self.mistyped(pre, action, Operation::Builtin(p)) && action->Failed_0->Type_0.is_shape(
                            a.shape(),
                            b.shape(),
                        )
                    } else {
                        &&& self.asks(pre, tasks, Pending::Dyadic(p))
                        &&& action is Dyadic
                        &&& action->Dyadic_0 == p
                        &&& action->Dyadic_1@ == pairs_of(a->Num_0, b->Num_0)
                    }
                } else {
                    match affine(p, a, b) {
                        Some(v) => action is Continue && self.stacked(
                            pre,
                            stack.take(n - 2).push(v),
                            tasks,
                        ),
                        None => self.mistyped(pre, action, Operation::Builtin(p)) && affine_fault(
                            action->Failed_0->Type_0,
                            p,
                            a,
                            b,
                        ),
                    }
                }
            }
        } else if p == Primitive::Shape || p == Primitive::Len || p == Primitive::Rank {
            if n < 1 {
                self.underflowed(pre, action, Operation::Builtin(p))
            } else {
                let counts = counts_of(p, stack.last().shape());
                if uncountable(counts) {
                    self.aborted(pre) && action == Action::Failed(
                        RuntimeError::Type(TypeError::TooLarge, Operation::Builtin(p)),
                    )
                } else {
                    let bits = counted(counts);
                    action is Continue && self.stacked(
                        pre,
                        stack.drop_last().push(
                            if p == Primitive::Shape {
                                numbers_value(seq![counts.len() as usize], bits)
                            } else {
                                number_value(bits[0])
                            },
                        ),
                        tasks,
                    )
                }
            }
        } else if p == Primitive::Reverse {
            if n < 1 {
                self.underflowed(pre, action, Operation::Builtin(p))
            } else {
                action is Continue && self.stacked(
                    pre,
                    stack.drop_last().push(stack.last().reverse()),
                    tasks,
                )
            }
        } else if p == Primitive::First {
            if n < 1 {
                self.underflowed(pre, action, Operation::Builtin(p))
            } else if rows_in(stack.last().shape()) > 0 {
                action is Continue && self.stacked(
                    pre,
                    stack.drop_last().push(stack.last().row(0)),
                    tasks,
                )
            } else {
                self.aborted(pre) && action == Action::Failed(
                    RuntimeError::Type(
                        TypeError::Index { index: 0, length: 0 },
                        Operation::Builtin(p),
                    ),
                )
            }
        } else if p == Primitive::Pick {
            if n < 2 {
                self.underflowed(pre, action, Operation::Builtin(p))
            } else {
                let index = stack[n - 1];
                let array = stack[n - 2];
                if !(index is Num && index.shape().len() == 0 && index.count() == 1) {
                    self.ill_typed(pre, action, Operation::Builtin(p), index.element_type())
                } else {
                    match whole_of(index->Num_0.data[0]) {
                        Some(i) => if 0 <= i < rows_in(array.shape()) {
                            action is Continue && self.stacked(
                                pre,
                                stack.take(n - 2).push(array.row(i)),
                                tasks,
                            )
                        } else {
                            self.aborted(pre) && action == Action::Failed(
                                RuntimeError::Type(
                                    TypeError::Index {
                                        index: i as i64,
                                        length: rows_in(array.shape()) as usize,
                                    },
                                    Operation::Builtin(p),
                                ),
                            )
                        },
                        None => self.aborted(pre) && action == Action::Failed(
                            RuntimeError::Type(TypeError::NotWhole, Operation::Builtin(p)),
                        ),
                    }
                }
            }
        } else if p == Primitive::Call {
            if n < 1 {
                self.underflowed(pre, action, Operation::Builtin(p))
            } else {
                self.called(pre, action, stack.last(), stack.drop_last(), tasks)
            }
        } else if p == Primitive::Recur {
            let frames = pre.machine.frame_views();
            if frames.len() > 0 && frames.last().function is Some {
                self.called(
                    pre,
                    action,
                    function_value(frames.last().function.unwrap()),
                    stack,
                    tasks,
                )
            } else {
                self.aborted(pre) && action == Action::Failed(
                    RuntimeError::Unsupported(Primitive::Recur),
                )
            }
        } else if p == Primitive::Use {
            if n < 2 {
                self.underflowed(pre, action, Operation::Builtin(p))
            } else {
                let name = stack[n - 1];
                let module = stack[n - 2];
                if !(name is Char && module is Func) {
                    self.aborted(pre) && action == Action::Failed(
                        RuntimeError::Type(
                            TypeError::Type {
                                left: name.element_type(),
                                right: module.element_type(),
                            },
                            Operation::Builtin(p),
                        ),
                    )
                } else {
                    let text = name->Char_0.data;
                    let functions = module->Func_0.data;
                    let names = pre.machine.function_names();
                    if exists|i: int| is_first_called(names, functions, text, i) {
                        &&& action is Continue
                        &&& exists|i: int| #[trigger]
                            is_first_called(names, functions, text, i) && self.stacked(
                                pre,
                                stack.take(n - 2).push(function_value(functions[i])),
                                tasks,
                            )
                    } else {
                        &&& self.aborted(pre)
                        &&& action is Failed
                        &&& action->Failed_0 is Binding
                        &&& action->Failed_0->Binding_0 is UnknownName
                        &&& action->Failed_0->Binding_0->UnknownName_0@ == text
                    }
                }
            }
        } else if p == Primitive::Rand {
            self.asks(pre, tasks, Pending::Number) && action is Random
        } else if p == Primitive::Io(IoOp::Print) {
            if n < 1 {
                self.underflowed(pre, action, Operation::Builtin(p))
            } else {
                &&& action is Print
                &&& action->Print_0@ == stack.last()
                &&& self.tasks() == tasks
                &&& self.pending() == Pending::Acknowledge
                &&& self.reads_as(pre)
                &&& self.defines_as(pre)
                &&& self.machine.keeps(&pre.machine)
                &&& self.machine.stack_view() == stack.drop_last()
            }
        } else if p == Primitive::Io(IoOp::FWriteAll) {
            if n < 2 {
                self.underflowed(pre, action, Operation::Builtin(p))
            } else {
                let path = stack[n - 1];
                let contents = stack[n - 2];
                if !(path is Char && contents is Char) {
                    self.aborted(pre) && action == Action::Failed(
                        RuntimeError::Type(
                            TypeError::Type {
                                left: path.element_type(),
                                right: contents.element_type(),
                            },
                            Operation::Builtin(p),
                        ),
                    )
                } else {
                    &&& action is Write
                    &&& action->Write_0@ == path->Char_0.data
                    &&& action->Write_1@ == contents->Char_0.data
                    &&& self.tasks() == tasks
                    &&& self.pending() == Pending::Acknowledge
                    &&& self.reads_as(pre)
                    &&& self.defines_as(pre)
                    &&& self.machine.keeps(&pre.machine)
                    &&& self.machine.stack_view() == stack.take(n - 2)
                }
            }
        } else if p == Primitive::Io(IoOp::Import) {
            if n < 1 {
                self.underflowed(pre, action, Operation::Builtin(p))
            } else if !(stack.last() is Char) {
                self.ill_typed(pre, action, Operation::Builtin(p), stack.last().element_type())
            } else {
                let path = stack.last()->Char_0.data;
                &&& action is Load
                &&& action->Load_0@ == path
                &&& self.tasks() == tasks
                &&& self.pending() == Pending::Load(pre.paths().len() as usize)
                &&& self.codes() == pre.codes()
                &&& self.paths() == pre.paths().push(path)
                &&& self.mode == pre.mode
                &&& self.defines_as(pre)
                &&& self.machine.keeps(&pre.machine)
                &&& self.machine.stack_view() == stack.drop_last()
            }
        } else {
            self.aborted(pre) && action == Action::Failed(RuntimeError::Unsupported(p))
        }
    }

    /// Nothing but the tasks has changed since `pre`, and no question is open.
    pub open spec fn moved(&self, pre: &Interpreter, tasks: Seq<Task>) -> bool {
        &&& self.tasks() == tasks
        &&& self.pending() is Nothing
        &&& self.reads_as(pre)
        &&& self.defines_as(pre)
        &&& self.machine == pre.machine
    }

    /// Nothing but the stack and the tasks has changed since `pre`, and no
    /// question is open.
    pub open spec fn stacked(&self, pre: &Interpreter, stack: Seq<ValueView>, tasks: Seq<Task>) -> bool {
        &&& self.tasks() == tasks
        &&& self.pending() is Nothing
        &&& self.reads_as(pre)
        &&& self.defines_as(pre)
        &&& self.machine.keeps(&pre.machine)
        &&& self.machine.stack_view() == stack
    }

    /// What a step does with the lines of a code, which are the last task of `pre`.
    pub open spec fn lined(&self, pre: &Interpreter, action: Action) -> bool {
        let task = pre.tasks().last();
        let code = pre.codes()[task->Lines_code as int];
        let tokens = code.tokens;
        let next = task->Lines_next;
        let stack = pre.machine.stack_view();
        if next >= tokens.len() {
            &&& action is Continue
            &&& self.tasks() == pre.tasks().drop_last()
            &&& self.pending() is Nothing
            &&& self.reads_as(pre)
            &&& self.defines_as(pre)
            &&& self.machine.stack == pre.machine.stack
            &&& self.machine.fills == pre.machine.fills
            &&& self.machine.bindings == pre.machine.bindings
            &&& self.machine.scope_base == pre.machine.scope_base
            &&& self.machine.frames == pre.machine.frames
            &&& self.machine.next_frame == pre.machine.next_frame
            &&& self.machine.imports@ == match task->Lines_import {
                Some(p) => cache_after(
                    pre.machine.imports@,
                    Request {
                        path: pre.paths()[p as int],
                        produced: left_since(stack, task->Lines_mark as nat),
                    },
                ),
                None => pre.machine.imports@,
            }
        } else {
            let stop = line_stop(tokens, next as nat);
            let rest = Task::Lines {
                code: task->Lines_code,
                next: line_after(tokens, stop) as usize,
                import: task->Lines_import,
                mark: task->Lines_mark,
            };
            let first = tokens[next as int];
            let name = text_of(code, first);
            if stop == next {
                action is Continue && self.moved(pre, with_top(pre.tasks(), rest))
            } else if first.kind is Scope {
                if pre.machine.frame_views().len() > 0 {
                    self.aborted(pre) && action == Action::Failed(
                        RuntimeError::Syntax { position: first.start },
                    )
                } else {
                    let b = pre.machine.bindings@;
                    &&& action is Continue
                    &&& self.tasks() == with_top(pre.tasks(), rest)
                    &&& self.pending() is Nothing
                    &&& self.reads_as(pre)
                    &&& self.defines_as(pre)
                    &&& self.machine.stack == pre.machine.stack
                    &&& self.machine.imports == pre.machine.imports
        &&& self.machine.fills == pre.machine.fills
                    &&& self.machine.frames == pre.machine.frames
                    &&& self.machine.next_frame == pre.machine.next_frame
                    &&& match b.scope_start {
                        Some(n) => {
                            &&& self.machine.bindings@ == (BindingsView {
                                list: b.list.take(n as int),
                                scope_start: None,
                            })
                            &&& self.machine.scope_base == pre.machine.scope_base
                        },
                        None => {
                            &&& self.machine.bindings@ == (BindingsView {
                                list: b.list,
                                scope_start: Some(b.list.len()),
                            })
                            &&& self.machine.scope_base == stack.len()
                        },
                    }
                }
            } else if first.kind is Name && next + 1 < stop && tokens[next + 1].kind is Arrow {
                if next + 2 == stop {
                    let base = pre.machine.scope_base as int;
                    if base < stack.len() {
                        &&& action is Continue
                        &&& self.tasks() == with_top(pre.tasks(), rest)
                        &&& self.pending() is Nothing
                        &&& self.reads_as(pre)
                        &&& self.defines_as(pre)
                        &&& self.machine.imports == pre.machine.imports
        &&& self.machine.fills == pre.machine.fills
                        &&& self.machine.scope_base == pre.machine.scope_base
                        &&& self.machine.frames == pre.machine.frames
                        &&& self.machine.next_frame == pre.machine.next_frame
                        &&& self.machine.stack_view() == stack.remove(base)
                        &&& self.machine.bindings@ == pre.machine.bindings@.bind(name, stack[base])
                    } else {
                        self.aborted(pre) && action == Action::Failed(RuntimeError::StackUnderflow(Operation::Bind))
                    }
                } else if names_function(name) {
                    let f = Function { id: pre.machine.function_names().len() as usize };
                    &&& action is Continue
                    &&& self.tasks() == with_top(pre.tasks(), rest)
                    &&& self.pending() is Nothing
                    &&& self.reads_as(pre)
                    &&& self.machine.stack_view() == stack
                    &&& self.machine.imports == pre.machine.imports
        &&& self.machine.fills == pre.machine.fills
                    &&& self.machine.scope_base == pre.machine.scope_base
                    &&& self.machine.frames == pre.machine.frames
                    &&& self.machine.next_frame == pre.machine.next_frame
                    &&& self.machine.function_names() == pre.machine.function_names().push(
                        Some(fold(name)),
                    )
                    &&& self.bodies() == pre.bodies().push(
                        Body::Block {
                            code: task->Lines_code,
                            lo: (next + 2) as usize,
                            hi: stop as usize,
                            call: None,
                        },
                    )
                    &&& self.machine.bindings@ == pre.machine.bindings@.bind(
                        name,
                        function_value(f),
                    )
                } else {
                    action is Continue && self.moved(
                        pre,
                        with_top(pre.tasks(), rest).push(
                            Task::Range {
                                code: task->Lines_code,
                                lo: (next + 2) as usize,
                                at: stop as usize,
                                call: None,
                                after: After::Bind(next),
                            },
                        ),
                    )
                }
            } else {
                action is Continue && self.moved(
                    pre,
                    with_top(pre.tasks(), rest).push(
                        Task::Range {
                            code: task->Lines_code,
                            lo: next,
                            at: stop as usize,
                            call: None,
                            after: After::Nothing,
                        },
                    ),
                )
            }
        }
    }

    /// A function with the body `body` has been entered into the table of
    /// functions, under the name `name` where there is one, and has been put
    /// on the stack; `tasks` are left to do.
    pub open spec fn defined(
        &self,
        pre: &Interpreter,
        action: Action,
        name: Option<Seq<char>>,
        body: Body,
        tasks: Seq<Task>,
    ) -> bool {
        let f = Function { id: pre.machine.function_names().len() as usize };
        &&& action is Continue
        &&& self.tasks() == tasks
        &&& self.pending() is Nothing
        &&& self.reads_as(pre)
        &&& self.bodies() == pre.bodies().push(body)
        &&& self.machine.function_names() == pre.machine.function_names().push(name)
        &&& self.machine.bindings == pre.machine.bindings
        &&& self.machine.imports == pre.machine.imports
        &&& self.machine.fills == pre.machine.fills
        &&& self.machine.scope_base == pre.machine.scope_base
        &&& self.machine.frames == pre.machine.frames
        &&& self.machine.next_frame == pre.machine.next_frame
        &&& self.machine.stack_view() == pre.machine.stack_view().push(function_value(f))
    }

    /// The value that the word `text` stands for in the call `call` has been
    /// found, and `tasks` are left to do. In a dfn a single lower-case
    /// letter is an argument; any other word is a binding. Where `calling`
    /// holds, a word that stands for a single function calls it; else what
    /// the word stands for is put on the stack.
    pub open spec fn named(
        &self,
        pre: &Interpreter,
        action: Action,
        text: Seq<char>,
        call: Option<u64>,
        tasks: Seq<Task>,
        calling: bool,
    ) -> bool {
        let stack = pre.machine.stack_view();
        if text.len() == 1 && is_lower(text[0]) && call is Some {
            match argument_of(pre.machine.frame_views(), call.unwrap(), text[0]) {
                Some(v) => action is Continue && self.stacked(pre, stack.push(v), tasks),
                None => self.aborted(pre) && action == Action::Failed(
                    RuntimeError::Binding(BindingError::ArgumentOutOfScope(text[0])),
                ),
            }
        } else {
            match pre.machine.bindings@.resolve(text) {
                Some(b) => if calling && b.value is Func && b.value.shape().len() == 0
                    && b.value.count() == 1 {
                    self.called(pre, action, b.value, stack, tasks)
                } else {
                    action is Continue && self.stacked(pre, stack.push(b.value), tasks)
                },
                None => {
                    &&& self.aborted(pre)
                    &&& action is Failed
                    &&& action->Failed_0 is Binding
                    &&& action->Failed_0->Binding_0 is UnknownName
                    &&& action->Failed_0->Binding_0->UnknownName_0@ == text
                },
            }
        }
    }

    /// The modifier `m` has been carried out with the operand `operand`, and
    /// `tasks` are left to do behind it.
    ///
    /// Repeating takes a count from the stack, which must be a single whole
    /// number that is not negative, and calls the operand that many times.
    /// The other modifiers begin to call the operand on the rows or the
    /// elements of the array on top of the stack, which stays there while
    /// they do; those that fold begin with the first row as the result so
    /// far, and there is nothing to reduce in an array without rows.
    pub open spec fn modified(
        &self,
        pre: &Interpreter,
        action: Action,
        m: Primitive,
        operand: Operand,
        tasks: Seq<Task>,
    ) -> bool {
        let stack = pre.machine.stack_view();
        if looping(m) is Some {
            let kind = looping(m).unwrap();
            if stack.len() < 1 {
                self.underflowed(pre, action, Operation::Builtin(m))
            } else {
                let count = items_in(kind, stack.last());
                if kind is Reduce && count == 0 {
                    self.aborted(pre) && action == Action::Failed(
                        RuntimeError::Type(
                            TypeError::Index { index: 0, length: 0 },
                            Operation::Builtin(m),
                        ),
                    )
                } else {
                    let function = match operand {
                        Operand::New(_) => Function {
                            id: pre.machine.function_names().len() as usize,
                        },
                        Operand::Known(f) => f,
                    };
                    let folds = !maps(kind) && count > 0;
                    &&& action is Continue
                    &&& self.tasks() == tasks.push(
                        Task::Loop {
                            kind,
                            function,
                            at: (stack.len() - 1) as usize,
                            next: if folds {
                                1
                            } else {
                                count as usize
                            },
                            count: count as usize,
                        },
                    )
                    &&& self.pending() is Nothing
                    &&& self.reads_as(pre)
                    &&& match operand {
                        Operand::New(body) => {
                            &&& self.bodies() == pre.bodies().push(body)
                            &&& self.machine.function_names() == pre.machine.function_names().push(
                                None,
                            )
                        },
                        Operand::Known(_) => self.defines_as(pre),
                    }
                    &&& self.machine.bindings == pre.machine.bindings
                    &&& self.machine.imports == pre.machine.imports
                    &&& self.machine.fills == pre.machine.fills
                    &&& self.machine.scope_base == pre.machine.scope_base
                    &&& self.machine.frames == pre.machine.frames
                    &&& self.machine.next_frame == pre.machine.next_frame
                    &&& self.machine.stack_view() == if folds {
                        stack.push(item_of(kind, stack.last(), 0))
                    } else {
                        stack
                    }
                }
            }
        } else if m != Primitive::Repeat {
            self.aborted(pre) && action == Action::Failed(RuntimeError::Unsupported(m))
        } else if stack.len() < 1 {
            self.underflowed(pre, action, Operation::Builtin(m))
        } else if !(stack.last() is Num && stack.last().shape().len() == 0 && stack.last().count()
            == 1) {
            self.ill_typed(pre, action, Operation::Builtin(m), stack.last().element_type())
        } else {
            match whole_of(stack.last()->Num_0.data[0]) {
                Some(n) => if n < 0 {
                    self.aborted(pre) && action == Action::Failed(
                        RuntimeError::Type(TypeError::NotWhole, Operation::Builtin(m)),
                    )
                } else {
                    let function = match operand {
                        Operand::New(_) => Function {
                            id: pre.machine.function_names().len() as usize,
                        },
                        Operand::Known(f) => f,
                    };
                    &&& action is Continue
                    &&& self.tasks() == tasks.push(Task::Repeat { function, left: n as u64 })
                    &&& self.pending() is Nothing
                    &&& self.reads_as(pre)
                    &&& match operand {
                        Operand::New(body) => {
                            &&& self.bodies() == pre.bodies().push(body)
                            &&& self.machine.function_names() == pre.machine.function_names().push(
                                None,
                            )
                        },
                        Operand::Known(_) => self.defines_as(pre),
                    }
                    &&& self.machine.bindings == pre.machine.bindings
                    &&& self.machine.imports == pre.machine.imports
        &&& self.machine.fills == pre.machine.fills
                    &&& self.machine.scope_base == pre.machine.scope_base
                    &&& self.machine.frames == pre.machine.frames
                    &&& self.machine.next_frame == pre.machine.next_frame
                    &&& self.machine.stack_view() == stack.drop_last()
                },
                None => self.aborted(pre) && action == Action::Failed(
                    RuntimeError::Type(TypeError::NotWhole, Operation::Builtin(m)),
                ),
            }
        }
    }

    /// What a step does with the operand of the modifier `m`, which is the
    /// last token of the stretch of tokens that is the last task of `pre`.
    pub open spec fn operated(&self, pre: &Interpreter, action: Action, m: Primitive) -> bool {
        let task = pre.tasks().last();
        let number = task->Range_code;
        let call = task->Range_call;
        let code = pre.codes()[number as int];
        let j = (task->Range_at - 1) as usize;
        let token = code.tokens[j as int];
        let partner = code.partner[j as int];
        let first = if token.kind == Kind::Close(Bracket::Round) {
            partner
        } else {
            j
        };
        let rest = with_top(
            pre.tasks(),
            Task::Range {
                code: number,
                lo: task->Range_lo,
                at: (first - 1) as usize,
                call,
                after: task->Range_after,
            },
        );
        match token.kind {
            Kind::Primitive(q) => self.modified(
                pre,
                action,
                m,
                Operand::New(Body::Primitive(q)),
                rest,
            ),
            Kind::Close(_) => self.modified(
                pre,
                action,
                m,
                Operand::New(Body::Block { code: number, lo: (partner + 1) as usize, hi: j, call }),
                rest,
            ),
            _ => match pre.machine.bindings@.resolve(text_of(code, token)) {
                Some(b) => if b.value is Func && b.value.shape().len() == 0 && b.value.count()
                    == 1 {
                    self.modified(pre, action, m, Operand::Known(b.value->Func_0.data[0]), rest)
                } else {
                    self.ill_typed(pre, action, Operation::Builtin(m), b.value.element_type())
                },
                None => {
                    &&& self.aborted(pre)
                    &&& action is Failed
                    &&& action->Failed_0 is Binding
                    &&& action->Failed_0->Binding_0 is UnknownName
                    &&& action->Failed_0->Binding_0->UnknownName_0@ == text_of(code, token)
                },
            },
        }
    }

    /// What a step does with a function that is being called on the rows or
    /// elements of an array, which is the last task of `pre`.
    ///
    /// Every call must have left one value in the place of what it was
    /// given. While rows or elements are left, the next one is fed: going
    /// over every row or element, it is put on the stack; folding, it is put
    /// below the result so far, or below a copy of it where every result is
    /// kept. When none is left, the array makes room for the result: the
    /// last result of reducing, the results of scanning as rows, the first
    /// one first, or what every row or element has made, in the place of
    /// the row or element.
    pub open spec fn looped(&self, pre: &Interpreter, action: Action) -> bool {
        let task = pre.tasks().last();
        let kind = task->Loop_kind;
        let function = task->Loop_function;
        let at = task->Loop_at as int;
        let next = task->Loop_next as int;
        let count = task->Loop_count as int;
        let stack = pre.machine.stack_view();
        let fills = pre.machine.fills;
        let made = if maps(kind) {
            count - next
        } else if kind is Reduce {
            if count > 0 {
                1
            } else {
                0
            }
        } else {
            next
        };
        let done = if maps(kind) {
            next == 0
        } else {
            next >= count
        };
        if !(0 <= made && at < stack.len() && stack.len() == at + 1 + made) {
            self.aborted(pre) && action == Action::Failed(RuntimeError::Signature)
        } else if done {
            let a = stack[at];
            let rows = rows_of(gathered(stack, (at + 1) as nat), fills);
            let result = if count == 0 {
                Some(a)
            } else if kind is Reduce {
                Some(stack.last())
            } else {
                match rows {
                    Some(r) => if kind is Scan {
                        Some(r.reverse())
                    } else if kind is Rows {
                        Some(r)
                    } else {
                        let shape = a.shape() + r.shape().drop_first();
                        if r.count() == size(shape) {
                            Some(r.with_shape(shape))
                        } else {
                            None
                        }
                    },
                    None => None,
                }
            };
            match result {
                Some(v) => action is Continue && self.stacked(
                    pre,
                    stack.take(at).push(v),
                    pre.tasks().drop_last(),
                ),
                None => self.mistyped(pre, action, Operation::Builtin(modifier_of(kind))) && match rows {
                    Some(_) => action->Failed_0->Type_0 is TooLarge,
                    None => rows_fault(
                        action->Failed_0->Type_0,
                        gathered(stack, (at + 1) as nat),
                        fills,
                    ),
                },
            }
        } else {
            let a = stack[at];
            let k = if maps(kind) {
                next - 1
            } else {
                next
            };
            if !(0 <= k < items_in(kind, a)) {
                self.aborted(pre) && action == Action::Failed(RuntimeError::Signature)
            } else {
                let item = item_of(kind, a, k);
                let fed = if maps(kind) {
                    stack.push(item)
                } else if kind is Reduce {
                    stack.drop_last().push(item).push(stack.last())
                } else {
                    stack.push(item).push(stack.last())
                };
                self.called(
                    pre,
                    action,
                    function_value(function),
                    fed,
                    with_top(
                        pre.tasks(),
                        Task::Loop {
                            kind,
                            function,
                            at: task->Loop_at,
                            next: if maps(kind) {
                                (next - 1) as usize
                            } else {
                                (next + 1) as usize
                            },
                            count: task->Loop_count,
                        },
                    ),
                )
            }
        }
    }

    /// What a step does with a function that is being repeated, which is
    /// the last task of `pre`.
    pub open spec fn repeated(&self, pre: &Interpreter, action: Action) -> bool {
        let task = pre.tasks().last();
        let stack = pre.machine.stack_view();
        if task->Repeat_left == 0 {
            action is Continue && self.stacked(pre, stack, pre.tasks().drop_last())
        } else {
            self.called(
                pre,
                action,
                function_value(task->Repeat_function),
                stack,
                with_top(
                    pre.tasks(),
                    Task::Repeat {
                        function: task->Repeat_function,
                        left: (task->Repeat_left - 1) as u64,
                    },
                ),
            )
        }
    }

    /// What a step does at the end of a stretch of tokens, which is the last
    /// task of `pre`.
    pub open spec fn finished(&self, pre: &Interpreter, action: Action) -> bool {
        let task = pre.tasks().last();
        let code = pre.codes()[task->Range_code as int];
        let stack = pre.machine.stack_view();
        let tasks = pre.tasks().drop_last();
        match task->Range_after {
            After::Nothing => action is Continue && self.stacked(pre, stack, tasks),
            After::Collect(mark) => match rows_of(gathered(stack, mark as nat), pre.machine.fills) {
                Some(rows) => action is Continue && self.stacked(
                    pre,
                    below(stack, mark as nat).push(rows),
                    tasks,
                ),
                None => self.mistyped(pre, action, Operation::Collect) && rows_fault(
                    action->Failed_0->Type_0,
                    gathered(stack, mark as nat),
                    pre.machine.fills,
                ),
            },
            After::Leave => {
                &&& action is Continue
                &&& self.tasks() == tasks
                &&& self.pending() is Nothing
                &&& self.reads_as(pre)
                &&& self.defines_as(pre)
                &&& self.machine.stack_view() == stack
                &&& self.machine.bindings == pre.machine.bindings
                &&& self.machine.imports == pre.machine.imports
        &&& self.machine.fills == pre.machine.fills
                &&& self.machine.scope_base == pre.machine.scope_base
                &&& self.machine.next_frame == pre.machine.next_frame
                &&& self.machine.frame_views() == if pre.machine.frame_views().len() > 0 {
                    pre.machine.frame_views().drop_last()
                } else {
                    pre.machine.frame_views()
                }
            },
            After::Bind(k) => if stack.len() > 0 {
                &&& action is Continue
                &&& self.tasks() == tasks
                &&& self.pending() is Nothing
                &&& self.reads_as(pre)
                &&& self.defines_as(pre)
                &&& self.machine.stack_view() == stack.drop_last()
                &&& self.machine.imports == pre.machine.imports
        &&& self.machine.fills == pre.machine.fills
                &&& self.machine.scope_base == pre.machine.scope_base
                &&& self.machine.frames == pre.machine.frames
                &&& self.machine.next_frame == pre.machine.next_frame
                &&& self.machine.bindings@ == pre.machine.bindings@.bind(
                    text_of(code, code.tokens[k as int]),
                    stack.last(),
                )
            } else {
                self.underflowed(pre, action, Operation::Bind)
            },
        }
    }

    /// What a step does with the last token of a stretch of tokens, which is
    /// the last task of `pre`.
    pub open spec fn tokened(&self, pre: &Interpreter, action: Action) -> bool {
        let task = pre.tasks().last();
        let number = task->Range_code;
        let lo = task->Range_lo;
        let at = task->Range_at;
        let call = task->Range_call;
        let after = task->Range_after;
        let code = pre.codes()[number as int];
        let j = (at - 1) as usize;
        let token = code.tokens[j as int];
        let partner = code.partner[j as int];
        let first = if token.kind == Kind::Close(Bracket::Round) {
            partner
        } else {
            j
        };
        let stack = pre.machine.stack_view();
        let rest = with_top(pre.tasks(), Task::Range { code: number, lo, at: first, call, after });
        if token.kind is Close && partner < lo {
            self.aborted(pre) && action == Action::Failed(
                RuntimeError::Syntax { position: token.start },
            )
        } else if first > lo && is_operand(token.kind) && code.tokens[first - 1].kind is Primitive
            && is_modifier(code.tokens[first - 1].kind->Primitive_0) {
            self.operated(pre, action, code.tokens[first - 1].kind->Primitive_0)
        } else if first > lo && code.tokens[first - 1].kind is Strand {
            action is Continue && self.stacked(
                pre,
                stack,
                pre.tasks().push(
                    Task::Strand {
                        code: number,
                        lo,
                        at,
                        call,
                        mark: stack.len() as usize,
                        pushed: false,
                    },
                ),
            )
        } else {
            match token.kind {
                Kind::Number => {
                    &&& self.asks(pre, rest, Pending::Number)
                    &&& action is Literal
                    &&& action->Literal_0@ == text_of(code, token)
                },
                Kind::Character(c) => action is Continue && self.stacked(
                    pre,
                    stack.push(character_value(c)),
                    rest,
                ),
                Kind::Text => action is Continue && self.stacked(
                    pre,
                    stack.push(text_value(unescaped(contents(code, token)))),
                    rest,
                ),
                Kind::Name => self.named(pre, action, text_of(code, token), call, rest, true),
                Kind::Primitive(p) => self.performed(pre, action, p, rest),
                Kind::Close(Bracket::Square) => action is Continue && self.stacked(
                    pre,
                    stack,
                    with_top(
                        pre.tasks(),
                        Task::Range { code: number, lo, at: partner, call, after },
                    ).push(
                        Task::Range {
                            code: number,
                            lo: (partner + 1) as usize,
                            at: j,
                            call,
                            after: After::Collect(stack.len() as usize),
                        },
                    ),
                ),
                Kind::Close(Bracket::Round) => self.defined(
                    pre,
                    action,
                    None,
                    Body::Block { code: number, lo: (partner + 1) as usize, hi: j, call },
                    rest,
                ),
                Kind::Close(Bracket::Curly) => {
                    let arity = arity_of(
                        code.source.subrange(
                            code.tokens[partner as int].end as int,
                            token.start as int,
                        ),
                    ) as u8;
                    self.entered(
                        pre,
                        action,
                        stack,
                        with_top(
                            pre.tasks(),
                            Task::Range { code: number, lo, at: partner, call, after },
                        ),
                        Function { id: pre.machine.function_names().len() as usize },
                        number,
                        (partner + 1) as usize,
                        j,
                        arity,
                        Some(
                            Body::Dfn { code: number, lo: (partner + 1) as usize, hi: j, arity },
                        ),
                    )
                },
                _ => self.aborted(pre) && action == Action::Failed(
                    RuntimeError::Syntax { position: token.start },
                ),
            }
        }
    }

    /// What a step does with a strand, which is the last task of `pre`.
    ///
    /// The elements of a strand are not carried out: a number, a character
    /// or a string is itself, a word is what it stands for, and a built-in or
    /// a function in brackets is a function. When the first element has been
    /// put on the stack, the elements become the rows of one array.
    pub open spec fn stranded(&self, pre: &Interpreter, action: Action) -> bool {
        let task = pre.tasks().last();
        let number = task->Strand_code;
        let lo = task->Strand_lo;
        let at = task->Strand_at;
        let call = task->Strand_call;
        let mark = task->Strand_mark;
        let code = pre.codes()[number as int];
        let j = (at - 1) as usize;
        let token = code.tokens[j as int];
        let partner = code.partner[j as int];
        let stack = pre.machine.stack_view();
        if !task->Strand_pushed {
            let done = with_top(
                pre.tasks(),
                Task::Strand { code: number, lo, at, call, mark, pushed: true },
            );
            match token.kind {
                Kind::Number => {
                    &&& self.asks(pre, done, Pending::Number)
                    &&& action is Literal
                    &&& action->Literal_0@ == text_of(code, token)
                },
                Kind::Character(c) => action is Continue && self.stacked(
                    pre,
                    stack.push(character_value(c)),
                    done,
                ),
                Kind::Text => action is Continue && self.stacked(
                    pre,
                    stack.push(text_value(unescaped(contents(code, token)))),
                    done,
                ),
                Kind::Name => self.named(pre, action, text_of(code, token), call, done, false),
                Kind::Primitive(p) => self.defined(
                    pre,
                    action,
                    match p.name_text() {
                        Some(n) => Some(fold(n)),
                        None => None,
                    },
                    Body::Primitive(p),
                    done,
                ),
                Kind::Close(Bracket::Round) => if partner < lo {
                    self.aborted(pre) && action == Action::Failed(
                        RuntimeError::Syntax { position: token.start },
                    )
                } else {
                    self.defined(
                    pre,
                    action,
                    None,
                    Body::Block { code: number, lo: (partner + 1) as usize, hi: j, call },
                    with_top(
                        pre.tasks(),
                        Task::Strand {
                            code: number,
                            lo,
                            at: (partner + 1) as usize,
                            call,
                            mark,
                            pushed: true,
                        },
                    ),
                )
                },
                _ => self.aborted(pre) && action == Action::Failed(
                    RuntimeError::Syntax { position: token.start },
                ),
            }
        } else if j > lo && code.tokens[j - 1].kind is Strand {
            if j - 1 > lo {
                action is Continue && self.stacked(
                    pre,
                    stack,
                    with_top(
                        pre.tasks(),
                        Task::Strand {
                            code: number,
                            lo,
                            at: (j - 1) as usize,
                            call,
                            mark,
                            pushed: false,
                        },
                    ),
                )
            } else {
                self.aborted(pre) && action == Action::Failed(
                    RuntimeError::Syntax { position: code.tokens[j - 1].start },
                )
            }
        } else {
            let n = pre.tasks().len() as int;
            if n >= 2 && pre.tasks()[n - 2] is Range && pre.tasks()[n - 2]->Range_code == number
                && pre.tasks()[n - 2]->Range_lo <= j <= pre.tasks()[n - 2]->Range_at {
                let parent = pre.tasks()[n - 2];
                match rows_of(gathered(stack, mark as nat), pre.machine.fills) {
                    Some(rows) => action is Continue && self.stacked(
                        pre,
                        below(stack, mark as nat).push(rows),
                        pre.tasks().take(n - 2).push(
                            Task::Range {
                                code: number,
                                lo: parent->Range_lo,
                                at: j,
                                call: parent->Range_call,
                                after: parent->Range_after,
                            },
                        ),
                    ),
                    None => self.mistyped(pre, action, Operation::Collect) && rows_fault(
                        action->Failed_0->Type_0,
                        gathered(stack, mark as nat),
                        pre.machine.fills,
                    ),
                }
            } else {
                self.aborted(pre) && action == Action::Failed(RuntimeError::Host)
            }
        }
    }

    /// The host has answered, and the run goes on with `stack` as the stack.
    pub open spec fn resumes(&self, pre: &Interpreter, stack: Seq<ValueView>) -> bool {
        self.stacked(pre, stack, pre.tasks())
    }

    /// What a step does with the answer `event` of the host to the question
    /// that is open in `pre`. An answer that does not fit the question ends
    /// the run: the host must answer with as many numbers as it was asked
    /// for, and with nothing but 0 and 1 for a built-in that compares.
    ///
    /// A file that was asked for comes with its canonical path. Where a file
    /// with that path has been run before, it is not run again, and what
    /// that run left on the stack is put there once more. Else its lines
    /// become the next thing to carry out, and what they leave is recorded
    /// under that path when they are done.
    pub open spec fn resumed(&self, pre: &Interpreter, event: Event, action: Action) -> bool {
        let stack = pre.machine.stack_view();
        let n = stack.len() as int;
        let bits = event->Numbers_0@;
        let fits = match pre.pending() {
            Pending::Nothing => false,
            Pending::Number => event is Numbers && bits.len() == 1,
            Pending::Monadic => event is Numbers && n >= 1 && stack.last() is Num && bits.len()
                == stack.last().count(),
            Pending::Dyadic(p) => event is Numbers && n >= 2 && stack[n - 1] is Num && stack[n
                - 2] is Num && compatible(stack[n - 1].shape(), stack[n - 2].shape())
                && bits.len() == size(broadcast(stack[n - 1].shape(), stack[n - 2].shape())) && (
            is_comparison(p) ==> truths(bits)),
            Pending::Acknowledge => event is Go,
            Pending::Load(_) => event is Source,
        };
        if !fits {
            self.aborted(pre) && action == Action::Failed(RuntimeError::Host)
        } else {
            match pre.pending() {
                Pending::Nothing => true,
                Pending::Number => action is Continue && self.resumes(
                    pre,
                    stack.push(number_value(bits[0])),
                ),
                Pending::Monadic => action is Continue && self.resumes(
                    pre,
                    stack.drop_last().push(numbers_value(stack.last().shape(), bits)),
                ),
                Pending::Dyadic(_) => action is Continue && self.resumes(
                    pre,
                    stack.take(n - 2).push(
                        numbers_value(broadcast(stack[n - 1].shape(), stack[n - 2].shape()), bits),
                    ),
                ),
                Pending::Acknowledge => action is Continue && self.resumes(pre, stack),
                Pending::Load(p) => match event->Source_0 {
                    Some(file) => match recorded(pre.machine.imports@, file.path@) {
                        Some(values) => action is Continue && self.resumes(pre, stack + values),
                        None => if Code::new_spec(file.text@) {
                            let code = self.codes().last();
                            &&& action is Continue
                            &&& self.codes() == pre.codes().push(code)
                            &&& code.source == file.text@
                            &&& code.wf()
                            &&& self.paths() == pre.paths().push(file.path@)
                            &&& self.mode == pre.mode
                            &&& self.defines_as(pre)
                            &&& self.machine.keeps(&pre.machine)
                            &&& self.machine.stack_view() == stack
                            &&& self.pending() is Nothing
                            &&& self.tasks() == pre.tasks().push(
                                Task::Lines {
                                    code: pre.codes().len() as usize,
                                    next: 0,
                                    import: Some(pre.paths().len() as usize),
                                    mark: n as usize,
                                },
                            )
                        } else {
                            &&& self.aborted(pre)
                            &&& action is Failed
                            &&& action->Failed_0 is Source
                            &&& Code::refused(action->Failed_0->Source_0, file.text@)
                        },
                    },
                    None => {
                        &&& self.aborted(pre)
                        &&& action is Failed
                        &&& action->Failed_0 is Import
                        &&& action->Failed_0->Import_0@ == pre.paths()[p as int]
                    },
                },
            }
        }
    }

    /// What a step does: it takes the answer to the question that is open;
    /// where none is open, it goes on with the innermost task; where no task
    /// is left, the code has been carried out.
    pub open spec fn stepped(&self, pre: &Interpreter, event: Event, action: Action) -> bool {
        if !(pre.pending() is Nothing) {
            self.resumed(pre, event, action)
        } else if pre.tasks().len() == 0 {
            action is Done && self.stacked(pre, pre.machine.stack_view(), pre.tasks())
        } else {
            match pre.tasks().last() {
                Task::Lines { .. } => self.lined(pre, action),
                Task::Range { lo, at, .. } => if at == lo {
                    self.finished(pre, action)
                } else {
                    self.tokened(pre, action)
                },
                Task::Strand { .. } => self.stranded(pre, action),
                Task::Perform(p) => self.performed(pre, action, p, pre.tasks().drop_last()),
                Task::Repeat { .. } => self.repeated(pre, action),
                Task::Loop { .. } => self.looped(pre, action),
            }
        }
    }

    /// Nothing but the stack and the tasks has changed since `pre`, and no
    /// question is open.
    pub open spec fn continues(&self, pre: &Interpreter) -> bool {
        &&& self.pending() is Nothing
        &&& self.reads_as(pre)
        &&& self.defines_as(pre)
        &&& self.machine.keeps(&pre.machine)
    }
}

/// Whether two errors of types tell the same.
pub open spec fn same_type_error(a: TypeError, b: TypeError) -> bool {
    match (a, b) {
        (TypeError::Shape { left, right }, TypeError::Shape { left: l, right: r }) => left@ == l@
            && right@ == r@,
        (TypeError::Shape { .. }, _) => false,
        (_, TypeError::Shape { .. }) => false,
        _ => a == b,
    }
}

/// Whether two errors tell the same.
pub open spec fn same_error(a: RuntimeError, b: RuntimeError) -> bool {
    match (a, b) {
        (RuntimeError::Type(x, o), RuntimeError::Type(y, q)) => same_type_error(x, y) && o == q,
        (
            RuntimeError::Binding(BindingError::UnknownName(x)),
            RuntimeError::Binding(BindingError::UnknownName(y)),
        ) => x@ == y@,
        (RuntimeError::Source(x), RuntimeError::Source(y)) => x == y,
        (RuntimeError::Import(x), RuntimeError::Import(y)) => x@ == y@,
        (RuntimeError::Type(..), _) => false,
        (_, RuntimeError::Type(..)) => false,
        (RuntimeError::Binding(BindingError::UnknownName(_)), _) => false,
        (_, RuntimeError::Binding(BindingError::UnknownName(_))) => false,
        (RuntimeError::Source(_), _) => false,
        (_, RuntimeError::Source(_)) => false,
        (RuntimeError::Import(_), _) => false,
        (_, RuntimeError::Import(_)) => false,
        _ => a == b,
    }
}

/// Whether two actions ask the same of the host or tell it the same.
pub open spec fn same_action(a: Action, b: Action) -> bool {
    match (a, b) {
        (Action::Continue, Action::Continue) => true,
        (Action::Done, Action::Done) => true,
        (Action::Failed(x), Action::Failed(y)) => same_error(x, y),
        (Action::Literal(x), Action::Literal(y)) => x@ == y@,
        (Action::Monadic(p, x), Action::Monadic(q, y)) => p == q && x@ == y@,
        (Action::Dyadic(p, x), Action::Dyadic(q, y)) => p == q && x@ == y@,
        (Action::Random, Action::Random) => true,
        (Action::Print(x), Action::Print(y)) => x@ == y@,
        (Action::Load(x), Action::Load(y)) => x@ == y@,
        (Action::Write(x, v), Action::Write(y, w)) => x@ == y@ && v@ == w@,
        _ => false,
    }
}

/// Whether two interpreters with the actions that their last steps have
/// handed out cannot be told apart by the machine, the functions, the
/// paths, the mode, the tasks, the open question, and the action.
pub open spec fn alike(
    first: &Interpreter,
    first_action: Action,
    second: &Interpreter,
    second_action: Action,
) -> bool {
    &&& first.machine.stack_view() == second.machine.stack_view()
    &&& first.machine.bindings@ == second.machine.bindings@
    &&& first.machine.imports@ == second.machine.imports@
    &&& first.machine.frame_views() == second.machine.frame_views()
    &&& first.machine.function_names() == second.machine.function_names()
    &&& first.machine.scope_base == second.machine.scope_base
    &&& first.machine.next_frame == second.machine.next_frame
    &&& first.machine.fills == second.machine.fills
    &&& first.bodies() == second.bodies()
    &&& first.paths() == second.paths()
    &&& first.mode == second.mode
    &&& first.tasks() == second.tasks()
    &&& first.pending() == second.pending()
    &&& same_action(first_action, second_action)
}

/// Items that do not go together as rows fail with one error.
proof fn lemma_rows_fault_determined(
    e: TypeError,
    f: TypeError,
    items: Seq<ValueView>,
    fills: crate::value::Fills,
)
    requires
        rows_fault(e, items, fills),
        rows_fault(f, items, fills),
    ensures
        same_type_error(e, f),
    decreases items.len(),
{
    if items.len() > 2 && rows_of(items.drop_last(), fills) is None {
        lemma_rows_fault_determined(e, f, items.drop_last(), fills);
    }
}

proof fn lemma_entered_determined(
    pre: &Interpreter,
    a: &Interpreter,
    x: Action,
    b: &Interpreter,
    y: Action,
    stack: Seq<ValueView>,
    tasks: Seq<Task>,
    function: Function,
    code: usize,
    lo: usize,
    hi: usize,
    arity: u8,
    defined: Option<Body>,
)
    requires
        a.entered(pre, x, stack, tasks, function, code, lo, hi, arity, defined),
        b.entered(pre, y, stack, tasks, function, code, lo, hi, arity, defined),
    ensures
        alike(a, x, b, y),
{
    assert(a.tasks() =~= b.tasks());
    assert(a.machine.frame_views() =~= b.machine.frame_views());
}

proof fn lemma_called_determined(
    pre: &Interpreter,
    a: &Interpreter,
    x: Action,
    b: &Interpreter,
    y: Action,
    v: ValueView,
    stack: Seq<ValueView>,
    tasks: Seq<Task>,
)
    requires
        a.called(pre, x, v, stack, tasks),
        b.called(pre, y, v, stack, tasks),
    ensures
        alike(a, x, b, y),
{
    if v is Func && v.shape().len() == 0 && v.count() == 1 {
        let f = v->Func_0.data[0];
        if f.id < pre.bodies().len() {
            match pre.bodies()[f.id as int] {
                Body::Dfn { code, lo, hi, arity } => {
                    lemma_entered_determined(
                        pre,
                        a,
                        x,
                        b,
                        y,
                        stack,
                        tasks,
                        f,
                        code,
                        lo,
                        hi,
                        arity,
                        None,
                    );
                },
                _ => {},
            }
        }
    }
    assert(a.tasks() =~= b.tasks());
    assert(a.machine.frame_views() =~= b.machine.frame_views());
}

/// Of the functions of a module, only one is the first with a name.
proof fn lemma_first_called_once(
    names: Seq<Option<Seq<char>>>,
    module: Seq<Function>,
    name: Seq<char>,
    i: int,
    j: int,
)
    requires
        is_first_called(names, module, name, i),
        is_first_called(names, module, name, j),
    ensures
        i == j,
{
    if i < j {
        assert(!crate::modules::is_called(names, module[i], name));
    } else if j < i {
        assert(!crate::modules::is_called(names, module[j], name));
    }
}

#[verifier::rlimit(60)]
proof fn lemma_performed_determined(
    pre: &Interpreter,
    a: &Interpreter,
    x: Action,
    b: &Interpreter,
    y: Action,
    p: Primitive,
    tasks: Seq<Task>,
)
    requires
        a.performed(pre, x, p, tasks),
        b.performed(pre, y, p, tasks),
    ensures
        alike(a, x, b, y),
{
    let stack = pre.machine.stack_view();
    let n = stack.len() as int;
    if p == Primitive::Call {
        if n >= 1 {
            lemma_called_determined(pre, a, x, b, y, stack.last(), stack.drop_last(), tasks);
        }
    } else if p == Primitive::Recur {
        let frames = pre.machine.frame_views();
        if frames.len() > 0 && frames.last().function is Some {
            lemma_called_determined(
                pre,
                a,
                x,
                b,
                y,
                function_value(frames.last().function.unwrap()),
                stack,
                tasks,
            );
        }
    } else if p == Primitive::Use {
        if n >= 2 && stack[n - 1] is Char && stack[n - 2] is Func {
            let text = stack[n - 1]->Char_0.data;
            let functions = stack[n - 2]->Func_0.data;
            let names = pre.machine.function_names();
            if exists|i: int| is_first_called(names, functions, text, i) {
                let i = choose|i: int| #[trigger]
                    is_first_called(names, functions, text, i) && a.stacked(
                        pre,
                        stack.take(n - 2).push(function_value(functions[i])),
                        tasks,
                    );
                let j = choose|j: int| #[trigger]
                    is_first_called(names, functions, text, j) && b.stacked(
                        pre,
                        stack.take(n - 2).push(function_value(functions[j])),
                        tasks,
                    );
                lemma_first_called_once(names, functions, text, i, j);
            }
        }
    } else if p == Primitive::Dup || p == Primitive::Flip || p == Primitive::Couple || p
        == Primitive::Join {
    } else if is_monadic(p) || is_dyadic(p) {
    } else if p == Primitive::Shape || p == Primitive::Len || p == Primitive::Rank {
    } else if p == Primitive::Reverse || p == Primitive::First || p == Primitive::Pick {
    } else if p == Primitive::Rand || p == Primitive::Io(IoOp::Print) || p == Primitive::Io(
        IoOp::FWriteAll,
    ) || p == Primitive::Io(IoOp::Import) {
    } else {
    }
    assert(a.tasks() =~= b.tasks());
    assert(a.machine.frame_views() =~= b.machine.frame_views());
}

proof fn lemma_modified_determined(
    pre: &Interpreter,
    a: &Interpreter,
    x: Action,
    b: &Interpreter,
    y: Action,
    m: Primitive,
    operand: Operand,
    tasks: Seq<Task>,
)
    requires
        a.modified(pre, x, m, operand, tasks),
        b.modified(pre, y, m, operand, tasks),
    ensures
        alike(a, x, b, y),
{
    assert(a.tasks() =~= b.tasks());
    assert(a.machine.frame_views() =~= b.machine.frame_views());
}

proof fn lemma_named_determined(
    pre: &Interpreter,
    a: &Interpreter,
    x: Action,
    b: &Interpreter,
    y: Action,
    text: Seq<char>,
    call: Option<u64>,
    tasks: Seq<Task>,
    calling: bool,
)
    requires
        a.named(pre, x, text, call, tasks, calling),
        b.named(pre, y, text, call, tasks, calling),
    ensures
        alike(a, x, b, y),
{
    if !(text.len() == 1 && is_lower(text[0]) && call is Some) {
        match pre.machine.bindings@.resolve(text) {
            Some(bound) => {
                if calling && bound.value is Func && bound.value.shape().len() == 0
                    && bound.value.count() == 1 {
                    lemma_called_determined(
                        pre,
                        a,
                        x,
                        b,
                        y,
                        bound.value,
                        pre.machine.stack_view(),
                        tasks,
                    );
                }
            },
            None => {},
        }
    }
    assert(a.tasks() =~= b.tasks());
    assert(a.machine.frame_views() =~= b.machine.frame_views());
}

proof fn lemma_operated_determined(
    pre: &Interpreter,
    a: &Interpreter,
    x: Action,
    b: &Interpreter,
    y: Action,
    m: Primitive,
)
    requires
        a.operated(pre, x, m),
        b.operated(pre, y, m),
    ensures
        alike(a, x, b, y),
{
    let task = pre.tasks().last();
    let number = task->Range_code;
    let call = task->Range_call;
    let code = pre.codes()[number as int];
    let j = (task->Range_at - 1) as usize;
    let token = code.tokens[j as int];
    let partner = code.partner[j as int];
    let first = if token.kind == Kind::Close(Bracket::Round) {
        partner
    } else {
        j
    };
    let rest = with_top(
        pre.tasks(),
        Task::Range {
            code: number,
            lo: task->Range_lo,
            at: (first - 1) as usize,
            call,
            after: task->Range_after,
        },
    );
    match token.kind {
        Kind::Primitive(q) => {
            lemma_modified_determined(pre, a, x, b, y, m, Operand::New(Body::Primitive(q)), rest);
        },
        Kind::Close(_) => {
            lemma_modified_determined(
                pre,
                a,
                x,
                b,
                y,
                m,
                Operand::New(Body::Block { code: number, lo: (partner + 1) as usize, hi: j, call }),
                rest,
            );
        },
        _ => match pre.machine.bindings@.resolve(text_of(code, token)) {
            Some(bound) => {
                if bound.value is Func && bound.value.shape().len() == 0 && bound.value.count()
                    == 1 {
                    lemma_modified_determined(
                        pre,
                        a,
                        x,
                        b,
                        y,
                        m,
                        Operand::Known(bound.value->Func_0.data[0]),
                        rest,
                    );
                }
            },
            None => {},
        },
    }
    assert(a.tasks() =~= b.tasks());
    assert(a.machine.frame_views() =~= b.machine.frame_views());
}

#[verifier::rlimit(60)]
proof fn lemma_tokened_determined(pre: &Interpreter, a: &Interpreter, x: Action, b: &Interpreter, y: Action)
    requires
        a.tokened(pre, x),
        b.tokened(pre, y),
    ensures
        alike(a, x, b, y),
{
    let task = pre.tasks().last();
    let number = task->Range_code;
    let lo = task->Range_lo;
    let at = task->Range_at;
    let call = task->Range_call;
    let after = task->Range_after;
    let code = pre.codes()[number as int];
    let j = (at - 1) as usize;
    let token = code.tokens[j as int];
    let partner = code.partner[j as int];
    let first = if token.kind == Kind::Close(Bracket::Round) {
        partner
    } else {
        j
    };
    let stack = pre.machine.stack_view();
    let rest = with_top(pre.tasks(), Task::Range { code: number, lo, at: first, call, after });
    if token.kind is Close && partner < lo {
    } else if first > lo && is_operand(token.kind) && code.tokens[first - 1].kind is Primitive
        && is_modifier(code.tokens[first - 1].kind->Primitive_0) {
        lemma_operated_determined(pre, a, x, b, y, code.tokens[first - 1].kind->Primitive_0);
    } else if first > lo && code.tokens[first - 1].kind is Strand {
    } else {
        match token.kind {
            Kind::Name => {
                lemma_named_determined(pre, a, x, b, y, text_of(code, token), call, rest, true);
            },
            Kind::Primitive(p) => {
                lemma_performed_determined(pre, a, x, b, y, p, rest);
            },
            Kind::Close(Bracket::Curly) => {
                let arity = arity_of(
                    code.source.subrange(
                        code.tokens[partner as int].end as int,
                        token.start as int,
                    ),
                ) as u8;
                lemma_entered_determined(
                    pre,
                    a,
                    x,
                    b,
                    y,
                    stack,
                    with_top(
                        pre.tasks(),
                        Task::Range { code: number, lo, at: partner, call, after },
                    ),
                    Function { id: pre.machine.function_names().len() as usize },
                    number,
                    (partner + 1) as usize,
                    j,
                    arity,
                    Some(Body::Dfn { code: number, lo: (partner + 1) as usize, hi: j, arity }),
                );
            },
            _ => {},
        }
    }
    assert(a.tasks() =~= b.tasks());
    assert(a.machine.frame_views() =~= b.machine.frame_views());
}

proof fn lemma_stranded_determined(pre: &Interpreter, a: &Interpreter, x: Action, b: &Interpreter, y: Action)
    requires
        a.stranded(pre, x),
        b.stranded(pre, y),
    ensures
        alike(a, x, b, y),
{
    if pre.tasks().last()->Strand_pushed {
        let mark = pre.tasks().last()->Strand_mark;
        let stack = pre.machine.stack_view();
        if x is Failed && y is Failed && x->Failed_0 is Type && y->Failed_0 is Type && rows_of(
            gathered(stack, mark as nat),
            pre.machine.fills,
        ) is None && rows_fault(
            x->Failed_0->Type_0,
            gathered(stack, mark as nat),
            pre.machine.fills,
        ) && rows_fault(y->Failed_0->Type_0, gathered(stack, mark as nat), pre.machine.fills) {
            lemma_rows_fault_determined(
                x->Failed_0->Type_0,
                y->Failed_0->Type_0,
                gathered(stack, mark as nat),
                pre.machine.fills,
            );
        }
    }
    let task = pre.tasks().last();
    let code = pre.codes()[task->Strand_code as int];
    let j = (task->Strand_at - 1) as usize;
    let token = code.tokens[j as int];
    if !task->Strand_pushed {
        match token.kind {
            Kind::Name => {
                lemma_named_determined(
                    pre,
                    a,
                    x,
                    b,
                    y,
                    text_of(code, token),
                    task->Strand_call,
                    with_top(
                        pre.tasks(),
                        Task::Strand {
                            code: task->Strand_code,
                            lo: task->Strand_lo,
                            at: task->Strand_at,
                            call: task->Strand_call,
                            mark: task->Strand_mark,
                            pushed: true,
                        },
                    ),
                    false,
                );
            },
            _ => {},
        }
    }
    assert(a.tasks() =~= b.tasks());
    assert(a.machine.frame_views() =~= b.machine.frame_views());
}

proof fn lemma_looped_determined(pre: &Interpreter, a: &Interpreter, x: Action, b: &Interpreter, y: Action)
    requires
        a.looped(pre, x),
        b.looped(pre, y),
    ensures
        alike(a, x, b, y),
{
    {
        let at = pre.tasks().last()->Loop_at as int;
        let stack = pre.machine.stack_view();
        let items = gathered(stack, (at + 1) as nat);
        if x is Failed && y is Failed && x->Failed_0 is Type && y->Failed_0 is Type && rows_fault(
            x->Failed_0->Type_0,
            items,
            pre.machine.fills,
        ) && rows_fault(y->Failed_0->Type_0, items, pre.machine.fills) {
            lemma_rows_fault_determined(
                x->Failed_0->Type_0,
                y->Failed_0->Type_0,
                items,
                pre.machine.fills,
            );
        }
    }
    let task = pre.tasks().last();
    let kind = task->Loop_kind;
    let function = task->Loop_function;
    let at = task->Loop_at as int;
    let next = task->Loop_next as int;
    let count = task->Loop_count as int;
    let stack = pre.machine.stack_view();
    let made = if maps(kind) {
        count - next
    } else if kind is Reduce {
        if count > 0 {
            1int
        } else {
            0int
        }
    } else {
        next
    };
    let done = if maps(kind) {
        next == 0
    } else {
        next >= count
    };
    if 0 <= made && at < stack.len() && stack.len() == at + 1 + made && !done {
        let item_at = if maps(kind) {
            next - 1
        } else {
            next
        };
        let value = stack[at];
        if 0 <= item_at < items_in(kind, value) {
            let item = item_of(kind, value, item_at);
            let fed = if maps(kind) {
                stack.push(item)
            } else if kind is Reduce {
                stack.drop_last().push(item).push(stack.last())
            } else {
                stack.push(item).push(stack.last())
            };
            lemma_called_determined(
                pre,
                a,
                x,
                b,
                y,
                function_value(function),
                fed,
                with_top(
                    pre.tasks(),
                    Task::Loop {
                        kind,
                        function,
                        at: task->Loop_at,
                        next: if maps(kind) {
                            (next - 1) as usize
                        } else {
                            (next + 1) as usize
                        },
                        count: task->Loop_count,
                    },
                ),
            );
        }
    }
    assert(a.tasks() =~= b.tasks());
    assert(a.machine.frame_views() =~= b.machine.frame_views());
}

proof fn lemma_repeated_determined(pre: &Interpreter, a: &Interpreter, x: Action, b: &Interpreter, y: Action)
    requires
        a.repeated(pre, x),
        b.repeated(pre, y),
    ensures
        alike(a, x, b, y),
{
    let task = pre.tasks().last();
    if task->Repeat_left != 0 {
        lemma_called_determined(
            pre,
            a,
            x,
            b,
            y,
            function_value(task->Repeat_function),
            pre.machine.stack_view(),
            with_top(
                pre.tasks(),
                Task::Repeat {
                    function: task->Repeat_function,
                    left: (task->Repeat_left - 1) as u64,
                },
            ),
        );
    }
    assert(a.tasks() =~= b.tasks());
    assert(a.machine.frame_views() =~= b.machine.frame_views());
}

proof fn lemma_lined_determined(pre: &Interpreter, a: &Interpreter, x: Action, b: &Interpreter, y: Action)
    requires
        a.lined(pre, x),
        b.lined(pre, y),
    ensures
        alike(a, x, b, y),
{
    assert(a.tasks() =~= b.tasks());
    assert(a.machine.frame_views() =~= b.machine.frame_views());
}

proof fn lemma_finished_determined(pre: &Interpreter, a: &Interpreter, x: Action, b: &Interpreter, y: Action)
    requires
        a.finished(pre, x),
        b.finished(pre, y),
    ensures
        alike(a, x, b, y),
{
    let stack = pre.machine.stack_view();
    match pre.tasks().last()->Range_after {
        After::Collect(mark) => {
            if rows_of(gathered(stack, mark as nat), pre.machine.fills) is None {
                lemma_rows_fault_determined(
                    x->Failed_0->Type_0,
                    y->Failed_0->Type_0,
                    gathered(stack, mark as nat),
                    pre.machine.fills,
                );
            }
        },
        _ => {},
    }
    assert(a.tasks() =~= b.tasks());
    assert(a.machine.frame_views() =~= b.machine.frame_views());
}

proof fn lemma_resumed_determined(
    pre: &Interpreter,
    event: Event,
    a: &Interpreter,
    x: Action,
    b: &Interpreter,
    y: Action,
)
    requires
        a.resumed(pre, event, x),
        b.resumed(pre, event, y),
        !(pre.pending() is Nothing),
    ensures
        alike(a, x, b, y),
{
    assert(a.tasks() =~= b.tasks());
    assert(a.machine.frame_views() =~= b.machine.frame_views());
}

/// A step is determined by the interpreter before it and the event: two
/// steps from one interpreter with one event leave the same machine, the
/// same functions, the same tasks and the same open question, and hand out
/// the same action, where an action is the same as another if it asks the
/// same of the host or tells it the same.
pub proof fn lemma_step_determined(
    pre: &Interpreter,
    event: Event,
    first: &Interpreter,
    first_action: Action,
    second: &Interpreter,
    second_action: Action,
)
    requires
        first.stepped(pre, event, first_action),
        second.stepped(pre, event, second_action),
    ensures
        alike(first, first_action, second, second_action),
{
    if !(pre.pending() is Nothing) {
        lemma_resumed_determined(pre, event, first, first_action, second, second_action);
    } else if pre.tasks().len() > 0 {
        match pre.tasks().last() {
            Task::Lines { .. } => {
                lemma_lined_determined(pre, first, first_action, second, second_action);
            },
            Task::Range { lo, at, .. } => {
                if at == lo {
                    lemma_finished_determined(pre, first, first_action, second, second_action);
                } else {
                    lemma_tokened_determined(pre, first, first_action, second, second_action);
                }
            },
            Task::Strand { .. } => {
                lemma_stranded_determined(pre, first, first_action, second, second_action);
            },
            Task::Perform(p) => {
                lemma_performed_determined(
                    pre,
                    first,
                    first_action,
                    second,
                    second_action,
                    p,
                    pre.tasks().drop_last(),
                );
            },
            Task::Repeat { .. } => {
                lemma_repeated_determined(pre, first, first_action, second, second_action);
            },
            Task::Loop { .. } => {
                lemma_looped_determined(pre, first, first_action, second, second_action);
            },
        }
    }
    assert(first.tasks() =~= second.tasks());
    assert(first.machine.frame_views() =~= second.machine.frame_views());
}

} // verus!
