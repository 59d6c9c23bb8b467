//! The stack machine: one stack of values, on which every operation works.
//!
//! A line of code is carried out from its right end to its left: a literal
//! puts its value on the stack, an operation takes its operands from the top
//! of the stack, the first operand first, and puts its result there. An
//! operation that fails leaves the stack as it found it.

use vstd::prelude::*;
use crate::array::ArrayView;
use crate::error::{Operation, RuntimeError, TypeError};
use crate::import::{value_views, ImportCache};
use crate::primitive::Primitive;
use crate::scope::Bindings;
use crate::value::{
    couple_fault, coupled, join_fault, joined, rowed, rowed_fault, Fills, Function, Value,
    ValueView,
};

verus! {

/// The arguments of a dfn that is being carried out.
#[derive(Debug, PartialEq, Eq)]
pub struct Frame {
    /// The number of the call, which no other call of the run has.
    pub id: u64,
    /// The function that is being carried out, where it is one of the table.
    pub function: Option<Function>,
    /// The arguments, the one named `a` first.
    pub args: Vec<Value>,
}

/// What a [`Frame`] holds.
pub struct FrameView {
    pub id: u64,
    pub function: Option<Function>,
    pub args: Seq<ValueView>,
}

impl View for Frame {
    type V = FrameView;

    open spec fn view(&self) -> FrameView {
        FrameView { id: self.id, function: self.function, args: value_views(self.args@) }
    }
}

/// The stack and what belongs to one run of a program.
#[derive(Debug)]
pub struct Machine {
    /// The stack, its top last.
    pub stack: Vec<Value>,
    /// The names in force.
    pub bindings: Bindings,
    /// The files imported so far.
    pub imports: ImportCache,
    /// The height of the stack when the last scope began.
    pub scope_base: usize,
    /// The dfns that are being carried out, the innermost last.
    pub frames: Vec<Frame>,
    /// The number that the next call of a dfn gets.
    pub next_frame: u64,
    /// The names of the functions of this run, in lower case, each at the
    /// place that its [`Function`] gives.
    pub functions: Vec<Option<Vec<char>>>,
    /// The values that fill up rows of different shapes.
    pub fills: Fills,
}

/// The values that code in brackets has put on the stack since the bracket
/// was opened at the height `mark`, the top of the stack first. Code that has
/// taken values from below the mark has left none.
pub open spec fn gathered(stack: Seq<ValueView>, mark: nat) -> Seq<ValueView> {
    if mark <= stack.len() {
        stack.skip(mark as int).reverse()
    } else {
        Seq::empty()
    }
}

/// The stack below the values that [`gathered`] speaks of.
pub open spec fn below(stack: Seq<ValueView>, mark: nat) -> Seq<ValueView> {
    if mark <= stack.len() {
        stack.take(mark as int)
    } else {
        stack
    }
}

/// The array whose rows are `items`: no items make an empty list of numbers,
/// one item is the one row, the first two are put together as two rows, and
/// each further one is joined to what the ones before it made. Rows of
/// different shapes are filled up with `fills`. Nothing where the items do
/// not go together.
pub open spec fn rows_of(items: Seq<ValueView>, fills: Fills) -> Option<ValueView>
    decreases items.len(),
{
    if items.len() == 0 {
        Some(ValueView::Num(ArrayView { shape: seq![0usize], data: Seq::empty() }))
    } else if items.len() == 1 {
        Some(items[0].with_shape(seq![1usize] + items[0].shape()))
    } else if items.len() == 2 {
        rowed(items[0], items[1], fills)
    } else {
        match rows_of(items.drop_last(), fills) {
            Some(rows) => joined(rows, items.last(), fills),
            None => None,
        }
    }
}

/// Whether `e` is the error that tells why `items` do not go together as
/// rows: the error of the first two, or else of the first one that does not
/// join what the ones before it have made.
pub open spec fn rows_fault(e: TypeError, items: Seq<ValueView>, fills: Fills) -> bool
    decreases items.len(),
{
    if items.len() < 2 {
        false
    } else if items.len() == 2 {
        rowed_fault(e, items[0], items[1])
    } else {
        match rows_of(items.drop_last(), fills) {
            Some(rows) => join_fault(e, rows, items.last()),
            None => rows_fault(e, items.drop_last(), fills),
        }
    }
}

fn as_row(v: &Value) -> (r: Value)
    ensures
        r@ == v@.with_shape(seq![1usize] + v@.shape()),
{
    match v {
        Value::Num(a) => Value::Num(a.copy().into_row()),
        Value::Char(a) => Value::Char(a.copy().into_row()),
        Value::Func(a) => Value::Func(a.copy().into_row()),
    }
}

impl Machine {
    /// The stack, its top last.
    pub open spec fn stack_view(&self) -> Seq<ValueView> {
        value_views(self.stack@)
    }

    /// The dfns that are being carried out, the innermost last.
    pub open spec fn frame_views(&self) -> Seq<FrameView> {
        self.frames@.map_values(|f: Frame| f@)
    }

    /// The names of the functions of this run.
    pub open spec fn function_names(&self) -> Seq<Option<Seq<char>>> {
        self.functions@.map_values(
            |n: Option<Vec<char>>|
                match n {
                    Some(name) => Some(name@),
                    None => None,
                },
        )
    }

    /// The bindings and the imports are in order.
    pub open spec fn wf(&self) -> bool {
        self.bindings@.wf() && self.imports.wf()
    }

    /// Everything but the stack is as it is in `other`.
    pub open spec fn keeps(&self, other: &Machine) -> bool {
        &&& self.bindings == other.bindings
        &&& self.imports == other.imports
        &&& self.scope_base == other.scope_base
        &&& self.frames == other.frames
        &&& self.next_frame == other.next_frame
        &&& self.functions == other.functions
        &&& self.fills == other.fills
    }

    /// The machine is as it is at the beginning of a run: the stack is
    /// empty, nothing is bound and no scope is open, nothing has been
    /// imported, no dfn is being carried out and the first call will get the
    /// number 0, there are no functions, and rows are filled up with the
    /// number 0 and with spaces.
    pub open spec fn fresh(&self) -> bool {
        &&& self.wf()
        &&& self.stack_view().len() == 0
        &&& self.bindings@.list.len() == 0
        &&& self.bindings@.scope_start is None
        &&& self.imports@.len() == 0
        &&& self.scope_base == 0
        &&& self.frame_views().len() == 0
        &&& self.next_frame == 0
        &&& self.function_names().len() == 0
        &&& self.fills == (Fills { number: 0, character: ' ' })
    }

    /// A machine with an empty stack, no bindings, no imports and no functions.
    pub fn new() -> (m: Machine)
        ensures
            m.fresh(),
            m.wf(),
            m.stack_view().len() == 0,
            m.bindings@.list.len() == 0,
            m.bindings@.scope_start is None,
            m.imports@.len() == 0,
            m.scope_base == 0,
            m.frame_views().len() == 0,
            m.function_names().len() == 0,
            m.fills == (Fills { number: 0, character: ' ' }),
    {
        Machine {
            stack: Vec::new(),
            bindings: Bindings::new(),
            imports: ImportCache::new(),
            scope_base: 0,
            frames: Vec::new(),
            next_frame: 0,
            functions: Vec::new(),
            fills: Fills { number: 0, character: ' ' },
        }
    }

    /// The height of the stack.
    pub fn depth(&self) -> (n: usize)
        ensures
            n == self.stack_view().len(),
    {
        self.stack.len()
    }

    /// Puts `v` on the stack.
    pub fn push(&mut self, v: Value)
        ensures
            final(self).stack_view() == old(self).stack_view().push(v@),
            final(self).keeps(old(self)),
    {
        self.stack.push(v);
        assert(self.stack_view() =~= old(self).stack_view().push(v@));
    }

    /// Takes the top of the stack. Taking from the empty stack is the error
    /// that ends a run.
    pub fn pop(&mut self) -> (r: Result<Value, RuntimeError>)
        ensures
            final(self).keeps(old(self)),
            match r {
                Ok(v) => {
                    &&& old(self).stack_view().len() > 0
                    &&& v@ == old(self).stack_view().last()
                    &&& final(self).stack_view() == old(self).stack_view().drop_last()
                },
                Err(e) => {
                    &&& e == RuntimeError::StackUnderflow(Operation::Take)
                    &&& old(self).stack_view().len() == 0
                    &&& final(self).stack_view() == old(self).stack_view()
                },
            },
    {
        match self.stack.pop() {
            Some(v) => {
                assert(self.stack_view() =~= old(self).stack_view().drop_last());
                Ok(v)
            },
            None => Err(RuntimeError::StackUnderflow(Operation::Take)),
        }
    }

    /// Takes the whole stack, its bottom first, and leaves it empty.
    pub fn take_stack(&mut self) -> (r: Vec<Value>)
        ensures
            value_views(r@) == old(self).stack_view(),
            final(self).stack_view().len() == 0,
            final(self).keeps(old(self)),
    {
        let mut taken: Vec<Value> = Vec::new();
        std::mem::swap(&mut self.stack, &mut taken);
        taken
    }

    /// Duplicates the top of the stack.
    pub fn dup(&mut self) -> (r: Result<(), RuntimeError>)
        ensures
            final(self).keeps(old(self)),
            match r {
                Ok(_) => old(self).stack_view().len() > 0 && final(self).stack_view() == old(self).stack_view().push(old(self).stack_view().last()),
                Err(e) => e == RuntimeError::StackUnderflow(Operation::Builtin(Primitive::Dup)) && old(self).stack_view().len() == 0 && final(self).stack_view() == old(self).stack_view(),
            },
    {
        let n = self.stack.len();
        if n == 0 {
            return Err(RuntimeError::StackUnderflow(Operation::Builtin(Primitive::Dup)));
        }
        let copy = self.stack[n - 1].copy();
        self.stack.push(copy);
        assert(self.stack_view() =~= old(self).stack_view().push(old(self).stack_view().last()));
        Ok(())
    }

    /// Swaps the two values on top of the stack.
    pub fn flip(&mut self) -> (r: Result<(), RuntimeError>)
        ensures
            final(self).keeps(old(self)),
            match r {
                Ok(_) => {
                    let s = old(self).stack_view();
                    &&& s.len() >= 2
                    &&& final(self).stack_view() == s.take(s.len() - 2).push(s[s.len() - 1]).push(
                        s[s.len() - 2],
                    )
                },
                Err(e) => e == RuntimeError::StackUnderflow(Operation::Builtin(Primitive::Flip)) && old(self).stack_view().len() < 2 && final(self).stack_view() == old(self).stack_view(),
            },
    {
        let n = self.stack.len();
        if n < 2 {
            return Err(RuntimeError::StackUnderflow(Operation::Builtin(Primitive::Flip)));
        }
        let ghost s = self.stack_view();
        let a = self.stack.pop().unwrap();
        let b = self.stack.pop().unwrap();
        self.stack.push(a);
        self.stack.push(b);
        assert(self.stack_view() =~= s.take(s.len() - 2).push(s[s.len() - 1]).push(s[s.len() - 2]));
        Ok(())
    }

    /// Replaces the value on top of the stack by `result`.
    pub(crate) fn replace_top(&mut self, result: Value)
        requires
            old(self).stack_view().len() >= 1,
        ensures
            final(self).stack_view() == old(self).stack_view().drop_last().push(result@),
            final(self).keeps(old(self)),
    {
        let n = self.stack.len();
        self.stack.truncate(n - 1);
        self.stack.push(result);
        assert(self.stack_view() =~= old(self).stack_view().drop_last().push(result@));
    }

    /// Replaces the two values on top of the stack by `result`.
    pub(crate) fn replace_two(&mut self, result: Value)
        requires
            old(self).stack_view().len() >= 2,
        ensures
            final(self).stack_view() == old(self).stack_view().take(
                old(self).stack_view().len() - 2,
            ).push(result@),
            final(self).keeps(old(self)),
    {
        let n = self.stack.len();
        self.stack.truncate(n - 2);
        self.stack.push(result);
        assert(self.stack_view() =~= old(self).stack_view().take(n - 2).push(result@));
    }

    /// Couples the two values on top of the stack: the top becomes the first
    /// row, the value below it the second.
    pub fn couple(&mut self) -> (r: Result<(), RuntimeError>)
        ensures
            final(self).keeps(old(self)),
            ({
                let s = old(self).stack_view();
                if s.len() < 2 {
                    r is Err && r->Err_0 == RuntimeError::StackUnderflow(Operation::Builtin(Primitive::Couple)) && final(self).stack_view() == s
                } else {
                    match coupled(s[s.len() - 1], s[s.len() - 2]) {
                        Some(c) => r is Ok && final(self).stack_view() == s.take(s.len() - 2).push(
                            c,
                        ),
                        None => {
                            &&& r is Err
                            &&& r->Err_0 is Type
                            &&& r->Err_0->Type_1 == Operation::Builtin(Primitive::Couple)
                            &&& couple_fault(r->Err_0->Type_0, s[s.len() - 1], s[s.len() - 2])
                            &&& final(self).stack_view() == s
                        },
                    }
                }
            }),
    {
        let n = self.stack.len();
        if n < 2 {
            return Err(RuntimeError::StackUnderflow(Operation::Builtin(Primitive::Couple)));
        }
        match Value::couple(&self.stack[n - 1], &self.stack[n - 2]) {
            Ok(c) => {
                self.replace_two(c);
                Ok(())
            },
            Err(e) => Err(RuntimeError::Type(e, Operation::Builtin(Primitive::Couple))),
        }
    }

    /// Joins the two values on top of the stack: the rows of the top come
    /// first, then the rows of the value below it.
    pub fn join(&mut self) -> (r: Result<(), RuntimeError>)
        ensures
            final(self).keeps(old(self)),
            ({
                let s = old(self).stack_view();
                if s.len() < 2 {
                    r is Err && r->Err_0 == RuntimeError::StackUnderflow(Operation::Builtin(Primitive::Join)) && final(self).stack_view() == s
                } else {
                    match joined(s[s.len() - 1], s[s.len() - 2], old(self).fills) {
                        Some(c) => r is Ok && final(self).stack_view() == s.take(s.len() - 2).push(
                            c,
                        ),
                        None => {
                            &&& r is Err
                            &&& r->Err_0 is Type
                            &&& r->Err_0->Type_1 == Operation::Builtin(Primitive::Join)
                            &&& join_fault(r->Err_0->Type_0, s[s.len() - 1], s[s.len() - 2])
                            &&& final(self).stack_view() == s
                        },
                    }
                }
            }),
    {
        let n = self.stack.len();
        if n < 2 {
            return Err(RuntimeError::StackUnderflow(Operation::Builtin(Primitive::Join)));
        }
        match Value::join(&self.stack[n - 1], &self.stack[n - 2], self.fills) {
            Ok(c) => {
                self.replace_two(c);
                Ok(())
            },
            Err(e) => Err(RuntimeError::Type(e, Operation::Builtin(Primitive::Join))),
        }
    }

    /// The array that the values above the height `mark` make as rows, the
    /// top of the stack as the first row. The stack stays as it is.
    pub fn rows_above(&self, mark: usize) -> (r: Result<Value, TypeError>)
        ensures
            match rows_of(gathered(self.stack_view(), mark as nat), self.fills) {
                Some(rows) => r is Ok && r->Ok_0@ == rows,
                None => r is Err && rows_fault(
                    r->Err_0,
                    gathered(self.stack_view(), mark as nat),
                    self.fills,
                ),
            },
    {
        let n = self.stack.len();
        let ghost s = self.stack_view();
        let ghost items = gathered(s, mark as nat);
        if mark >= n {
            assert(items.len() == 0);
            let empty: Vec<u64> = Vec::new();
            return Ok(Value::numbers(empty));
        }
        let count = n - mark;
        assert(items.len() == count);
        assert forall|k: int| 0 <= k < count implies #[trigger] items[k] == s[n - 1 - k] by {}
        if count == 1 {
            return Ok(as_row(&self.stack[n - 1]));
        }
        let fills = self.fills;
        let mut rows = match Value::couple_rows(&self.stack[n - 1], &self.stack[n - 2], fills) {
            Ok(c) => c,
            Err(e) => {
                proof {
                    lemma_rows_fail(items, 2, fills);
                }
                return Err(e);
            },
        };
        let mut k: usize = 2;
        assert(items.take(2).drop_last() =~= items.take(1));
        while k < count
            invariant
                2 <= k <= count,
                count == n - mark,
                n == self.stack@.len(),
                self.stack_view() == s,
                items == gathered(s, mark as nat),
                items.len() == count,
                forall|j: int| 0 <= j < count ==> #[trigger] items[j] == s[n - 1 - j],
                fills == self.fills,
                rows_of(items.take(k as int), fills) == Some(rows@),
            decreases count - k,
        {
            proof {
                assert(items.take(k + 1).drop_last() =~= items.take(k as int));
                assert(items.take(k + 1).last() == items[k as int]);
            }
            rows = match Value::join(&rows, &self.stack[n - 1 - k], fills) {
                Ok(c) => c,
                Err(e) => {
                    proof {
                        lemma_rows_fail(items, k + 1, fills);
                    }
                    return Err(e);
                },
            };
            k = k + 1;
        }
        assert(items.take(count as int) =~= items);
        Ok(rows)
    }

    /// Closes a bracket that was opened when the stack had the height
    /// `mark`: the values put on the stack since then become the rows of one
    /// array, the top of the stack the first row, and the array takes their
    /// place. Where they do not go together the operation fails and they stay.
    pub fn collect(&mut self, mark: usize) -> (r: Result<(), RuntimeError>)
        ensures
            final(self).keeps(old(self)),
            match rows_of(gathered(old(self).stack_view(), mark as nat), old(self).fills) {
                Some(rows) => r is Ok && final(self).stack_view() == below(
                    old(self).stack_view(),
                    mark as nat,
                ).push(rows),
                None => {
                    &&& r is Err
                    &&& r->Err_0 is Type
                    &&& r->Err_0->Type_1 == Operation::Collect
                    &&& rows_fault(
                        r->Err_0->Type_0,
                        gathered(old(self).stack_view(), mark as nat),
                        old(self).fills,
                    )
                    &&& final(self).stack_view() == old(self).stack_view()
                },
            },
    {
        let ghost s = self.stack_view();
        match self.rows_above(mark) {
            Ok(rows) => {
                self.stack.truncate(mark);
                self.stack.push(rows);
                assert(self.stack_view() =~= below(s, mark as nat).push(rows@));
                Ok(())
            },
            Err(e) => Err(RuntimeError::Type(e, Operation::Collect)),
        }
    }
}

/// Items of which the first few do not go together do not go together.
proof fn lemma_rows_fail(items: Seq<ValueView>, k: int, fills: Fills)
    requires
        2 <= k <= items.len(),
        rows_of(items.take(k), fills) is None,
    ensures
        rows_of(items, fills) is None,
        forall|e: TypeError|
            rows_fault(e, items.take(k), fills) ==> #[trigger] rows_fault(e, items, fills),
    decreases items.len() - k,
{
    if k < items.len() {
        assert(items.take(k + 1).drop_last() =~= items.take(k));
        lemma_rows_fail(items, k + 1, fills);
    } else {
        assert(items.take(k) =~= items);
    }
}

} // verus!
