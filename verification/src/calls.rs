//! Calls of dfns: a dfn takes its arguments from the stack when it is called
//! and keeps them under the letters `a`, `b`, `c` and so on until it returns.
//!
//! Every call has a number of its own. Code that refers to an argument refers
//! to the argument of one call; when that call has returned, the reference is
//! an error.

use vstd::prelude::*;
use crate::dfn::letter_index;
use crate::error::{BindingError, Operation, RuntimeError};
use crate::import::value_views;
use crate::lex::is_lower;
use crate::machine::{Frame, FrameView, Machine};
use crate::value::{Function, Value, ValueView};

verus! {

/// The place of the innermost call with the number `id` among `frames`.
pub open spec fn frame_of(frames: Seq<FrameView>, id: u64) -> Option<int>
    decreases frames.len(),
{
    if frames.len() == 0 {
        None
    } else if frames.last().id == id {
        Some(frames.len() - 1)
    } else {
        frame_of(frames.drop_last(), id)
    }
}

/// The argument that the letter `letter` stands for in the call number `id`,
/// where that call is being carried out and has such an argument.
pub open spec fn argument_of(frames: Seq<FrameView>, id: u64, letter: char) -> Option<ValueView> {
    match frame_of(frames, id) {
        Some(i) => if is_lower(letter) && letter_index(letter) <= frames[i].args.len() {
            Some(frames[i].args[letter_index(letter) - 1])
        } else {
            None
        },
        None => None,
    }
}

/// The arguments that a dfn of the arity `arity` takes from `stack`: the top
/// of the stack is the first.
pub open spec fn arguments(stack: Seq<ValueView>, arity: nat) -> Seq<ValueView> {
    stack.skip(stack.len() - arity).reverse()
}

/// A call that is not among the calls being carried out has no arguments:
/// once a dfn has returned, references to its arguments fail.
pub proof fn lemma_returned_call(frames: Seq<FrameView>, id: u64, letter: char)
    requires
        forall|i: int| 0 <= i < frames.len() ==> (#[trigger] frames[i]).id != id,
    ensures
        frame_of(frames, id) is None,
        argument_of(frames, id, letter) is None,
    decreases frames.len(),
{
    if frames.len() > 0 {
        assert(frames.last() == frames[frames.len() - 1]);
        assert forall|i: int| 0 <= i < frames.drop_last().len() implies (
        #[trigger] frames.drop_last()[i]).id != id by {
            assert(frames.drop_last()[i] == frames[i]);
        }
        lemma_returned_call(frames.drop_last(), id, letter);
    }
}

impl Machine {
    /// The calls that are being carried out are numbered below the number
    /// that the next call gets.
    pub open spec fn numbered(&self) -> bool {
        forall|i: int|
            0 <= i < self.frame_views().len() ==> (#[trigger] self.frame_views()[i]).id
                < self.next_frame
    }

    /// Begins a call of a dfn of the arity `arity`: the dfn takes its
    /// arguments from the stack, the top of the stack as `a`. The answer is
    /// the number of the call.
    ///
    /// With fewer values on the stack than the dfn takes, the run ends.
    pub fn enter_dfn(&mut self, function: Option<Function>, arity: u8) -> (r: Result<
        u64,
        RuntimeError,
    >)
        ensures
            final(self).bindings == old(self).bindings,
            final(self).imports == old(self).imports,
            final(self).fills == old(self).fills,
            final(self).scope_base == old(self).scope_base,
            final(self).functions == old(self).functions,
            old(self).numbered() ==> final(self).numbered(),
            match r {
                Ok(id) => {
                    let s = old(self).stack_view();
                    &&& arity <= s.len()
                    &&& id == old(self).next_frame
                    &&& final(self).next_frame == id + 1
                    &&& final(self).stack_view() == s.take(s.len() - arity)
                    &&& final(self).frame_views() == old(self).frame_views().push(
                        FrameView { id, function, args: arguments(s, arity as nat) },
                    )
                },
                Err(e) => {
                    &&& final(self).stack_view() == old(self).stack_view()
                    &&& final(self).frame_views() == old(self).frame_views()
                    &&& final(self).next_frame == old(self).next_frame
                    &&& if old(self).stack_view().len() < arity {
                        e == RuntimeError::StackUnderflow(Operation::Call)
                    } else {
                        e is Exhausted && old(self).next_frame == u64::MAX
                    }
                },
            },
    {
        let n = self.stack.len();
        if n < arity as usize {
            return Err(RuntimeError::StackUnderflow(Operation::Call));
        }
        if self.next_frame == u64::MAX {
            return Err(RuntimeError::Exhausted);
        }
        let ghost s = self.stack_view();
        let ghost before = self.frame_views();
        let mut args: Vec<Value> = Vec::new();
        let mut k: usize = 0;
        while k < arity as usize
            invariant
                k <= arity <= n,
                n == s.len(),
                self.stack_view() == s.take(n - k),
                self.stack@.len() == n - k,
                self.bindings == old(self).bindings,
                self.imports == old(self).imports,
                self.fills == old(self).fills,
                self.scope_base == old(self).scope_base,
                self.functions == old(self).functions,
                self.frames == old(self).frames,
                self.next_frame == old(self).next_frame,
                value_views(args@) == s.skip(n - k).reverse(),
            decreases arity - k,
        {
            let ghost had = value_views(args@);
            proof {
                assert(self.stack_view()[n - k - 1] == self.stack@[n - k - 1]@);
                assert(s.take(n - k)[n - k - 1] == s[n - k - 1]);
            }
            let v = self.stack.pop().unwrap();
            assert(v@ == s[n - k - 1]);
            args.push(v);
            k = k + 1;
            assert(self.stack_view() =~= s.take(n - k));
            assert(value_views(args@) =~= had.push(s[n - k]));
            assert(value_views(args@) =~= s.skip(n - k).reverse());
        }
        let id = self.next_frame;
        self.frames.push(Frame { id, function, args });
        self.next_frame = id + 1;
        assert(self.frame_views() =~= before.push(
            FrameView { id, function, args: arguments(s, arity as nat) },
        ));
        Ok(id)
    }

    /// Ends the innermost call. Its arguments are gone with it.
    pub fn leave_dfn(&mut self)
        ensures
            final(self).stack == old(self).stack,
            final(self).bindings == old(self).bindings,
            final(self).imports == old(self).imports,
            final(self).fills == old(self).fills,
            final(self).scope_base == old(self).scope_base,
            final(self).functions == old(self).functions,
            final(self).next_frame == old(self).next_frame,
            old(self).numbered() ==> final(self).numbered(),
            final(self).frame_views() == if old(self).frame_views().len() > 0 {
                old(self).frame_views().drop_last()
            } else {
                old(self).frame_views()
            },
    {
        let ghost before = self.frame_views();
        let _ = self.frames.pop();
        proof {
            if before.len() > 0 {
                assert(self.frame_views() =~= before.drop_last());
            } else {
                assert(self.frame_views() =~= before);
            }
        }
    }

    /// Gives up every call that is being carried out, as when a run ends early.
    pub fn abandon_calls(&mut self)
        ensures
            final(self).stack == old(self).stack,
            final(self).bindings == old(self).bindings,
            final(self).imports == old(self).imports,
            final(self).fills == old(self).fills,
            final(self).scope_base == old(self).scope_base,
            final(self).functions == old(self).functions,
            final(self).next_frame == old(self).next_frame,
            final(self).frame_views().len() == 0,
            final(self).numbered(),
    {
        self.frames.clear();
    }

    /// The number of the innermost call that is being carried out.
    pub fn current_call(&self) -> (r: Option<u64>)
        ensures
            match r {
                Some(id) => self.frame_views().len() > 0 && id == self.frame_views().last().id,
                None => self.frame_views().len() == 0,
            },
    {
        let n = self.frames.len();
        if n == 0 {
            None
        } else {
            Some(self.frames[n - 1].id)
        }
    }

    /// The function that recursion calls: the one of the innermost call.
    pub fn recur_target(&self) -> (r: Option<Function>)
        ensures
            r == if self.frame_views().len() > 0 {
                self.frame_views().last().function
            } else {
                None
            },
    {
        let n = self.frames.len();
        if n == 0 {
            None
        } else {
            self.frames[n - 1].function
        }
    }

    /// The argument that `letter` stands for in the call number `call`.
    ///
    /// Fails where that call has returned, and where it has no such argument.
    pub fn argument(&self, call: u64, letter: char) -> (r: Result<Value, RuntimeError>)
        ensures
            match r {
                Ok(v) => argument_of(self.frame_views(), call, letter) == Some(v@),
                Err(e) => argument_of(self.frame_views(), call, letter) is None && e
                    == RuntimeError::Binding(BindingError::ArgumentOutOfScope(letter)),
            },
    {
        let ghost frames = self.frame_views();
        let mut i: usize = self.frames.len();
        assert(frames.take(i as int) =~= frames);
        while i > 0
            invariant
                i <= self.frames.len(),
                frames == self.frame_views(),
                frame_of(frames, call) == frame_of(frames.take(i as int), call),
            decreases i,
        {
            i = i - 1;
            proof {
                let upto = frames.take(i + 1);
                assert(upto.last() == frames[i as int]);
                assert(upto.drop_last() =~= frames.take(i as int));
            }
            if self.frames[i].id == call {
                let frame = &self.frames[i];
                if 'a' <= letter && letter <= 'z' {
                    let index: usize = ((letter as u32) - ('a' as u32)) as usize;
                    if index < frame.args.len() {
                        return Ok(frame.args[index].copy());
                    }
                }
                return Err(RuntimeError::Binding(BindingError::ArgumentOutOfScope(letter)));
            }
        }
        Err(RuntimeError::Binding(BindingError::ArgumentOutOfScope(letter)))
    }
}

} // verus!
