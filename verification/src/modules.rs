//! Names on the machine: bindings, scopes, modules and imports.
//!
//! A module is an array of named functions. A function gets its name when it
//! is bound; `use` finds a function of a module by its name, without regard
//! to case.

use vstd::prelude::*;
use crate::array::ArrayView;
use crate::error::{BindingError, Operation, RuntimeError, TypeError};
use crate::primitive::Primitive;
use crate::import::{cache_after, recorded, value_views, Request};
use crate::machine::Machine;
use crate::names::{fold, fold_case, same_chars};
use crate::scope::BindingsView;
use crate::text::string_of;
use crate::value::{Function, Value, ValueView};

verus! {

/// The function `f` has the name `name`, up to case.
pub open spec fn is_called(names: Seq<Option<Seq<char>>>, f: Function, name: Seq<char>) -> bool {
    f.id < names.len() && names[f.id as int] == Some(fold(name))
}

/// The function number `i` of `module` is the first with the name `name`.
pub open spec fn is_first_called(
    names: Seq<Option<Seq<char>>>,
    module: Seq<Function>,
    name: Seq<char>,
    i: int,
) -> bool {
    &&& 0 <= i < module.len()
    &&& is_called(names, module[i], name)
    &&& forall|j: int| 0 <= j < i ==> !is_called(names, #[trigger] module[j], name)
}

/// The function `f` as a value.
pub open spec fn function_value(f: Function) -> ValueView {
    ValueView::Func(ArrayView { shape: Seq::empty(), data: seq![f] })
}

/// The values that a file has left on a stack that had the height `mark`
/// before the file ran.
pub open spec fn left_since(stack: Seq<ValueView>, mark: nat) -> Seq<ValueView> {
    if mark <= stack.len() {
        stack.skip(mark as int)
    } else {
        Seq::empty()
    }
}

impl Machine {
    /// The first of `functions` that has the folded name `wanted`.
    fn find_called(&self, functions: &Vec<Function>, wanted: &Vec<char>, text: Ghost<Seq<char>>) -> (r:
        Option<Function>)
        requires
            wanted@ == fold(text@),
        ensures
            match r {
                Some(f) => exists|i: int| #[trigger]
                    is_first_called(self.function_names(), functions@, text@, i) && functions@[i]
                        == f,
                None => forall|i: int|
                    0 <= i < functions@.len() ==> !is_called(
                        self.function_names(),
                        #[trigger] functions@[i],
                        text@,
                    ),
            },
    {
        let ghost names = self.function_names();
        let mut i: usize = 0;
        while i < functions.len()
            invariant
                i <= functions.len(),
                names == self.function_names(),
                wanted@ == fold(text@),
                forall|j: int| 0 <= j < i ==> !is_called(names, #[trigger] functions@[j], text@),
            decreases functions.len() - i,
        {
            let f = functions[i];
            let matches = if f.id < self.functions.len() {
                match &self.functions[f.id] {
                    Some(known) => same_chars(known, wanted),
                    None => false,
                }
            } else {
                false
            };
            if matches {
                assert(is_first_called(names, functions@, text@, i as int));
                return Some(f);
            }
            i = i + 1;
        }
        None
    }

    /// Enters a function into the table of functions, under the name `name`
    /// where it has one, and hands out the reference to it.
    pub fn define(&mut self, name: Option<&str>) -> (f: Function)
        ensures
            f.id == old(self).function_names().len(),
            final(self).function_names() == old(self).function_names().push(
                match name {
                    Some(n) => Some(fold(n@)),
                    None => None,
                },
            ),
            final(self).stack == old(self).stack,
            final(self).bindings == old(self).bindings,
            final(self).imports == old(self).imports,
            final(self).fills == old(self).fills,
            final(self).scope_base == old(self).scope_base,
            final(self).frames == old(self).frames,
            final(self).next_frame == old(self).next_frame,
    {
        let id = self.functions.len();
        let ghost before = self.function_names();
        let folded = match name {
            Some(n) => Some(fold_case(n)),
            None => None,
        };
        let ghost entry = match name {
            Some(n) => Some(fold(n@)),
            None => None,
        };
        self.functions.push(folded);
        assert(self.function_names() =~= before.push(entry));
        Function { id }
    }

    /// Binds `name` to the value on top of the stack, which is taken from
    /// the stack.
    pub fn bind_top(&mut self, name: &str) -> (r: Result<(), RuntimeError>)
        ensures
            final(self).imports == old(self).imports,
            final(self).fills == old(self).fills,
            final(self).scope_base == old(self).scope_base,
            final(self).frames == old(self).frames,
            final(self).next_frame == old(self).next_frame,
            final(self).functions == old(self).functions,
            old(self).bindings@.wf() ==> final(self).bindings@.wf(),
            match r {
                Ok(_) => {
                    let s = old(self).stack_view();
                    &&& s.len() > 0
                    &&& final(self).stack_view() == s.drop_last()
                    &&& final(self).bindings@ == old(self).bindings@.bind(name@, s.last())
                },
                Err(e) => {
                    &&& e == RuntimeError::StackUnderflow(Operation::Bind)
                    &&& old(self).stack_view().len() == 0
                    &&& final(self).stack_view() == old(self).stack_view()
                    &&& final(self).bindings == old(self).bindings
                },
            },
    {
        match self.stack.pop() {
            Some(v) => {
                assert(self.stack_view() =~= old(self).stack_view().drop_last());
                assert(v@ == old(self).stack_view().last());
                self.bindings.bind(name, v);
                Ok(())
            },
            None => Err(RuntimeError::StackUnderflow(Operation::Bind)),
        }
    }

    /// Binds `name` to the oldest value that is still on the stack from the
    /// last scope, and takes that value from the stack: definitions without a
    /// right-hand side take up what a scope has left, in the order in which
    /// the scope made it.
    pub fn bind_leftover(&mut self, name: &str) -> (r: Result<(), RuntimeError>)
        ensures
            final(self).imports == old(self).imports,
            final(self).fills == old(self).fills,
            final(self).scope_base == old(self).scope_base,
            final(self).frames == old(self).frames,
            final(self).next_frame == old(self).next_frame,
            final(self).functions == old(self).functions,
            old(self).bindings@.wf() ==> final(self).bindings@.wf(),
            match r {
                Ok(_) => {
                    let s = old(self).stack_view();
                    let base = old(self).scope_base as int;
                    &&& base < s.len()
                    &&& final(self).stack_view() == s.remove(base)
                    &&& final(self).bindings@ == old(self).bindings@.bind(name@, s[base])
                },
                Err(e) => {
                    &&& e == RuntimeError::StackUnderflow(Operation::Bind)
                    &&& old(self).scope_base >= old(self).stack_view().len()
                    &&& final(self).stack_view() == old(self).stack_view()
                    &&& final(self).bindings == old(self).bindings
                },
            },
    {
        if self.scope_base >= self.stack.len() {
            return Err(RuntimeError::StackUnderflow(Operation::Bind));
        }
        let ghost s = self.stack_view();
        let v = self.stack.remove(self.scope_base);
        assert(self.stack_view() =~= s.remove(self.scope_base as int));
        assert(v@ == s[self.scope_base as int]);
        self.bindings.bind(name, v);
        Ok(())
    }

    /// Carries out a scope marker: it opens a scope where none is open, and
    /// ends the open one. The values that the scope leaves on the stack are
    /// those above the height that the stack has now.
    ///
    /// A scope cannot begin or end inside a dfn: there the marker does
    /// nothing, and the answer is `false`.
    pub fn toggle_scope(&mut self) -> (r: bool)
        requires
            old(self).bindings@.wf(),
        ensures
            final(self).bindings@.wf(),
            final(self).stack == old(self).stack,
            final(self).imports == old(self).imports,
            final(self).fills == old(self).fills,
            final(self).frames == old(self).frames,
            final(self).next_frame == old(self).next_frame,
            final(self).functions == old(self).functions,
            r == (old(self).frame_views().len() == 0),
            !r ==> final(self).bindings == old(self).bindings && final(self).scope_base == old(self).scope_base,
            r ==> {
                let b = old(self).bindings@;
                match b.scope_start {
                    Some(n) => {
                        &&& final(self).bindings@ == (BindingsView {
                            list: b.list.take(n as int),
                            scope_start: None,
                        })
                        &&& final(self).scope_base == old(self).scope_base
                    },
                    None => {
                        &&& final(self).bindings@ == (BindingsView {
                            list: b.list,
                            scope_start: Some(b.list.len()),
                        })
                        &&& final(self).scope_base == old(self).stack_view().len()
                    },
                }
            },
    {
        if self.frames.len() > 0 {
            return false;
        }
        if self.bindings.in_scope() {
            self.bindings.end_scope();
        } else {
            self.bindings.begin_scope();
            self.scope_base = self.stack.len();
        }
        true
    }

    /// Takes a name and a module from the stack, the name from the top, and
    /// puts there the first function of the module that has the name, up to case.
    ///
    /// Fails with a type error where the name is not a string or the module
    /// not an array of functions, and with [`BindingError::UnknownName`]
    /// where no function of the module has the name; the two stay on the stack.
    pub fn use_function(&mut self) -> (r: Result<(), RuntimeError>)
        ensures
            final(self).keeps(old(self)),
            ({
                let s = old(self).stack_view();
                let names = old(self).function_names();
                if s.len() < 2 {
                    r is Err && r->Err_0 == RuntimeError::StackUnderflow(Operation::Builtin(Primitive::Use)) && final(self).stack_view() == s
                } else {
                    let name = s[s.len() - 1];
                    let module = s[s.len() - 2];
                    if !(name is Char && module is Func) {
                        &&& r is Err
                        &&& r->Err_0 == RuntimeError::Type(
                            TypeError::Type {
                                left: name.element_type(),
                                right: module.element_type(),
                            },
                            Operation::Builtin(Primitive::Use),
                        )
                        &&& final(self).stack_view() == s
                    } else {
                        let text = name->Char_0.data;
                        let functions = module->Func_0.data;
                        match r {
                            Ok(_) => exists|i: int| #[trigger]
                                is_first_called(names, functions, text, i) && final(self).stack_view() == s.take(s.len() - 2).push(
                                    function_value(functions[i]),
                                ),
                            Err(e) => {
                                &&& final(self).stack_view() == s
                                &&& e is Binding
                                &&& e->Binding_0 is UnknownName
                                &&& e->Binding_0->UnknownName_0@ == text
                                &&& forall|i: int|
                                    0 <= i < functions.len() ==> !is_called(
                                        names,
                                        #[trigger] functions[i],
                                        text,
                                    )
                            },
                        }
                    }
                }
            }),
    {
        let n = self.stack.len();
        if n < 2 {
            return Err(RuntimeError::StackUnderflow(Operation::Builtin(Primitive::Use)));
        }
        let ghost s = self.stack_view();
        let ghost names = self.function_names();
        proof {
            assert(s[n - 1] == self.stack@[n - 1]@);
            assert(s[n - 2] == self.stack@[n - 2]@);
        }
        let found: Function = match (&self.stack[n - 1], &self.stack[n - 2]) {
            (Value::Char(name), Value::Func(module)) => {
                let text = name.data();
                let functions = module.data();
                let mut wanted: Vec<char> = Vec::new();
                let mut k: usize = 0;
                while k < text.len()
                    invariant
                        k <= text.len(),
                        wanted@.len() == k,
                        forall|m: int|
                            0 <= m < k ==> #[trigger] wanted@[m] == crate::names::lower(text@[m]),
                    decreases text.len() - k,
                {
                    wanted.push(crate::names::lower_case(text[k]));
                    k = k + 1;
                }
                assert(wanted@ =~= fold(text@));
                assert(text@ == s[n - 1]->Char_0.data);
                assert(functions@ == s[n - 2]->Func_0.data);
                match self.find_called(functions, &wanted, Ghost(text@)) {
                    Some(f) => f,
                    None => {
                        let mut copy: Vec<char> = Vec::new();
                        let mut k: usize = 0;
                        while k < text.len()
                            invariant
                                k <= text.len(),
                                copy@ == text@.take(k as int),
                            decreases text.len() - k,
                        {
                            copy.push(text[k]);
                            k = k + 1;
                            assert(copy@ =~= text@.take(k as int));
                        }
                        assert(text@.take(text@.len() as int) =~= text@);
                        return Err(
                            RuntimeError::Binding(BindingError::UnknownName(string_of(&copy))),
                        );
                    },
                }
            },
            (a, b) => {
                return Err(
                    RuntimeError::Type(
                        TypeError::Type { left: a.element_type(), right: b.element_type() },
                        Operation::Builtin(Primitive::Use),
                    ),
                );
            },
        };
        assert(exists|i: int| #[trigger]
            is_first_called(names, s[n - 2]->Func_0.data, s[n - 1]->Char_0.data, i) && s[n
                - 2]->Func_0.data[i] == found);
        self.stack.truncate(n - 2);
        self.stack.push(Value::function(found));
        assert(self.stack_view() =~= s.take(n - 2).push(function_value(found)));
        Ok(())
    }

    /// Looks for the file with the canonical path `path` among the files that
    /// this run has imported.
    /// Where the file is known, what its code left on the stack when it ran
    /// is put on the stack again, and the answer is `true`: the file is not
    /// to be run again. Where the file is not known, nothing happens.
    pub fn import_known(&mut self, path: &str) -> (r: bool)
        requires
            old(self).imports.wf(),
        ensures
            final(self).keeps(old(self)),
            match recorded(old(self).imports@, path@) {
                Some(values) => r && final(self).stack_view() == old(self).stack_view() + values,
                None => !r && final(self).stack_view() == old(self).stack_view(),
            },
    {
        match self.imports.lookup(path) {
            Some(values) => {
                let ghost s = self.stack_view();
                let ghost wanted = value_views(values@);
                let mut values = values;
                let mut rest: Vec<Value> = Vec::new();
                while values.len() > 0
                    invariant
                        value_views(rest@).reverse() + Seq::<ValueView>::empty() == wanted.skip(
                            values@.len() as int,
                        ),
                        value_views(values@) == wanted.take(values@.len() as int),
                        values@.len() <= wanted.len(),
                    decreases values@.len(),
                {
                    let ghost had = value_views(rest@);
                    let ghost m = values@.len();
                    proof {
                        assert(value_views(values@)[m - 1] == values@[m - 1]@);
                    }
                    let v = values.pop().unwrap();
                    rest.push(v);
                    proof {
                        assert(value_views(rest@) =~= had.push(v@));
                        assert(value_views(values@) =~= wanted.take(m - 1));
                        assert(value_views(rest@).reverse() =~= seq![v@] + had.reverse());
                        assert(value_views(rest@).reverse() + Seq::<ValueView>::empty()
                            =~= wanted.skip(m - 1));
                    }
                }
                assert(value_views(rest@).reverse() =~= wanted);
                while rest.len() > 0
                    invariant
                        self.keeps(old(self)),
                        self.stack_view() + value_views(rest@).reverse() == s + wanted,
                    decreases rest@.len(),
                {
                    let ghost had = self.stack_view();
                    let ghost left = value_views(rest@);
                    let ghost m = rest@.len();
                    proof {
                        assert(left[m - 1] == rest@[m - 1]@);
                    }
                    let v = rest.pop().unwrap();
                    self.stack.push(v);
                    proof {
                        assert(self.stack_view() =~= had.push(v@));
                        assert(value_views(rest@) =~= left.drop_last());
                        assert(left.reverse() =~= seq![v@] + left.drop_last().reverse());
                        assert(self.stack_view() + value_views(rest@).reverse() =~= had
                            + left.reverse());
                    }
                }
                assert(self.stack_view() =~= s + wanted);
                true
            },
            None => false,
        }
    }

    /// Records that the code of the file with the canonical path `path` has
    /// run and has left on the stack what stands above the height `mark`,
    /// which the stack had before the file ran. The values stay on the stack.
    pub fn import_done(&mut self, path: &str, mark: usize)
        requires
            old(self).imports.wf(),
        ensures
            final(self).imports.wf(),
            final(self).stack == old(self).stack,
            final(self).fills == old(self).fills,
            final(self).bindings == old(self).bindings,
            final(self).scope_base == old(self).scope_base,
            final(self).frames == old(self).frames,
            final(self).next_frame == old(self).next_frame,
            final(self).functions == old(self).functions,
            final(self).imports@ == cache_after(
                old(self).imports@,
                Request { path: path@, produced: left_since(old(self).stack_view(), mark as nat) },
            ),
    {
        let mut values: Vec<Value> = Vec::new();
        let n = self.stack.len();
        let ghost s = self.stack_view();
        if mark <= n {
            let mut k: usize = mark;
            assert(s.subrange(mark as int, mark as int) =~= Seq::<ValueView>::empty());
            while k < n
                invariant
                    mark <= k <= n,
                    n == self.stack@.len(),
                    s == self.stack_view(),
                    *self == *old(self),
                    value_views(values@) =~= s.subrange(mark as int, k as int),
                decreases n - k,
            {
                let ghost had = value_views(values@);
                values.push(self.stack[k].copy());
                assert(value_views(values@) =~= had.push(s[k as int]));
                k = k + 1;
            }
            assert(s.subrange(mark as int, n as int) =~= s.skip(mark as int));
        }
        assert(value_views(values@) =~= left_since(s, mark as nat));
        self.imports.record(path, values);
    }
}

} // verus!
