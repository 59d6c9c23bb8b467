//! Bindings and scopes.
//!
//! A binding gives a name to a value. Names are looked up without regard to
//! case, and the binding made last wins. A scope is a stretch of a file whose
//! bindings end with it; scopes do not nest.

use vstd::prelude::*;
use crate::names::{binds_function, fold, fold_case, names_function, same_chars, same_name};
use crate::value::{Value, ValueView};

verus! {

/// A name and what it is bound to.
#[derive(Debug, PartialEq, Eq)]
pub struct Binding {
    /// The name in the form under which it is looked up.
    pub name: Vec<char>,
    pub value: Value,
    /// Whether the name stands for a function to call rather than for a value.
    pub function: bool,
}

/// What a [`Binding`] holds.
pub struct BindingView {
    pub name: Seq<char>,
    pub value: ValueView,
    pub function: bool,
}

impl View for Binding {
    type V = BindingView;

    open spec fn view(&self) -> BindingView {
        BindingView { name: self.name@, value: self.value@, function: self.function }
    }
}

/// The bindings that are in force, in the order in which they were made.
#[derive(Debug)]
pub struct Bindings {
    list: Vec<Binding>,
    scope_start: Option<usize>,
}

/// What [`Bindings`] hold: the bindings in force, and for an open scope the
/// number of bindings that were in force when it began.
pub struct BindingsView {
    pub list: Seq<BindingView>,
    pub scope_start: Option<nat>,
}

/// The views of a sequence of bindings.
pub open spec fn binding_views(list: Seq<Binding>) -> Seq<BindingView> {
    list.map_values(|b: Binding| b@)
}

/// The place of the last binding of the folded name `name` in `list`.
pub open spec fn last_bound(list: Seq<BindingView>, name: Seq<char>) -> Option<int>
    decreases list.len(),
{
    if list.len() == 0 {
        None
    } else if list.last().name == name {
        Some(list.len() - 1)
    } else {
        last_bound(list.drop_last(), name)
    }
}

impl BindingsView {
    /// An open scope began with bindings that are still in force.
    pub open spec fn wf(self) -> bool {
        match self.scope_start {
            Some(n) => n <= self.list.len(),
            None => true,
        }
    }

    /// What the name `name` stands for: the binding made last under a name
    /// that differs from it in case at most.
    pub open spec fn resolve(self, name: Seq<char>) -> Option<BindingView> {
        match last_bound(self.list, fold(name)) {
            Some(i) => Some(self.list[i]),
            None => None,
        }
    }

    /// The bindings after `name` has been bound to `value`.
    pub open spec fn bind(self, name: Seq<char>, value: ValueView) -> BindingsView {
        BindingsView {
            list: self.list.push(
                BindingView { name: fold(name), value, function: names_function(name) },
            ),
            scope_start: self.scope_start,
        }
    }
}

/// The last binding of a name lies in the list and has that name, and no
/// binding behind it has.
pub proof fn lemma_last_bound(list: Seq<BindingView>, name: Seq<char>)
    ensures
        match last_bound(list, name) {
            Some(i) => 0 <= i < list.len() && list[i].name == name && forall|j: int|
                i < j < list.len() ==> (#[trigger] list[j]).name != name,
            None => forall|j: int| 0 <= j < list.len() ==> (#[trigger] list[j]).name != name,
        },
    decreases list.len(),
{
    if list.len() > 0 && list.last().name != name {
        lemma_last_bound(list.drop_last(), name);
        assert forall|j: int| 0 <= j < list.len() - 1 implies list[j] == list.drop_last()[j] by {}
    }
}

/// Names that differ only in case stand for the same thing.
pub proof fn lemma_case_insensitive(bindings: BindingsView, a: Seq<char>, b: Seq<char>)
    requires
        same_name(a, b),
    ensures
        bindings.resolve(a) == bindings.resolve(b),
{
}

/// A name stands for what it was bound to last, however it is written:
/// right after `name` is bound to `value`, every name that differs from
/// `name` in case at most stands for `value`.
pub proof fn lemma_bound_then_found(
    bindings: BindingsView,
    name: Seq<char>,
    value: ValueView,
    other: Seq<char>,
)
    requires
        same_name(name, other),
    ensures
        bindings.bind(name, value).resolve(other) == Some(
            BindingView { name: fold(name), value, function: names_function(name) },
        ),
{
}

/// A scope forgets its bindings: when a scope has begun with the bindings
/// `before` in force, whatever is bound in it, the bindings that are in force
/// when it has ended are `before` again.
pub proof fn lemma_scope_forgets(before: Seq<BindingView>, inside: Seq<BindingView>)
    ensures
        (BindingsView {
            list: (before + inside).take(before.len() as int),
            scope_start: None,
        }) == (BindingsView { list: before, scope_start: None }),
        forall|name: Seq<char>|
            (BindingsView {
                list: (before + inside).take(before.len() as int),
                scope_start: None,
            }).resolve(name) == (#[trigger] (BindingsView { list: before, scope_start: None }).resolve(
                name,
            )),
{
    assert((before + inside).take(before.len() as int) =~= before);
}

impl View for Bindings {
    type V = BindingsView;

    closed spec fn view(&self) -> BindingsView {
        BindingsView {
            list: binding_views(self.list@),
            scope_start: match self.scope_start {
                Some(n) => Some(n as nat),
                None => None,
            },
        }
    }
}

impl Bindings {
    /// No bindings, and no scope open.
    pub fn new() -> (r: Bindings)
        ensures
            r@.wf(),
            r@.list.len() == 0,
            r@.scope_start is None,
    {
        Bindings { list: Vec::new(), scope_start: None }
    }

    /// Whether a scope is open.
    pub fn in_scope(&self) -> (r: bool)
        ensures
            r == self@.scope_start is Some,
    {
        self.scope_start.is_some()
    }

    /// Binds `name` to `value`, in the open scope where there is one.
    pub fn bind(&mut self, name: &str, value: Value)
        ensures
            final(self)@ == old(self)@.bind(name@, value@),
            old(self)@.wf() ==> final(self)@.wf(),
    {
        let binding = Binding { name: fold_case(name), value, function: binds_function(name) };
        self.list.push(binding);
        assert(binding_views(self.list@) =~= binding_views(old(self).list@).push(binding@));
    }

    /// What `name` stands for, if it is bound.
    pub fn lookup(&self, name: &str) -> (r: Option<&Binding>)
        ensures
            match r {
                Some(b) => self@.resolve(name@) == Some(b@),
                None => self@.resolve(name@) is None,
            },
    {
        let folded = fold_case(name);
        let mut i: usize = self.list.len();
        let ghost all = binding_views(self.list@);
        assert(all.take(all.len() as int) =~= all);
        while i > 0
            invariant
                i <= self.list.len(),
                all == binding_views(self.list@),
                folded@ == fold(name@),
                last_bound(all, folded@) == last_bound(all.take(i as int), folded@),
            decreases i,
        {
            i = i - 1;
            proof {
                let upto = all.take(i + 1);
                assert(upto.last() == all[i as int]);
                assert(upto.drop_last() =~= all.take(i as int));
            }
            if same_chars(&self.list[i].name, &folded) {
                return Some(&self.list[i]);
            }
        }
        None
    }

    /// Opens a scope. Scopes do not nest: inside a scope nothing happens, and
    /// the answer is `false`.
    pub fn begin_scope(&mut self) -> (r: bool)
        ensures
            r == old(self)@.scope_start is None,
            r ==> final(self)@ == (BindingsView {
                list: old(self)@.list,
                scope_start: Some(old(self)@.list.len()),
            }),
            !r ==> final(self)@ == old(self)@,
            old(self)@.wf() ==> final(self)@.wf(),
    {
        match self.scope_start {
            Some(_) => false,
            None => {
                self.scope_start = Some(self.list.len());
                true
            },
        }
    }

    /// Ends the open scope: the bindings made in it are no longer in force.
    /// Outside a scope nothing happens, and the answer is `false`.
    pub fn end_scope(&mut self) -> (r: bool)
        requires
            old(self)@.wf(),
        ensures
            final(self)@.wf(),
            r == old(self)@.scope_start is Some,
            r ==> final(self)@ == (BindingsView {
                list: old(self)@.list.take(old(self)@.scope_start.unwrap() as int),
                scope_start: None,
            }),
            !r ==> final(self)@ == old(self)@,
    {
        match self.scope_start {
            Some(n) => {
                self.scope_start = None;
                self.list.truncate(n);
                assert(binding_views(self.list@) =~= binding_views(old(self).list@).take(n as int));
                true
            },
            None => false,
        }
    }
}

} // verus!
