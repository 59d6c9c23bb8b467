//! What can go wrong while a program runs.

use vstd::prelude::*;
use crate::format::FormatError;
use crate::primitive::Primitive;

verus! {

/// The three kinds of element that an array can hold.
#[derive(Clone, Copy, Debug, PartialEq, Eq, Structural)]
pub enum ElementType {
    Number,
    Character,
    Function,
}

/// What the machine was carrying out when it was given values that it
/// cannot work on, or found too few values on the stack.
#[derive(Clone, Copy, Debug, PartialEq, Eq, Structural)]
pub enum Operation {
    /// The built-in.
    Builtin(Primitive),
    /// Putting values together as the rows of one array, as square brackets
    /// and strands do.
    Collect,
    /// Calling a value, or a dfn that takes its arguments.
    Call,
    /// Binding a name to a value from the stack.
    Bind,
    /// Taking the value on top of the stack.
    Take,
}

/// An operation was given values that it cannot work on. The stack keeps
/// whatever the failed operation had not taken from it.
#[derive(Clone, Debug, PartialEq, Eq)]
pub enum TypeError {
    /// Neither shape is the beginning of the other, or the shapes of the rows
    /// to put together differ.
    Shape { left: Vec<usize>, right: Vec<usize> },
    /// An operation on the structure of arrays was given arrays of different
    /// element types.
    Type { left: ElementType, right: ElementType },
    /// Arithmetic on characters other than moving a character by a whole
    /// number within the characters, or measuring the distance between two
    /// characters; or arithmetic on functions.
    Character { left: ElementType, right: ElementType },
    /// A whole number was needed.
    NotWhole,
    /// The array has no row of the number `index`: it has `length` rows.
    Index { index: i64, length: usize },
    /// The result would have more rows than the machine can count.
    TooLarge,
}

/// A name could not be resolved.
#[derive(Clone, Debug, PartialEq, Eq)]
pub enum BindingError {
    /// No function of the module has the name.
    UnknownName(String),
    /// An argument of a dfn was used after the dfn had returned.
    ArgumentOutOfScope(char),
}

/// Why a run ended early.
#[derive(Clone, Debug, PartialEq, Eq)]
pub enum RuntimeError {
    /// The operation was given values that it cannot work on.
    Type(TypeError, Operation),
    /// The operation needed more values than the stack holds. This ends the
    /// run.
    StackUnderflow(Operation),
    Binding(BindingError),
    /// The run has made more calls than the machine can number.
    Exhausted,
    /// The token at the character number `position` stands where it cannot stand.
    Syntax { position: usize },
    /// The built-in is not one that the machine carries out.
    Unsupported(Primitive),
    /// The host answered a question with something that is no answer to it.
    Host,
    /// The operand of a modifier has not left exactly one value in the place
    /// of the values that it was given.
    Signature,
    /// An imported file could not be read as code.
    Source(FormatError),
    /// The file at the path could not be loaded.
    Import(String),
}

impl TypeError {
    /// The error says that the shapes `left` and `right` do not go together.
    pub open spec fn is_shape(&self, left: Seq<usize>, right: Seq<usize>) -> bool {
        match self {
            TypeError::Shape { left: l, right: r } => l@ == left && r@ == right,
            _ => false,
        }
    }
}

impl RuntimeError {
    /// Whether the run can go on after the error: every error but taking from
    /// the empty stack leaves the state as it was before the failed operation.
    pub fn is_recoverable(&self) -> (r: bool)
        ensures
            r == !(*self is StackUnderflow),
    {
        match self {
            RuntimeError::StackUnderflow(_) => false,
            _ => true,
        }
    }
}

} // verus!
