//! Values: arrays of numbers, of characters or of functions.
//!
//! A number is held as the bit pattern of a 64-bit floating-point number.
//! The arithmetic on numbers is the host's; what is decided here are shapes,
//! types, and which elements belong together.

use vstd::prelude::*;
use crate::array::{
    as_rows, couple_shape, join_inner, join_shape, reversed, row_of, Array, ArrayView,
};
use crate::fill::{couple_filled, filled_couple, filled_join, join_filled};
use crate::error::{ElementType, TypeError};
use crate::shape::{length_of, size};
use crate::text::chars_of;

verus! {

/// A reference to callable code: the place of the code in the table of
/// functions of the machine that made it.
#[derive(Clone, Copy, Debug, PartialEq, Eq, Structural)]
pub struct Function {
    pub id: usize,
}

/// The values that fill the room which a row does not take when rows of
/// different shapes are put together. Functions have no fill value: rows of
/// functions must have one shape.
#[derive(Clone, Copy, Debug, PartialEq, Eq, Structural)]
pub struct Fills {
    /// The fill value for numbers, as a bit pattern.
    pub number: u64,
    /// The fill value for characters.
    pub character: char,
}

/// A value: an array whose elements all have one type.
#[derive(Debug, PartialEq, Eq)]
pub enum Value {
    Num(Array<u64>),
    Char(Array<char>),
    Func(Array<Function>),
}

/// What a [`Value`] holds.
pub enum ValueView {
    Num(ArrayView<u64>),
    Char(ArrayView<char>),
    Func(ArrayView<Function>),
}

impl View for Value {
    type V = ValueView;

    open spec fn view(&self) -> ValueView {
        match self {
            Value::Num(a) => ValueView::Num(a@),
            Value::Char(a) => ValueView::Char(a@),
            Value::Func(a) => ValueView::Func(a@),
        }
    }
}

impl ValueView {
    /// The type of the elements.
    pub open spec fn element_type(self) -> ElementType {
        match self {
            ValueView::Num(_) => ElementType::Number,
            ValueView::Char(_) => ElementType::Character,
            ValueView::Func(_) => ElementType::Function,
        }
    }

    /// The shape of the array.
    pub open spec fn shape(self) -> Seq<usize> {
        match self {
            ValueView::Num(a) => a.shape,
            ValueView::Char(a) => a.shape,
            ValueView::Func(a) => a.shape,
        }
    }

    /// The number of elements of the array.
    pub open spec fn count(self) -> nat {
        match self {
            ValueView::Num(a) => a.data.len(),
            ValueView::Char(a) => a.data.len(),
            ValueView::Func(a) => a.data.len(),
        }
    }

    /// There are as many elements as the shape asks for.
    pub open spec fn wf(self) -> bool {
        self.count() == size(self.shape())
    }

    /// The element number `i` of the array in row-major order, as a scalar.
    pub open spec fn element(self, i: int) -> ValueView {
        match self {
            ValueView::Num(a) => ValueView::Num(
                ArrayView { shape: Seq::empty(), data: seq![a.data[i]] },
            ),
            ValueView::Char(a) => ValueView::Char(
                ArrayView { shape: Seq::empty(), data: seq![a.data[i]] },
            ),
            ValueView::Func(a) => ValueView::Func(
                ArrayView { shape: Seq::empty(), data: seq![a.data[i]] },
            ),
        }
    }

    /// The row number `i` of the array, which has axes.
    pub open spec fn row(self, i: int) -> ValueView {
        match self {
            ValueView::Num(a) => ValueView::Num(row_of(a, i)),
            ValueView::Char(a) => ValueView::Char(row_of(a, i)),
            ValueView::Func(a) => ValueView::Func(row_of(a, i)),
        }
    }

    /// The array with its rows in the opposite order.
    pub open spec fn reverse(self) -> ValueView {
        match self {
            ValueView::Num(a) => ValueView::Num(reversed(a)),
            ValueView::Char(a) => ValueView::Char(reversed(a)),
            ValueView::Func(a) => ValueView::Func(reversed(a)),
        }
    }

    /// The value with the same elements and the shape `shape`.
    pub open spec fn with_shape(self, shape: Seq<usize>) -> ValueView {
        match self {
            ValueView::Num(a) => ValueView::Num(ArrayView { shape, data: a.data }),
            ValueView::Char(a) => ValueView::Char(ArrayView { shape, data: a.data }),
            ValueView::Func(a) => ValueView::Func(ArrayView { shape, data: a.data }),
        }
    }

    /// The elements of `self` followed by those of `other`, in the shape
    /// `shape`, where the two hold elements of one type.
    pub open spec fn followed_by(self, other: ValueView, shape: Seq<usize>) -> Option<ValueView> {
        match (self, other) {
            (ValueView::Num(a), ValueView::Num(b)) => Some(
                ValueView::Num(ArrayView { shape, data: a.data + b.data }),
            ),
            (ValueView::Char(a), ValueView::Char(b)) => Some(
                ValueView::Char(ArrayView { shape, data: a.data + b.data }),
            ),
            (ValueView::Func(a), ValueView::Func(b)) => Some(
                ValueView::Func(ArrayView { shape, data: a.data + b.data }),
            ),
            _ => None,
        }
    }
}

/// What coupling `a` and `b` gives: the two as the rows of a new array, where
/// they agree in type and shape.
pub open spec fn coupled(a: ValueView, b: ValueView) -> Option<ValueView> {
    if a.shape() == b.shape() {
        a.followed_by(b, couple_shape(a.shape()))
    } else {
        None
    }
}

/// What joining `a` and `b` gives: the rows of `a` followed by the rows of
/// `b`, where the two agree in type. Rows of numbers or characters that
/// differ in shape get the room of the largest and are filled up; rows of
/// functions must agree in shape.
pub open spec fn joined(a: ValueView, b: ValueView, fills: Fills) -> Option<ValueView> {
    match (a, b) {
        (ValueView::Num(x), ValueView::Num(y)) => match filled_join(x, y, fills.number) {
            Some(made) => Some(ValueView::Num(made)),
            None => None,
        },
        (ValueView::Char(x), ValueView::Char(y)) => match filled_join(x, y, fills.character) {
            Some(made) => Some(ValueView::Char(made)),
            None => None,
        },
        (ValueView::Func(x), ValueView::Func(y)) => match join_shape(x.shape, y.shape) {
            Some(shape) => Some(ValueView::Func(ArrayView { shape, data: x.data + y.data })),
            None => None,
        },
        _ => None,
    }
}

/// What putting `a` and `b` together as the two rows of an array gives,
/// where the two agree in type and in the number of their axes. Numbers and
/// characters get the room of the larger of the two and are filled up;
/// functions must agree in shape.
pub open spec fn rowed(a: ValueView, b: ValueView, fills: Fills) -> Option<ValueView> {
    match (a, b) {
        (ValueView::Num(x), ValueView::Num(y)) => match filled_couple(x, y, fills.number) {
            Some(made) => Some(ValueView::Num(made)),
            None => None,
        },
        (ValueView::Char(x), ValueView::Char(y)) => match filled_couple(x, y, fills.character) {
            Some(made) => Some(ValueView::Char(made)),
            None => None,
        },
        (ValueView::Func(_), ValueView::Func(_)) => coupled(a, b),
        _ => None,
    }
}

/// The error that tells of elements of different types.
pub open spec fn type_fault(a: ValueView, b: ValueView) -> TypeError {
    TypeError::Type { left: a.element_type(), right: b.element_type() }
}

/// Whether `e` is the error that coupling `a` and `b` fails with: the types
/// of their elements differ, or else their shapes.
pub open spec fn couple_fault(e: TypeError, a: ValueView, b: ValueView) -> bool {
    if a.element_type() != b.element_type() {
        e == type_fault(a, b)
    } else {
        e.is_shape(a.shape(), b.shape())
    }
}

/// Whether `e` is the error that joining `a` and `b` fails with: the types
/// of their elements differ; or else the numbers of their axes differ by
/// more than one, or they are rows of functions of different shapes; or
/// else the result is too large.
pub open spec fn join_fault(e: TypeError, a: ValueView, b: ValueView) -> bool {
    if a.element_type() != b.element_type() {
        e == type_fault(a, b)
    } else {
        let inner = join_inner(a.shape(), b.shape());
        match (as_rows(a.shape(), inner), as_rows(b.shape(), inner)) {
            (Some((_, row_a)), Some((_, row_b))) => if a is Func && row_a != row_b {
                e.is_shape(a.shape(), b.shape())
            } else {
                e is TooLarge
            },
            _ => e.is_shape(a.shape(), b.shape()),
        }
    }
}

/// Whether `e` is the error that putting `a` and `b` together as two rows
/// fails with: the types of their elements differ; or else the numbers of
/// their axes differ, or they are functions of different shapes; or else a
/// row is too large.
pub open spec fn rowed_fault(e: TypeError, a: ValueView, b: ValueView) -> bool {
    if a.element_type() != b.element_type() {
        e == type_fault(a, b)
    } else if a is Func || a.shape().len() != b.shape().len() {
        e.is_shape(a.shape(), b.shape())
    } else {
        e is TooLarge
    }
}

impl Value {
    /// The scalar number with the bit pattern `bits`.
    pub fn number(bits: u64) -> (r: Value)
        ensures
            r@ == ValueView::Num(ArrayView { shape: Seq::empty(), data: seq![bits] }),
    {
        Value::Num(Array::scalar(bits))
    }

    /// The scalar character `c`.
    pub fn character(c: char) -> (r: Value)
        ensures
            r@ == ValueView::Char(ArrayView { shape: Seq::empty(), data: seq![c] }),
    {
        Value::Char(Array::scalar(c))
    }

    /// The scalar function `f`.
    pub fn function(f: Function) -> (r: Value)
        ensures
            r@ == ValueView::Func(ArrayView { shape: Seq::empty(), data: seq![f] }),
    {
        Value::Func(Array::scalar(f))
    }

    /// The list of the numbers with the bit patterns `bits`.
    pub fn numbers(bits: Vec<u64>) -> (r: Value)
        ensures
            r@ == ValueView::Num(ArrayView { shape: seq![bits@.len() as usize], data: bits@ }),
    {
        Value::Num(Array::list(bits))
    }

    /// The list of the characters of `s`.
    pub fn string(s: &str) -> (r: Value)
        ensures
            r@ == ValueView::Char(ArrayView { shape: seq![s@.len() as usize], data: s@ }),
    {
        Value::Char(Array::list(chars_of(s)))
    }

    /// The type of the elements.
    pub fn element_type(&self) -> (r: ElementType)
        ensures
            r == self@.element_type(),
    {
        match self {
            Value::Num(_) => ElementType::Number,
            Value::Char(_) => ElementType::Character,
            Value::Func(_) => ElementType::Function,
        }
    }

    /// The shape of the array.
    pub fn shape(&self) -> (r: &Vec<usize>)
        ensures
            r@ == self@.shape(),
            self@.wf(),
    {
        match self {
            Value::Num(a) => a.shape(),
            Value::Char(a) => a.shape(),
            Value::Func(a) => a.shape(),
        }
    }

    /// The rank of the array: the number of its axes.
    pub fn rank(&self) -> (r: usize)
        ensures
            r == self@.shape().len(),
    {
        self.shape().len()
    }

    /// The length of the array: the number of its rows, which is 1 for a scalar.
    pub fn length(&self) -> (r: usize)
        ensures
            r == length_of(self@.shape()),
    {
        match self {
            Value::Num(a) => a.length(),
            Value::Char(a) => a.length(),
            Value::Func(a) => a.length(),
        }
    }

    /// A copy of the value.
    pub fn copy(&self) -> (r: Value)
        ensures
            r@ == self@,
    {
        match self {
            Value::Num(a) => Value::Num(a.copy()),
            Value::Char(a) => Value::Char(a.copy()),
            Value::Func(a) => Value::Func(a.copy()),
        }
    }

    /// Two values of one type and shape as the two rows of a new array.
    ///
    /// Fails with [`TypeError::Type`] where the types of the elements differ,
    /// else with [`TypeError::Shape`] where the shapes differ.
    pub fn couple(a: &Value, b: &Value) -> (r: Result<Value, TypeError>)
        ensures
            match r {
                Ok(c) => coupled(a@, b@) == Some(c@),
                Err(e) => coupled(a@, b@) is None && couple_fault(e, a@, b@),
            },
    {
        match (a, b) {
            (Value::Num(x), Value::Num(y)) => match Array::couple(x, y) {
                Ok(c) => Ok(Value::Num(c)),
                Err(e) => Err(e),
            },
            (Value::Char(x), Value::Char(y)) => match Array::couple(x, y) {
                Ok(c) => Ok(Value::Char(c)),
                Err(e) => Err(e),
            },
            (Value::Func(x), Value::Func(y)) => match Array::couple(x, y) {
                Ok(c) => Ok(Value::Func(c)),
                Err(e) => Err(e),
            },
            _ => Err(TypeError::Type { left: a.element_type(), right: b.element_type() }),
        }
    }

    /// The rows of `a` followed by the rows of `b`, which must have the type
    /// of the rows of `a`. Rows of different shapes are filled up.
    ///
    /// Fails with [`TypeError::Type`] where the types of the elements differ,
    /// else as [`join_filled`] does, and for functions as [`Array::join`] does.
    pub fn join(a: &Value, b: &Value, fills: Fills) -> (r: Result<Value, TypeError>)
        ensures
            match r {
                Ok(c) => joined(a@, b@, fills) == Some(c@),
                Err(e) => joined(a@, b@, fills) is None && join_fault(e, a@, b@),
            },
    {
        match (a, b) {
            (Value::Num(x), Value::Num(y)) => match join_filled(x, y, fills.number) {
                Ok(c) => Ok(Value::Num(c)),
                Err(e) => Err(e),
            },
            (Value::Char(x), Value::Char(y)) => match join_filled(x, y, fills.character) {
                Ok(c) => Ok(Value::Char(c)),
                Err(e) => Err(e),
            },
            (Value::Func(x), Value::Func(y)) => match Array::join(x, y) {
                Ok(c) => Ok(Value::Func(c)),
                Err(e) => Err(e),
            },
            _ => Err(TypeError::Type { left: a.element_type(), right: b.element_type() }),
        }
    }

    /// `a` and `b` as the two rows of an array, where they agree in type
    /// and in the number of their axes. Rows of different shapes are filled up.
    ///
    /// Fails with [`TypeError::Type`] where the types of the elements differ,
    /// else as [`couple_filled`] does, and for functions as [`Array::couple`] does.
    pub fn couple_rows(a: &Value, b: &Value, fills: Fills) -> (r: Result<Value, TypeError>)
        ensures
            match r {
                Ok(c) => rowed(a@, b@, fills) == Some(c@),
                Err(e) => rowed(a@, b@, fills) is None && rowed_fault(e, a@, b@),
            },
    {
        match (a, b) {
            (Value::Num(x), Value::Num(y)) => match couple_filled(x, y, fills.number) {
                Ok(c) => Ok(Value::Num(c)),
                Err(e) => Err(e),
            },
            (Value::Char(x), Value::Char(y)) => match couple_filled(x, y, fills.character) {
                Ok(c) => Ok(Value::Char(c)),
                Err(e) => Err(e),
            },
            (Value::Func(x), Value::Func(y)) => match Array::couple(x, y) {
                Ok(c) => Ok(Value::Func(c)),
                Err(e) => Err(e),
            },
            _ => Err(TypeError::Type { left: a.element_type(), right: b.element_type() }),
        }
    }

    /// The number of elements of the array.
    pub fn count(&self) -> (r: usize)
        ensures
            r == self@.count(),
    {
        match self {
            Value::Num(a) => a.data().len(),
            Value::Char(a) => a.data().len(),
            Value::Func(a) => a.data().len(),
        }
    }

    /// The element number `i` of the array in row-major order, as a scalar,
    /// where the array has one.
    pub fn element(&self, i: usize) -> (r: Option<Value>)
        ensures
            r is Some <==> i < self@.count(),
            r is Some ==> r.unwrap()@ == self@.element(i as int),
    {
        match self {
            Value::Num(a) => match a.element(i) {
                Some(r) => Some(Value::Num(r)),
                None => None,
            },
            Value::Char(a) => match a.element(i) {
                Some(r) => Some(Value::Char(r)),
                None => None,
            },
            Value::Func(a) => match a.element(i) {
                Some(r) => Some(Value::Func(r)),
                None => None,
            },
        }
    }

    /// The array with the same elements in the shape `shape`, where the
    /// shape asks for as many elements as there are.
    pub fn reshape(self, shape: Vec<usize>) -> (r: Option<Value>)
        ensures
            r is Some <==> self@.count() == size(shape@),
            r is Some ==> r.unwrap()@ == self@.with_shape(shape@),
    {
        match self {
            Value::Num(a) => {
                let (_, data) = a.into_parts();
                match Array::new(shape, data) {
                    Some(r) => Some(Value::Num(r)),
                    None => None,
                }
            },
            Value::Char(a) => {
                let (_, data) = a.into_parts();
                match Array::new(shape, data) {
                    Some(r) => Some(Value::Char(r)),
                    None => None,
                }
            },
            Value::Func(a) => {
                let (_, data) = a.into_parts();
                match Array::new(shape, data) {
                    Some(r) => Some(Value::Func(r)),
                    None => None,
                }
            },
        }
    }

    /// The row number `i` of the array, where it has one.
    pub fn row(&self, i: usize) -> (r: Option<Value>)
        ensures
            r is Some <==> self@.shape().len() > 0 && i < self@.shape()[0],
            r is Some ==> r.unwrap()@ == self@.row(i as int),
    {
        match self {
            Value::Num(a) => match a.row(i) {
                Some(r) => Some(Value::Num(r)),
                None => None,
            },
            Value::Char(a) => match a.row(i) {
                Some(r) => Some(Value::Char(r)),
                None => None,
            },
            Value::Func(a) => match a.row(i) {
                Some(r) => Some(Value::Func(r)),
                None => None,
            },
        }
    }

    /// The array with its rows in the opposite order.
    pub fn reverse(&self) -> (r: Value)
        ensures
            r@ == self@.reverse(),
    {
        match self {
            Value::Num(a) => Value::Num(a.reverse()),
            Value::Char(a) => Value::Char(a.reverse()),
            Value::Func(a) => Value::Func(a.reverse()),
        }
    }
}

} // verus!
