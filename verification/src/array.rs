//! Arrays: a shape and, in row-major order, as many elements as the shape asks for.

use vstd::prelude::*;
use crate::error::TypeError;
use crate::shape::{
    broadcast, compatible, element_count, lemma_broadcast, length_of, pervasive_shape, size, span,
};

verus! {

/// An array of elements of one type. A scalar is an array without axes.
#[derive(Debug, PartialEq, Eq)]
pub struct Array<T> {
    shape: Vec<usize>,
    data: Vec<T>,
}

/// What an [`Array`] holds: its shape and its elements in row-major order.
pub struct ArrayView<T> {
    pub shape: Seq<usize>,
    pub data: Seq<T>,
}

impl<T> View for Array<T> {
    type V = ArrayView<T>;

    closed spec fn view(&self) -> ArrayView<T> {
        ArrayView { shape: self.shape@, data: self.data@ }
    }
}

impl<T> ArrayView<T> {
    /// There are as many elements as the shape asks for.
    pub open spec fn wf(self) -> bool {
        self.data.len() == size(self.shape)
    }
}

/// The shape of two rows put together: one axis of size 2 before the axes of a row.
pub open spec fn couple_shape(row: Seq<usize>) -> Seq<usize> {
    seq![2usize] + row
}

/// The number of rows that an array of the shape `dims` adds to a join whose
/// rows have as many axes as `inner`, and the shape of these rows: an array
/// with one axis more is taken row by row, one with as many axes is one row.
pub open spec fn as_rows(dims: Seq<usize>, inner: nat) -> Option<(nat, Seq<usize>)> {
    if dims.len() == inner + 1 {
        Some((dims[0] as nat, dims.drop_first()))
    } else if dims.len() == inner {
        Some((1, dims))
    } else {
        None
    }
}

/// The number of axes of the rows of a join of arrays of the shapes `a` and `b`.
pub open spec fn join_inner(a: Seq<usize>, b: Seq<usize>) -> nat {
    if a.len() == 0 && b.len() == 0 {
        0
    } else if a.len() >= b.len() {
        (a.len() - 1) as nat
    } else {
        (b.len() - 1) as nat
    }
}

/// The shape of the join of arrays of the shapes `a` and `b`, where they can
/// be joined: the rows of both, which must have one shape.
pub open spec fn join_shape(a: Seq<usize>, b: Seq<usize>) -> Option<Seq<usize>> {
    let inner = join_inner(a, b);
    match (as_rows(a, inner), as_rows(b, inner)) {
        (Some((n, row_a)), Some((m, row_b))) => if row_a == row_b && n + m <= usize::MAX {
            Some(seq![(n + m) as usize] + row_a)
        } else {
            None
        },
        _ => None,
    }
}

fn concat<T: Copy>(a: &Vec<T>, b: &Vec<T>) -> (r: Vec<T>)
    ensures
        r@ == a@ + b@,
{
    let mut r: Vec<T> = Vec::new();
    let mut i: usize = 0;
    while i < a.len()
        invariant
            i <= a.len(),
            r@ == a@.take(i as int),
        decreases a.len() - i,
    {
        r.push(a[i]);
        i = i + 1;
        assert(r@ =~= a@.take(i as int));
    }
    assert(a@.take(a.len() as int) =~= a@);
    let mut j: usize = 0;
    while j < b.len()
        invariant
            j <= b.len(),
            r@ == a@ + b@.take(j as int),
        decreases b.len() - j,
    {
        r.push(b[j]);
        j = j + 1;
        assert(r@ =~= a@ + b@.take(j as int));
    }
    assert(b@.take(b.len() as int) =~= b@);
    r
}

fn same_shape(a: &Vec<usize>, b: &Vec<usize>) -> (r: bool)
    ensures
        r == (a@ == b@),
{
    if a.len() != b.len() {
        return false;
    }
    let mut i: usize = 0;
    while i < a.len()
        invariant
            i <= a.len(),
            a.len() == b.len(),
            forall|k: int| 0 <= k < i ==> a@[k] == b@[k],
        decreases a.len() - i,
    {
        if a[i] != b[i] {
            return false;
        }
        i = i + 1;
    }
    assert(a@ =~= b@);
    true
}

fn rest_of(dims: &Vec<usize>) -> (r: Vec<usize>)
    requires
        dims@.len() > 0,
    ensures
        r@ == dims@.drop_first(),
{
    let mut r: Vec<usize> = Vec::new();
    let mut i: usize = 1;
    while i < dims.len()
        invariant
            1 <= i <= dims.len(),
            r@ == dims@.subrange(1, i as int),
        decreases dims.len() - i,
    {
        r.push(dims[i]);
        i = i + 1;
        assert(r@ =~= dims@.subrange(1, i as int));
    }
    assert(dims@.subrange(1, dims@.len() as int) =~= dims@.drop_first());
    r
}

fn with_first(n: usize, rest: &Vec<usize>) -> (r: Vec<usize>)
    ensures
        r@ == seq![n] + rest@,
{
    let mut first: Vec<usize> = Vec::new();
    first.push(n);
    assert(first@ =~= seq![n]);
    concat(&first, rest)
}

impl<T> Array<T> {
    /// Every array has as many elements as its shape asks for.
    #[verifier::type_invariant]
    pub closed spec fn inv(&self) -> bool {
        self.data@.len() == size(self.shape@)
    }

    /// The array with the shape `shape` and the elements `data`, where there
    /// are as many elements as the shape asks for.
    pub fn new(shape: Vec<usize>, data: Vec<T>) -> (r: Option<Array<T>>)
        ensures
            r is Some <==> data@.len() == size(shape@),
            r is Some ==> r.unwrap()@ == (ArrayView { shape: shape@, data: data@ }),
    {
        let len = data.len();
        match element_count(&shape) {
            Some(n) => if n == len {
                Some(Array { shape, data })
            } else {
                None
            },
            None => None,
        }
    }

    /// The array without axes whose one element is `x`.
    pub fn scalar(x: T) -> (r: Array<T>)
        ensures
            r@.shape == Seq::<usize>::empty(),
            r@.data == seq![x],
            r@.wf(),
    {
        let mut data: Vec<T> = Vec::new();
        data.push(x);
        assert(data@ =~= seq![x]);
        let shape: Vec<usize> = Vec::new();
        assert(shape@ =~= Seq::<usize>::empty());
        Array { shape, data }
    }

    /// The array with one axis whose elements are `items`.
    pub fn list(items: Vec<T>) -> (r: Array<T>)
        ensures
            r@.shape == seq![items@.len() as usize],
            r@.data == items@,
            r@.wf(),
    {
        let mut shape: Vec<usize> = Vec::new();
        shape.push(items.len());
        assert(shape@ =~= seq![items@.len() as usize]);
        proof {
            let none = Seq::<usize>::empty();
            crate::shape::lemma_size_push(none, items@.len() as usize);
            assert(none.push(items@.len() as usize) =~= shape@);
            assert(size(none) == 1);
            assert(size(shape@) == 1 * items@.len());
        }
        Array { shape, data: items }
    }

    /// The shape of the array.
    pub fn shape(&self) -> (r: &Vec<usize>)
        ensures
            r@ == self@.shape,
            self@.wf(),
    {
        proof {
            use_type_invariant(self);
        }
        &self.shape
    }

    /// The elements of the array in row-major order.
    pub fn data(&self) -> (r: &Vec<T>)
        ensures
            r@ == self@.data,
            self@.wf(),
    {
        proof {
            use_type_invariant(self);
        }
        &self.data
    }

    /// The shape and the elements of the array.
    pub fn into_parts(self) -> (r: (Vec<usize>, Vec<T>))
        ensures
            r.0@ == self@.shape,
            r.1@ == self@.data,
            self@.wf(),
    {
        proof {
            use_type_invariant(&self);
        }
        (self.shape, self.data)
    }

    /// The rank of the array: the number of its axes.
    pub fn rank(&self) -> (r: usize)
        ensures
            r == self@.shape.len(),
    {
        self.shape.len()
    }

    /// The length of the array: the number of its rows, which is 1 for a scalar.
    pub fn length(&self) -> (r: usize)
        ensures
            r == length_of(self@.shape),
            self@.shape.len() > 0 ==> r == self@.shape[0],
            self@.shape.len() == 0 ==> r == 1,
    {
        crate::shape::length(&self.shape)
    }

    /// The shape of the array as an array of its own: one axis, one element
    /// for each axis of this array.
    pub fn shape_list(&self) -> (r: Array<usize>)
        ensures
            r@.shape == seq![self@.shape.len() as usize],
            r@.data == self@.shape,
            length_of(r@.shape) == self@.shape.len(),
    {
        Array::<usize>::list(self.shape.clone())
    }
}

impl<T: Copy> Array<T> {
    /// A copy of the array.
    pub fn copy(&self) -> (r: Array<T>)
        ensures
            r@ == self@,
    {
        proof {
            use_type_invariant(self);
        }
        let empty: Vec<T> = Vec::new();
        let data = concat(&self.data, &empty);
        assert(data@ =~= self.data@);
        Array { shape: self.shape.clone(), data }
    }

    /// Two arrays of one shape as the two rows of a new array.
    ///
    /// Fails where the shapes differ.
    pub fn couple(a: &Array<T>, b: &Array<T>) -> (r: Result<Array<T>, TypeError>)
        ensures
            r is Ok <==> a@.shape == b@.shape,
            match r {
                Ok(c) => c@.shape == couple_shape(a@.shape) && c@.data == a@.data + b@.data,
                Err(e) => e.is_shape(a@.shape, b@.shape),
            },
    {
        proof {
            use_type_invariant(a);
            use_type_invariant(b);
        }
        if !same_shape(&a.shape, &b.shape) {
            return Err(TypeError::Shape { left: a.shape.clone(), right: b.shape.clone() });
        }
        let shape = with_first(2, &a.shape);
        let data = concat(&a.data, &b.data);
        proof {
            assert(shape@.drop_first() =~= a.shape@);
            assert(size(shape@) == 2 * size(a.shape@));
        }
        Ok(Array { shape, data })
    }

    /// The rows of `a` followed by the rows of `b`.
    ///
    /// The operand with fewer axes counts as a single row; two scalars make a
    /// list of two. Fails with [`TypeError::Shape`] where the numbers of axes
    /// differ by more than one or the rows differ in shape, and with
    /// [`TypeError::TooLarge`] where the rows are too many to count.
    pub fn join(a: &Array<T>, b: &Array<T>) -> (r: Result<Array<T>, TypeError>)
        ensures
            r is Ok <==> join_shape(a@.shape, b@.shape) is Some,
            match r {
                Ok(c) => Some(c@.shape) == join_shape(a@.shape, b@.shape) && c@.data == a@.data
                    + b@.data,
                Err(e) => {
                    let inner = join_inner(a@.shape, b@.shape);
                    match (as_rows(a@.shape, inner), as_rows(b@.shape, inner)) {
                        (Some((_, row_a)), Some((_, row_b))) => if row_a == row_b {
                            e is TooLarge
                        } else {
                            e.is_shape(a@.shape, b@.shape)
                        },
                        _ => e.is_shape(a@.shape, b@.shape),
                    }
                },
            },
    {
        proof {
            use_type_invariant(a);
            use_type_invariant(b);
        }
        let ra = a.shape.len();
        let rb = b.shape.len();
        let inner: usize = if ra == 0 && rb == 0 {
            0
        } else if ra >= rb {
            ra - 1
        } else {
            rb - 1
        };
        let rows_a: (usize, Vec<usize>) = if ra == inner + 1 {
            (a.shape[0], rest_of(&a.shape))
        } else if ra == inner {
            (1, a.shape.clone())
        } else {
            return Err(TypeError::Shape { left: a.shape.clone(), right: b.shape.clone() });
        };
        let rows_b: (usize, Vec<usize>) = if rb == inner + 1 {
            (b.shape[0], rest_of(&b.shape))
        } else if rb == inner {
            (1, b.shape.clone())
        } else {
            return Err(TypeError::Shape { left: a.shape.clone(), right: b.shape.clone() });
        };
        if !same_shape(&rows_a.1, &rows_b.1) {
            return Err(TypeError::Shape { left: a.shape.clone(), right: b.shape.clone() });
        }
        let rows = match rows_a.0.checked_add(rows_b.0) {
            Some(n) => n,
            None => {
                return Err(TypeError::TooLarge);
            },
        };
        let shape = with_first(rows, &rows_a.1);
        let data = concat(&a.data, &b.data);
        proof {
            let row = rows_a.1@;
            assert(shape@.drop_first() =~= row);
            assert(size(shape@) == rows as nat * size(row));
            assert(size(a.shape@) == rows_a.0 as nat * size(row)) by {
                if ra == inner {
                    assert(a.shape@ == row);
                }
            }
            assert(size(b.shape@) == rows_b.0 as nat * size(row)) by {
                if rb == inner {
                    assert(b.shape@ == row);
                }
            }
            assert((rows_a.0 + rows_b.0) as nat * size(row) == rows_a.0 as nat * size(row)
                + rows_b.0 as nat * size(row)) by (nonlinear_arith);
        }
        Ok(Array { shape, data })
    }
}

/// Applies `f` elementwise to two arrays of which the shape of one is the
/// beginning of the shape of the other.
///
/// The result has the longer shape. Each element of the operand with the
/// shorter shape meets all the elements of the other operand that lie below
/// it along the remaining axes. `f` always gets the element of `a` first and
/// the element of `b` second. Fails where the shapes do not fit.
pub fn pervade<A: Copy, B: Copy, C, F: Fn(A, B) -> C>(a: &Array<A>, b: &Array<B>, f: F) -> (r:
    Result<Array<C>, TypeError>)
    requires
        forall|x: A, y: B| f.requires((x, y)),
    ensures
        r is Ok <==> compatible(a@.shape, b@.shape),
        match r {
            Ok(c) => {
                &&& c@.shape == broadcast(a@.shape, b@.shape)
                &&& c@.data.len() == size(c@.shape)
                &&& forall|i: int|
                    0 <= i < c@.data.len() ==> f.ensures(
                        (
                            a@.data[i / span(a@.shape, c@.shape) as int],
                            b@.data[i / span(b@.shape, c@.shape) as int],
                        ),
                        #[trigger] c@.data[i],
                    )
            },
            Err(e) => e.is_shape(a@.shape, b@.shape),
        },
{
    proof {
        use_type_invariant(a);
        use_type_invariant(b);
    }
    let shape = match pervasive_shape(&a.shape, &b.shape) {
        Some(s) => s,
        None => {
            return Err(TypeError::Shape { left: a.shape.clone(), right: b.shape.clone() });
        },
    };
    proof {
        lemma_broadcast(a.shape@, b.shape@);
    }
    let total: usize = if a.shape.len() <= b.shape.len() {
        b.data.len()
    } else {
        a.data.len()
    };
    let ghost span_a = span(a.shape@, shape@);
    let ghost span_b = span(b.shape@, shape@);
    let mut data: Vec<C> = Vec::new();
    if total == 0 {
        return Ok(Array { shape, data });
    }
    assert(a.data.len() > 0 && span_a > 0 && b.data.len() > 0 && span_b > 0) by (nonlinear_arith)
        requires
            total > 0,
            total == a.data.len() * span_a,
            total == b.data.len() * span_b,
    ;
    let step_a: usize = total / a.data.len();
    let step_b: usize = total / b.data.len();
    assert(step_a == span_a && step_b == span_b) by (nonlinear_arith)
        requires
            total == a.data.len() * span_a,
            total == b.data.len() * span_b,
            a.data.len() > 0,
            b.data.len() > 0,
            step_a == total / a.data.len(),
            step_b == total / b.data.len(),
    ;
    let mut i: usize = 0;
    while i < total
        invariant
            i <= total,
            data@.len() == i,
            step_a == span_a,
            step_b == span_b,
            step_a > 0,
            step_b > 0,
            total == a.data.len() * span_a,
            total == b.data.len() * span_b,
            forall|x: A, y: B| f.requires((x, y)),
            forall|k: int|
                0 <= k < i ==> f.ensures(
                    (a.data@[k / span_a as int], b.data@[k / span_b as int]),
                    #[trigger] data@[k],
                ),
        decreases total - i,
    {
        let ia = i / step_a;
        let ib = i / step_b;
        assert(ia < a.data.len() && ib < b.data.len()) by (nonlinear_arith)
            requires
                i < total,
                total == a.data.len() * span_a,
                total == b.data.len() * span_b,
                step_a == span_a,
                step_b == span_b,
                step_a > 0,
                step_b > 0,
                ia == i / step_a,
                ib == i / step_b,
        ;
        data.push(f(a.data[ia], b.data[ib]));
        i = i + 1;
    }
    Ok(Array { shape, data })
}

} // verus!

verus! {

impl<T> Array<T> {
    /// The array as the one row of a new array.
    pub fn into_row(self) -> (r: Array<T>)
        ensures
            r@.shape == seq![1usize] + self@.shape,
            r@.data == self@.data,
    {
        proof {
            use_type_invariant(&self);
        }
        let shape = with_first(1, &self.shape);
        proof {
            assert(shape@.drop_first() =~= self.shape@);
            assert(size(shape@) == 1 * size(self.shape@));
        }
        Array { shape, data: self.data }
    }
}

/// The row number `i` of `a`, which has axes: the elements that lie below
/// the place `i` of the first axis, in the shape of the other axes.
pub open spec fn row_of<T>(a: ArrayView<T>, i: int) -> ArrayView<T> {
    let width = size(a.shape.drop_first()) as int;
    ArrayView { shape: a.shape.drop_first(), data: a.data.subrange(i * width, (i + 1) * width) }
}

/// `a` with its rows in the opposite order. A scalar is its own reverse.
pub open spec fn reversed<T>(a: ArrayView<T>) -> ArrayView<T> {
    if a.shape.len() == 0 {
        a
    } else {
        let width = size(a.shape.drop_first()) as int;
        let rows = a.shape[0] as int;
        ArrayView {
            shape: a.shape,
            data: Seq::new(
                a.data.len(),
                |j: int| a.data[(rows - 1 - j / width) * width + j % width],
            ),
        }
    }
}

/// The rows of an array lie one behind the other: the row number `i` of an
/// array with `rows` rows of `width` elements begins and ends within the
/// `rows * width` elements.
pub proof fn lemma_row_bounds(i: int, rows: int, width: int)
    requires
        0 <= i < rows,
        0 <= width,
    ensures
        0 <= i * width <= (i + 1) * width <= rows * width,
        (i + 1) * width == i * width + width,
{
    assert(0 <= i * width <= (i + 1) * width <= rows * width && (i + 1) * width == i * width
        + width) by (nonlinear_arith)
        requires
            0 <= i < rows,
            0 <= width,
    ;
}

impl<T: Copy> Array<T> {
    /// The element number `i` of the array in row-major order, as a scalar,
    /// where the array has one.
    pub fn element(&self, i: usize) -> (r: Option<Array<T>>)
        ensures
            r is Some <==> i < self@.data.len(),
            r is Some ==> r.unwrap()@ == (ArrayView {
                shape: Seq::empty(),
                data: seq![self@.data[i as int]],
            }),
    {
        if i < self.data.len() {
            Some(Array::scalar(self.data[i]))
        } else {
            None
        }
    }

    /// The row number `i` of the array, where it has one.
    pub fn row(&self, i: usize) -> (r: Option<Array<T>>)
        ensures
            r is Some <==> self@.shape.len() > 0 && i < self@.shape[0],
            r is Some ==> r.unwrap()@ == row_of(self@, i as int),
    {
        proof {
            use_type_invariant(self);
        }
        if self.shape.len() == 0 || i >= self.shape[0] {
            return None;
        }
        let shape = rest_of(&self.shape);
        let rows = self.shape[0];
        let total = self.data.len();
        let width = total / rows;
        proof {
            let w = size(shape@) as int;
            assert(total == rows * w);
            assert(width == w) by (nonlinear_arith)
                requires
                    total == rows * w,
                    rows > 0,
                    width == total / rows,
                    w >= 0,
            ;
            lemma_row_bounds(i as int, rows as int, w);
        }
        let start = i * width;
        let mut data: Vec<T> = Vec::new();
        let mut k: usize = 0;
        while k < width
            invariant
                k <= width,
                start + width <= self.data@.len(),
                total == self.data@.len(),
                data@ == self.data@.subrange(start as int, start + k),
            decreases width - k,
        {
            data.push(self.data[start + k]);
            k = k + 1;
            assert(data@ =~= self.data@.subrange(start as int, start + k));
        }
        Some(Array { shape, data })
    }

    /// The array with its rows in the opposite order.
    pub fn reverse(&self) -> (r: Array<T>)
        ensures
            r@ == reversed(self@),
    {
        proof {
            use_type_invariant(self);
        }
        if self.shape.len() == 0 {
            return self.copy();
        }
        let rows = self.shape[0];
        let total = self.data.len();
        let mut data: Vec<T> = Vec::new();
        if rows == 0 || total == 0 {
            assert(size(self.shape@) == rows * size(self.shape@.drop_first()));
            assert(total == 0) by (nonlinear_arith)
                requires
                    rows == 0 || total == 0,
                    total == rows * size(self.shape@.drop_first()),
            ;
            assert(data@ =~= reversed(self@).data);
            return Array { shape: self.shape.clone(), data };
        }
        let width = total / rows;
        let ghost w = size(self.shape@.drop_first()) as int;
        proof {
            assert(total == rows * w);
            assert(width == w && w > 0) by (nonlinear_arith)
                requires
                    total == rows * w,
                    rows > 0,
                    total > 0,
                    width == total / rows,
                    w >= 0,
            ;
        }
        let mut j: usize = 0;
        while j < total
            invariant
                j <= total,
                total == self.data@.len(),
                total == rows * width,
                width > 0,
                width == w,
                rows == self.shape@[0],
                self.shape@.len() > 0,
                w == size(self.shape@.drop_first()),
                data@.len() == j,
                forall|m: int| 0 <= m < j ==> #[trigger] data@[m] == reversed(self@).data[m],
            decreases total - j,
        {
            let row = j / width;
            let column = j % width;
            assert(row < rows) by (nonlinear_arith)
                requires
                    j < total,
                    total == rows * width,
                    width > 0,
                    row == j / width,
            ;
            proof {
                lemma_row_bounds(rows - 1 - row, rows as int, width as int);
            }
            data.push(self.data[(rows - 1 - row) * width + column]);
            j = j + 1;
        }
        assert(data@ =~= reversed(self@).data);
        Array { shape: self.shape.clone(), data }
    }
}

} // verus!
