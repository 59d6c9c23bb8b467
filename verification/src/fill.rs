//! Filling: arrays cannot be jagged, so rows of different shapes are put
//! together by giving each the room of the largest and filling the room that
//! a row does not take with a fill value.

use vstd::prelude::*;
use crate::array::{as_rows, couple_shape, join_inner, join_shape, Array, ArrayView};
use crate::error::TypeError;
use crate::shape::{element_count, lemma_size_nonzero, lemma_size_push, size};

verus! {

/// The place of an element in its array, axis by axis, where the element is
/// the one number `j` in row-major order of an array of the shape `shape`.
pub open spec fn unflat(shape: Seq<usize>, j: int) -> Seq<int>
    decreases shape.len(),
{
    if shape.len() == 0 {
        Seq::empty()
    } else {
        unflat(shape.drop_last(), j / shape.last() as int).push(j % shape.last() as int)
    }
}

/// The number in row-major order of the element at the place `place` of an
/// array of the shape `shape`.
pub open spec fn flat(shape: Seq<usize>, place: Seq<int>) -> int
    decreases shape.len(),
{
    if shape.len() == 0 {
        0
    } else {
        flat(shape.drop_last(), place.drop_last()) * shape.last() + place.last()
    }
}

/// Whether an array of the shape `shape` has an element at the place `place`.
pub open spec fn within(shape: Seq<usize>, place: Seq<int>) -> bool {
    place.len() == shape.len() && forall|d: int|
        0 <= d < shape.len() ==> 0 <= #[trigger] place[d] < shape[d]
}

/// The array `a` in the shape `target`, which has as many axes: every
/// element keeps its place, and the places that `a` does not have are
/// taken by `fill`.
pub open spec fn padded<T>(a: ArrayView<T>, target: Seq<usize>, fill: T) -> ArrayView<T> {
    ArrayView {
        shape: target,
        data: Seq::new(
            size(target),
            |j: int|
                if within(a.shape, unflat(target, j)) {
                    a.data[flat(a.shape, unflat(target, j))]
                } else {
                    fill
                },
        ),
    }
}

/// The shape with room for both `a` and `b`, which have as many axes: the
/// larger size along every axis.
pub open spec fn merged(a: Seq<usize>, b: Seq<usize>) -> Seq<usize> {
    Seq::new(
        a.len(),
        |d: int|
            if a[d] >= b[d] {
                a[d]
            } else {
                b[d]
            },
    )
}

/// The elements of an array lie one behind the other: an element with a
/// place has a number below the number of elements.
pub proof fn lemma_flat_within(shape: Seq<usize>, place: Seq<int>)
    requires
        within(shape, place),
    ensures
        0 <= flat(shape, place) < size(shape),
    decreases shape.len(),
{
    if shape.len() > 0 {
        let front = shape.drop_last();
        let before = place.drop_last();
        assert forall|d: int| 0 <= d < front.len() implies 0 <= #[trigger] before[d] < front[d] by {
            assert(before[d] == place[d]);
        }
        lemma_flat_within(front, before);
        assert(shape =~= front.push(shape.last()));
        lemma_size_push(front, shape.last());
        assert(0 <= place[shape.len() - 1] < shape[shape.len() - 1]);
        let f = flat(front, before);
        let n = shape.last() as int;
        let p = place.last();
        let s = size(front) as int;
        assert(0 <= f * n + p < s * n) by (nonlinear_arith)
            requires
                0 <= f < s,
                0 <= p < n,
        ;
    } else {
        assert(size(shape) == 1);
    }
}

/// An array padded to its own shape is the array.
pub proof fn lemma_padded_same<T>(a: ArrayView<T>, fill: T)
    requires
        a.wf(),
    ensures
        padded(a, a.shape, fill) == a,
{
    assert forall|j: int| 0 <= j < size(a.shape) implies within(a.shape, unflat(a.shape, j))
        && flat(a.shape, unflat(a.shape, j)) == j by {
        lemma_unflat(a.shape, j);
    }
    assert(padded(a, a.shape, fill).data =~= a.data);
}

/// The place of the element number `j` is a place of the array, and the
/// element at that place is the element number `j`.
pub proof fn lemma_unflat(shape: Seq<usize>, j: int)
    requires
        0 <= j < size(shape),
    ensures
        within(shape, unflat(shape, j)),
        flat(shape, unflat(shape, j)) == j,
    decreases shape.len(),
{
    if shape.len() > 0 {
        let front = shape.drop_last();
        let n = shape.last() as int;
        assert(shape =~= front.push(shape.last()));
        lemma_size_push(front, shape.last());
        let s = size(front) as int;
        assert(n > 0 && 0 <= j / n < s && j == (j / n) * n + j % n && 0 <= j % n < n)
            by (nonlinear_arith)
            requires
                0 <= j < s * n,
                s >= 0,
                n >= 0,
        ;
        lemma_unflat(front, j / n);
        let place = unflat(shape, j);
        assert(place.drop_last() =~= unflat(front, j / n));
        assert forall|d: int| 0 <= d < shape.len() implies 0 <= #[trigger] place[d] < shape[d] by {
            if d < front.len() {
                assert(place[d] == unflat(front, j / n)[d]);
                assert(front[d] == shape[d]);
            }
        }
    }
}

/// The sizes of `a` and `b` along each axis, the larger of the two.
pub(crate) fn merge(a: &Vec<usize>, b: &Vec<usize>) -> (r: Vec<usize>)
    requires
        a@.len() == b@.len(),
    ensures
        r@ == merged(a@, b@),
{
    let mut r: Vec<usize> = Vec::new();
    let mut d: usize = 0;
    while d < a.len()
        invariant
            d <= a.len(),
            a@.len() == b@.len(),
            r@.len() == d,
            forall|k: int| 0 <= k < d ==> #[trigger] r@[k] == merged(a@, b@)[k],
        decreases a.len() - d,
    {
        r.push(if a[d] >= b[d] {
            a[d]
        } else {
            b[d]
        });
        d = d + 1;
    }
    assert(r@ =~= merged(a@, b@));
    r
}

/// The element of `a` at the place of the element number `j` of an array of
/// the shape `target`, if `a` has that place.
fn source<T: Copy>(a: &Array<T>, target: &Vec<usize>, j: usize) -> (r: Option<T>)
    requires
        a@.shape.len() == target@.len(),
        j < size(target@),
    ensures
        r == if within(a@.shape, unflat(target@, j as int)) {
            Some(a@.data[flat(a@.shape, unflat(target@, j as int))])
        } else {
            None
        },
{
    let shape = a.shape();
    let data = a.data();
    let rank = target.len();
    proof {
        lemma_size_nonzero(target@);
        lemma_unflat(target@, j as int);
    }
    let ghost place = unflat(target@, j as int);
    // The places along the axes, the last axis first.
    let mut digits: Vec<usize> = Vec::new();
    let mut rest: usize = j;
    let mut d: usize = rank;
    assert(target@.take(rank as int) =~= target@);
    while d > 0
        invariant
            d <= rank,
            rank == target@.len(),
            forall|k: int| 0 <= k < target@.len() ==> target@[k] > 0,
            digits@.len() == rank - d,
            unflat(target@.take(d as int), rest as int) == place.take(d as int),
            forall|k: int| d <= k < rank ==> #[trigger] digits@[rank - 1 - k] == place[k],
            place.len() == rank,
        decreases d,
    {
        let ghost front = target@.take(d as int);
        let n = target[d - 1];
        proof {
            assert(front.last() == target@[d - 1]);
            assert(front.drop_last() =~= target@.take(d - 1));
            assert(place.take(d as int).drop_last() =~= place.take(d - 1));
            assert(place.take(d as int).last() == place[d - 1]);
        }
        digits.push(rest % n);
        rest = rest / n;
        d = d - 1;
    }
    // Whether `a` has the place.
    let mut k: usize = 0;
    while k < rank
        invariant
            k <= rank,
            rank == target@.len(),
            rank == a@.shape.len(),
            shape@ == a@.shape,
            place.len() == rank,
            digits@.len() == rank,
            forall|m: int| 0 <= m < rank ==> #[trigger] digits@[rank - 1 - m] == place[m],
            forall|m: int| 0 <= m < k ==> 0 <= #[trigger] place[m] < shape@[m],
            place == unflat(target@, j as int),
        decreases rank - k,
    {
        let digit = digits[rank - 1 - k];
        assert(digit == place[k as int]);
        if digit >= shape[k] {
            assert(!(0 <= place[k as int] < a@.shape[k as int]));
            assert(!within(a@.shape, place));
            return None;
        }
        k = k + 1;
    }
    assert(within(a@.shape, place));
    // The number of the element in `a`, the first axis first.
    let count = data.len();
    let mut at: usize = 0;
    let mut k: usize = 0;
    assert(a@.shape.take(0).len() == 0);
    assert(size(a@.shape.take(0)) == 1);
    while k < rank
        invariant
            k <= rank,
            rank == target@.len(),
            rank == a@.shape.len(),
            shape@ == a@.shape,
            data@ == a@.data,
            a@.wf(),
            place.len() == rank,
            digits@.len() == rank,
            within(a@.shape, place),
            place == unflat(target@, j as int),
            count == data@.len(),
            forall|m: int| 0 <= m < rank ==> #[trigger] digits@[rank - 1 - m] == place[m],
            at == flat(shape@.take(k as int), place.take(k as int)),
            at < size(shape@.take(k as int)),
        decreases rank - k,
    {
        let digit = digits[rank - 1 - k];
        assert(digit == place[k as int]);
        assert(0 <= place[k as int] < shape@[k as int]);
        proof {
            let front = shape@.take(k + 1);
            let before = place.take(k + 1);
            assert(front.drop_last() =~= shape@.take(k as int));
            assert(before.drop_last() =~= place.take(k as int));
            assert(front.last() == shape@[k as int]);
            assert(before.last() == place[k as int]);
            assert forall|m: int| 0 <= m < front.len() implies 0 <= #[trigger] before[m]
                < front[m] by {
                assert(before[m] == place[m]);
                assert(0 <= place[m] < shape@[m]);
            }
            lemma_flat_within(front, before);
            assert(flat(front, before) == at * shape@[k as int] + digit);
            assert forall|m: int| 0 <= m < shape@.len() implies shape@[m] > 0 by {
                assert(0 <= place[m] < shape@[m]);
            }
            let after = shape@.skip(k + 1);
            assert forall|m: int| 0 <= m < after.len() implies #[trigger] after[m] > 0 by {
                assert(after[m] == shape@[k + 1 + m]);
            }
            crate::shape::lemma_size_positive(after);
            crate::shape::lemma_size_nonzero_upto(shape@, data@.len(), k + 1);
            assert(size(front) <= count);
            assert(at * shape@[k as int] >= 0) by (nonlinear_arith)
                requires
                    at >= 0,
                    shape@[k as int] >= 0,
            ;
        }
        at = at * shape[k] + digit;
        k = k + 1;
    }
    proof {
        assert(shape@.take(rank as int) =~= shape@);
        assert(place.take(rank as int) =~= place);
    }
    Some(data[at])
}

/// The array `a` in the shape `target`, with `fill` at the places that `a`
/// does not have. There is none where `target` has another number of axes
/// than `a`, or more elements than the machine can count.
pub fn pad<T: Copy>(a: &Array<T>, target: &Vec<usize>, fill: T) -> (r: Option<Array<T>>)
    ensures
        r is Some <==> a@.shape.len() == target@.len() && size(target@) <= usize::MAX,
        r is Some ==> r.unwrap()@ == padded(a@, target@, fill),
{
    if a.rank() != target.len() {
        return None;
    }
    let total = match element_count(target) {
        Some(n) => n,
        None => {
            return None;
        },
    };
    let mut data: Vec<T> = Vec::new();
    let mut j: usize = 0;
    while j < total
        invariant
            j <= total,
            total == size(target@),
            a@.shape.len() == target@.len(),
            data@.len() == j,
            forall|i: int| 0 <= i < j ==> #[trigger] data@[i] == padded(a@, target@, fill).data[i],
        decreases total - j,
    {
        let element = match source(a, target, j) {
            Some(x) => x,
            None => fill,
        };
        data.push(element);
        j = j + 1;
    }
    assert(data@ =~= padded(a@, target@, fill).data);
    let mut shape: Vec<usize> = Vec::new();
    let mut d: usize = 0;
    while d < target.len()
        invariant
            d <= target.len(),
            shape@ == target@.take(d as int),
        decreases target.len() - d,
    {
        shape.push(target[d]);
        d = d + 1;
        assert(shape@ =~= target@.take(d as int));
    }
    assert(target@.take(target@.len() as int) =~= target@);
    Array::new(shape, data)
}

/// The shape that a row-wise operand of the shape `dims` is padded to when
/// its rows get the shape `row`: its rows in their new shape, or, where it
/// is a single row, that row.
pub open spec fn with_rows(dims: Seq<usize>, row: Seq<usize>) -> Seq<usize> {
    if dims.len() == row.len() + 1 {
        seq![dims[0]] + row
    } else {
        row
    }
}

/// What joining `a` and `b` with the fill value `fill` gives: the rows of
/// `a` followed by the rows of `b`, each with the room of the largest.
///
/// An operand with one axis fewer than the other is a single row, and two
/// scalars make a list of two. There is no join where the numbers of axes
/// differ by more than one, or the result has more rows or elements than
/// the machine can count.
pub open spec fn filled_join<T>(a: ArrayView<T>, b: ArrayView<T>, fill: T) -> Option<ArrayView<T>> {
    let inner = join_inner(a.shape, b.shape);
    match (as_rows(a.shape, inner), as_rows(b.shape, inner)) {
        (Some((n, row_a)), Some((m, row_b))) => {
            let row = merged(row_a, row_b);
            let whole_a = with_rows(a.shape, row);
            let whole_b = with_rows(b.shape, row);
            if n + m <= usize::MAX && size(whole_a) <= usize::MAX && size(whole_b) <= usize::MAX {
                Some(
                    ArrayView {
                        shape: seq![(n + m) as usize] + row,
                        data: padded(a, whole_a, fill).data + padded(b, whole_b, fill).data,
                    },
                )
            } else {
                None
            }
        },
        _ => None,
    }
}

/// What putting `a` and `b` together as the two rows of an array gives, with
/// the fill value `fill`: both with the room of the larger. There is none
/// where the two do not have as many axes, or a row has more elements than
/// the machine can count.
pub open spec fn filled_couple<T>(a: ArrayView<T>, b: ArrayView<T>, fill: T) -> Option<
    ArrayView<T>,
> {
    let row = merged(a.shape, b.shape);
    if a.shape.len() == b.shape.len() && size(row) <= usize::MAX {
        Some(
            ArrayView {
                shape: couple_shape(row),
                data: padded(a, row, fill).data + padded(b, row, fill).data,
            },
        )
    } else {
        None
    }
}

/// Two shapes with as many axes have room in the shape merged of them, and
/// a shape merged with itself is the shape.
pub proof fn lemma_merged(a: Seq<usize>, b: Seq<usize>)
    requires
        a.len() == b.len(),
    ensures
        merged(a, b).len() == a.len(),
        merged(a, b) == merged(b, a),
        a == b ==> merged(a, b) == a,
        forall|d: int| 0 <= d < a.len() ==> a[d] <= #[trigger] merged(a, b)[d] && b[d] <= merged(a, b)[d],
{
    assert(merged(a, b) =~= merged(b, a));
    if a == b {
        assert(merged(a, b) =~= a);
    }
}

/// Joining with a fill value is joining where the rows have one shape
/// already: the fill value is not used then.
pub proof fn lemma_filled_join_fits<T>(a: ArrayView<T>, b: ArrayView<T>, fill: T)
    requires
        a.wf(),
        b.wf(),
        join_shape(a.shape, b.shape) is Some,
        a.data.len() <= usize::MAX,
        b.data.len() <= usize::MAX,
    ensures
        filled_join(a, b, fill) == Some(
            ArrayView { shape: join_shape(a.shape, b.shape).unwrap(), data: a.data + b.data },
        ),
{
    let inner = join_inner(a.shape, b.shape);
    let row_a = as_rows(a.shape, inner).unwrap().1;
    let row_b = as_rows(b.shape, inner).unwrap().1;
    lemma_merged(row_a, row_b);
    assert(with_rows(a.shape, row_a) =~= a.shape);
    assert(with_rows(b.shape, row_a) =~= b.shape);
    lemma_padded_same(a, fill);
    lemma_padded_same(b, fill);
}

/// The shape `dims` with its rows in the shape `row`.
fn rows_in(dims: &Vec<usize>, row: &Vec<usize>) -> (r: Vec<usize>)
    requires
        dims@.len() == row@.len() + 1 || dims@.len() == row@.len(),
    ensures
        r@ == with_rows(dims@, row@),
{
    let mut r: Vec<usize> = Vec::new();
    if dims.len() > row.len() {
        r.push(dims[0]);
    }
    let ghost head = r@;
    let mut d: usize = 0;
    while d < row.len()
        invariant
            d <= row.len(),
            r@ == head + row@.take(d as int),
        decreases row.len() - d,
    {
        r.push(row[d]);
        d = d + 1;
        assert(r@ =~= head + row@.take(d as int));
    }
    assert(row@.take(row@.len() as int) =~= row@);
    assert(r@ =~= with_rows(dims@, row@));
    r
}

/// The shape of the rows of a row-wise operand of the shape `dims`, whose
/// rows have `inner` axes.
fn row_shape(dims: &Vec<usize>, inner: usize) -> (r: Vec<usize>)
    requires
        dims@.len() == inner + 1 || dims@.len() == inner,
    ensures
        Some(r@) == as_rows_shape(dims@, inner as nat),
        r@.len() == inner,
{
    let from: usize = if dims.len() > inner {
        1
    } else {
        0
    };
    let mut r: Vec<usize> = Vec::new();
    let mut d: usize = from;
    while d < dims.len()
        invariant
            from <= d <= dims.len(),
            r@ == dims@.subrange(from as int, d as int),
        decreases dims.len() - d,
    {
        r.push(dims[d]);
        d = d + 1;
        assert(r@ =~= dims@.subrange(from as int, d as int));
    }
    proof {
        if from == 1 {
            assert(dims@.subrange(1, dims@.len() as int) =~= dims@.drop_first());
        } else {
            assert(dims@.subrange(0, dims@.len() as int) =~= dims@);
        }
    }
    r
}

/// The shape of the rows that [`as_rows`] speaks of.
pub open spec fn as_rows_shape(dims: Seq<usize>, inner: nat) -> Option<Seq<usize>> {
    match as_rows(dims, inner) {
        Some((_, row)) => Some(row),
        None => None,
    }
}

/// The rows of `a` followed by the rows of `b`, each with the room of the
/// largest and `fill` where a row is smaller.
///
/// Fails with [`TypeError::Shape`] where the numbers of axes differ by more
/// than one, and with [`TypeError::TooLarge`] where the result would have
/// more rows or elements than the machine can count.
pub fn join_filled<T: Copy>(a: &Array<T>, b: &Array<T>, fill: T) -> (r: Result<
    Array<T>,
    TypeError,
>)
    ensures
        match r {
            Ok(c) => filled_join(a@, b@, fill) == Some(c@),
            Err(e) => filled_join(a@, b@, fill) is None && {
                let inner = join_inner(a@.shape, b@.shape);
                if as_rows(a@.shape, inner) is Some && as_rows(b@.shape, inner) is Some {
                    e is TooLarge
                } else {
                    e.is_shape(a@.shape, b@.shape)
                }
            },
        },
{
    let ra = a.rank();
    let rb = b.rank();
    let inner: usize = if ra == 0 && rb == 0 {
        0
    } else if ra >= rb {
        ra - 1
    } else {
        rb - 1
    };
    if ra < inner || rb < inner {
        return Err(TypeError::Shape { left: a.shape().clone(), right: b.shape().clone() });
    }
    let row = merge(&row_shape(a.shape(), inner), &row_shape(b.shape(), inner));
    let whole_a = rows_in(a.shape(), &row);
    let whole_b = rows_in(b.shape(), &row);
    let padded_a = match pad(a, &whole_a, fill) {
        Some(p) => p,
        None => {
            return Err(TypeError::TooLarge);
        },
    };
    let padded_b = match pad(b, &whole_b, fill) {
        Some(p) => p,
        None => {
            return Err(TypeError::TooLarge);
        },
    };
    proof {
        assert(as_rows(whole_a@, inner as nat) == Some(
            (as_rows(a@.shape, inner as nat).unwrap().0, row@),
        )) by {
            if ra == inner + 1 {
                assert(whole_a@.drop_first() =~= row@);
            }
        }
        assert(as_rows(whole_b@, inner as nat) == Some(
            (as_rows(b@.shape, inner as nat).unwrap().0, row@),
        )) by {
            if rb == inner + 1 {
                assert(whole_b@.drop_first() =~= row@);
            }
        }
        assert(join_inner(whole_a@, whole_b@) == inner);
    }
    match Array::join(&padded_a, &padded_b) {
        Ok(c) => Ok(c),
        Err(e) => Err(TypeError::TooLarge),
    }
}

/// `a` and `b` as the two rows of an array, both with the room of the
/// larger and `fill` where one is smaller.
///
/// Fails with [`TypeError::Shape`] where the two do not have as many axes,
/// and with [`TypeError::TooLarge`] where a row would have more elements
/// than the machine can count.
pub fn couple_filled<T: Copy>(a: &Array<T>, b: &Array<T>, fill: T) -> (r: Result<
    Array<T>,
    TypeError,
>)
    ensures
        match r {
            Ok(c) => filled_couple(a@, b@, fill) == Some(c@),
            Err(e) => filled_couple(a@, b@, fill) is None && if a@.shape.len() == b@.shape.len() {
                e is TooLarge
            } else {
                e.is_shape(a@.shape, b@.shape)
            },
        },
{
    if a.rank() != b.rank() {
        return Err(TypeError::Shape { left: a.shape().clone(), right: b.shape().clone() });
    }
    let row = merge(a.shape(), b.shape());
    let padded_a = match pad(a, &row, fill) {
        Some(p) => p,
        None => {
            return Err(TypeError::TooLarge);
        },
    };
    let padded_b = match pad(b, &row, fill) {
        Some(p) => p,
        None => {
            return Err(TypeError::TooLarge);
        },
    };
    match Array::couple(&padded_a, &padded_b) {
        Ok(c) => Ok(c),
        Err(e) => Err(TypeError::TooLarge),
    }
}

} // verus!
