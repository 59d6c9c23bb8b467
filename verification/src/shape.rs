//! Shapes of arrays: one size per axis, the first axis outermost.

use vstd::prelude::*;

verus! {

/// The number of elements of an array with the shape `dims`: the product of
/// the sizes, which is 1 for a scalar.
pub open spec fn size(dims: Seq<usize>) -> nat
    decreases dims.len(),
{
    if dims.len() == 0 {
        1
    } else {
        dims[0] as nat * size(dims.drop_first())
    }
}

/// The number of axes.
pub open spec fn rank_of(dims: Seq<usize>) -> nat {
    dims.len()
}

/// The number of rows: the size of the first axis, and 1 for a scalar.
pub open spec fn length_of(dims: Seq<usize>) -> nat {
    if dims.len() > 0 {
        dims[0] as nat
    } else {
        1
    }
}

/// `a` is the beginning of `b`.
pub open spec fn is_prefix(a: Seq<usize>, b: Seq<usize>) -> bool {
    a.len() <= b.len() && a == b.take(a.len() as int)
}

/// Two shapes fit an elementwise operation when one is the beginning of the other.
pub open spec fn compatible(a: Seq<usize>, b: Seq<usize>) -> bool {
    is_prefix(a, b) || is_prefix(b, a)
}

/// The shape of the result of an elementwise operation: the longer of the two.
pub open spec fn broadcast(a: Seq<usize>, b: Seq<usize>) -> Seq<usize> {
    if a.len() <= b.len() {
        b
    } else {
        a
    }
}

/// The number of elements of the result of an elementwise operation that
/// one element of an operand of the shape `small` is used for, when the
/// result has the shape `large`.
pub open spec fn span(small: Seq<usize>, large: Seq<usize>) -> nat {
    size(large.skip(small.len() as int))
}

/// The size of a shape is the size of a beginning of it times the size of the rest.
pub proof fn lemma_size_split(dims: Seq<usize>, k: int)
    requires
        0 <= k <= dims.len(),
    ensures
        size(dims) == size(dims.take(k)) * size(dims.skip(k)),
    decreases k,
{
    if k == 0 {
        assert(dims.skip(0) =~= dims);
        assert(dims.take(0).len() == 0);
        assert(size(dims.take(0)) == 1);
    } else {
        let rest = dims.drop_first();
        lemma_size_split(rest, k - 1);
        assert(dims.take(k).drop_first() =~= rest.take(k - 1));
        assert(dims.skip(k) =~= rest.skip(k - 1));
        assert(dims.take(k)[0] == dims[0]);
        let d = dims[0] as nat;
        let x = size(rest.take(k - 1));
        let y = size(rest.skip(k - 1));
        assert(size(dims) == d * size(rest));
        assert(size(rest) == x * y);
        assert(size(dims.take(k)) == d * x);
        assert(d * (x * y) == (d * x) * y) by (nonlinear_arith);
    }
}

/// The size of a shape with one more axis at its end.
pub proof fn lemma_size_push(dims: Seq<usize>, n: usize)
    ensures
        size(dims.push(n)) == size(dims) * n,
{
    let all = dims.push(n);
    lemma_size_split(all, dims.len() as int);
    assert(all.take(dims.len() as int) =~= dims);
    let last = all.skip(dims.len() as int);
    assert(last.len() == 1 && last[0] == n);
    assert(last.drop_first().len() == 0);
    assert(size(last) == n as nat * size(last.drop_first()));
    assert(size(last.drop_first()) == 1);
    assert(n as nat * 1 == n as nat);
}

/// A shape without an empty axis has at least one element.
pub proof fn lemma_size_positive(dims: Seq<usize>)
    requires
        forall|i: int| 0 <= i < dims.len() ==> dims[i] > 0,
    ensures
        size(dims) > 0,
    decreases dims.len(),
{
    if dims.len() > 0 {
        lemma_size_positive(dims.drop_first());
        assert(dims[0] as nat * size(dims.drop_first()) > 0) by (nonlinear_arith)
            requires
                dims[0] > 0,
                size(dims.drop_first()) > 0,
        ;
    }
}

/// A shape with an empty axis has no element.
pub proof fn lemma_size_zero(dims: Seq<usize>, i: int)
    requires
        0 <= i < dims.len(),
        dims[i] == 0,
    ensures
        size(dims) == 0,
    decreases dims.len(),
{
    if i == 0 {
        assert(0 * size(dims.drop_first()) == 0);
    } else {
        lemma_size_zero(dims.drop_first(), i - 1);
        assert(dims[0] as nat * 0 == 0);
    }
}

/// A shape with elements has no empty axis.
pub proof fn lemma_size_nonzero(dims: Seq<usize>)
    requires
        size(dims) > 0,
    ensures
        forall|i: int| 0 <= i < dims.len() ==> dims[i] > 0,
{
    assert forall|i: int| 0 <= i < dims.len() implies dims[i] > 0 by {
        if dims[i] == 0 {
            lemma_size_zero(dims, i);
        }
    }
}

/// Where a shape has as many elements as a number that a `usize` holds, and
/// has elements at all along its first axes, the first axes alone have no
/// more elements than that.
pub proof fn lemma_size_nonzero_upto(dims: Seq<usize>, count: nat, k: int)
    requires
        0 <= k <= dims.len(),
        size(dims) == count,
        forall|m: int| 0 <= m < k ==> dims[m] > 0,
    ensures
        size(dims.take(k)) <= count || size(dims.skip(k)) == 0,
        size(dims.take(k)) > 0,
{
    lemma_size_split(dims, k);
    let head = size(dims.take(k));
    let tail = size(dims.skip(k));
    assert forall|m: int| 0 <= m < dims.take(k).len() implies dims.take(k)[m] > 0 by {
        assert(dims.take(k)[m] == dims[m]);
    }
    lemma_size_positive(dims.take(k));
    if tail > 0 {
        assert(head <= head * tail) by (nonlinear_arith)
            requires
                tail >= 1,
                head >= 0,
        ;
    }
}

/// The shape of the result of an elementwise operation on operands whose
/// shapes fit: it is one of the two shapes, both are beginnings of it, and it
/// does not depend on the order of the operands.
pub proof fn lemma_broadcast(a: Seq<usize>, b: Seq<usize>)
    requires
        compatible(a, b),
    ensures
        broadcast(a, b) == a || broadcast(a, b) == b,
        is_prefix(a, broadcast(a, b)),
        is_prefix(b, broadcast(a, b)),
        broadcast(a, b) == broadcast(b, a),
        size(broadcast(a, b)) == size(a) * span(a, broadcast(a, b)),
        size(broadcast(a, b)) == size(b) * span(b, broadcast(a, b)),
{
    let r = broadcast(a, b);
    assert(a.take(a.len() as int) =~= a);
    assert(b.take(b.len() as int) =~= b);
    if a.len() == b.len() {
        assert(a =~= b);
    }
    lemma_size_split(r, a.len() as int);
    lemma_size_split(r, b.len() as int);
}

/// The rank of an array with the shape `dims`: the number of its axes.
pub fn rank(dims: &Vec<usize>) -> (r: usize)
    ensures
        r == rank_of(dims@),
        r == dims@.len(),
{
    dims.len()
}

/// The length of an array with the shape `dims`: the size of its first axis,
/// and 1 for a scalar.
pub fn length(dims: &Vec<usize>) -> (r: usize)
    ensures
        r == length_of(dims@),
        dims@.len() > 0 ==> r == dims@[0],
        dims@.len() == 0 ==> r == 1,
{
    if dims.len() > 0 {
        dims[0]
    } else {
        1
    }
}

/// The number of elements of an array with the shape `dims`, where a `usize`
/// can hold it.
pub fn element_count(dims: &Vec<usize>) -> (r: Option<usize>)
    ensures
        match r {
            Some(n) => n == size(dims@),
            None => size(dims@) > usize::MAX,
        },
{
    let mut i: usize = 0;
    while i < dims.len()
        invariant
            i <= dims.len(),
            forall|k: int| 0 <= k < i ==> dims@[k] > 0,
        decreases dims.len() - i,
    {
        if dims[i] == 0 {
            proof {
                lemma_size_zero(dims@, i as int);
            }
            return Some(0);
        }
        i = i + 1;
    }
    let mut total: usize = 1;
    let mut j: usize = 0;
    assert(dims@.take(0).len() == 0);
    while j < dims.len()
        invariant
            j <= dims.len(),
            forall|k: int| 0 <= k < dims@.len() ==> dims@[k] > 0,
            total == size(dims@.take(j as int)),
            total > 0,
        decreases dims.len() - j,
    {
        proof {
            assert(dims@.take(j + 1) =~= dims@.take(j as int).push(dims@[j as int]));
            lemma_size_push(dims@.take(j as int), dims@[j as int]);
        }
        match total.checked_mul(dims[j]) {
            Some(t) => {
                assert(total * dims@[j as int] > 0) by (nonlinear_arith)
                    requires
                        total > 0,
                        dims@[j as int] > 0,
                ;
                total = t;
            },
            None => {
                proof {
                    lemma_size_split(dims@, j + 1);
                    lemma_size_positive(dims@.skip(j + 1));
                    let head = size(dims@.take(j + 1));
                    let tail = size(dims@.skip(j + 1));
                    assert(head * tail >= head) by (nonlinear_arith)
                        requires
                            tail > 0,
                    ;
                }
                return None;
            },
        }
        j = j + 1;
    }
    assert(dims@.take(j as int) =~= dims@);
    Some(total)
}

/// Whether the shape `a` is the beginning of the shape `b`.
pub fn starts(a: &Vec<usize>, b: &Vec<usize>) -> (r: bool)
    ensures
        r == is_prefix(a@, b@),
{
    if a.len() > b.len() {
        return false;
    }
    let mut i: usize = 0;
    while i < a.len()
        invariant
            i <= a.len(),
            a.len() <= b.len(),
            forall|k: int| 0 <= k < i ==> a@[k] == b@[k],
        decreases a.len() - i,
    {
        if a[i] != b[i] {
            assert(b@.take(a@.len() as int)[i as int] == b@[i as int]);
            return false;
        }
        i = i + 1;
    }
    assert(a@ =~= b@.take(a@.len() as int));
    true
}

/// The shape of the result of an elementwise operation on operands of the
/// shapes `a` and `b`: the longer of the two where one is the beginning of
/// the other, and nothing where the shapes do not fit.
pub fn pervasive_shape(a: &Vec<usize>, b: &Vec<usize>) -> (r: Option<Vec<usize>>)
    ensures
        r is Some <==> compatible(a@, b@),
        r is Some ==> r.unwrap()@ == broadcast(a@, b@),
{
    if a.len() <= b.len() {
        if starts(a, b) {
            Some(b.clone())
        } else {
            assert(!is_prefix(b@, a@)) by {
                if is_prefix(b@, a@) {
                    assert(a@.take(a@.len() as int) =~= a@);
                    assert(b@.take(b@.len() as int) =~= b@);
                }
            }
            None
        }
    } else {
        if starts(b, a) {
            Some(a.clone())
        } else {
            None
        }
    }
}

} // verus!
