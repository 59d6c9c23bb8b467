//! Arithmetic on characters. Characters and numbers are points and
//! distances: a character moved by a whole number is a character, and two
//! characters are a whole number apart. There is no other arithmetic on
//! characters.

use vstd::prelude::*;
use crate::array::{pervade, Array, ArrayView};
use crate::error::TypeError;
use crate::number::{bits_of, whole, whole_bits, whole_of};
use crate::primitive::Primitive;
use crate::shape::{broadcast, compatible, size, span};
use crate::value::{Value, ValueView};

verus! {

/// Whether `code` is the code of a character: a code point that is no
/// surrogate.
pub open spec fn is_scalar(code: int) -> bool {
    (0 <= code <= 0xD7FF) || (0xE000 <= code <= 0x10FFFF)
}

/// `char::from_u32` of std: the character with the code `code`. There is
/// one exactly where the code is a code point that is no surrogate. This is
/// taken from the documentation of std and not proved here.
#[verifier::external_body]
fn character(code: u32) -> (r: Option<char>)
    ensures
        match r {
            Some(c) => c as int == code as int && is_scalar(code as int),
            None => !is_scalar(code as int),
        },
{
    char::from_u32(code)
}

/// The character `c` moved by the number `bits`, forward or back. There is
/// none where the number is not whole or leads out of the characters.
pub open spec fn moved_by(c: char, bits: u64, back: bool) -> Option<char> {
    match whole_of(bits) {
        Some(n) => {
            let code = if back {
                c as int - n
            } else {
                c as int + n
            };
            if is_scalar(code) {
                Some(code as char)
            } else {
                None
            }
        },
        None => None,
    }
}

/// The number that leads from the character `from` to the character `to`.
pub open spec fn apart(from: char, to: char) -> u64 {
    bits_of(to as int - from as int)
}

/// The elements of an elementwise operation `f` on `a` and `b`.
pub open spec fn combined<A, B, C>(
    a: ArrayView<A>,
    b: ArrayView<B>,
    f: spec_fn(A, B) -> C,
) -> Seq<C> {
    let shape = broadcast(a.shape, b.shape);
    Seq::new(
        size(shape),
        |i: int| f(a.data[i / span(a.shape, shape) as int], b.data[i / span(b.shape, shape) as int]),
    )
}

/// The array of the characters `moved`, where every one of them is there.
pub open spec fn all_moved(shape: Seq<usize>, moved: Seq<Option<char>>) -> Option<ValueView> {
    if forall|i: int| 0 <= i < moved.len() ==> (#[trigger] moved[i]) is Some {
        Some(
            ValueView::Char(
                ArrayView { shape, data: Seq::new(moved.len(), |i: int| moved[i].unwrap()) },
            ),
        )
    } else {
        None
    }
}

/// What the built-in `p` makes of `a` and `b` where one of them holds
/// characters. `a` is the first operand, which was on top of the stack.
///
/// Adding a number and a character moves the character forward.
/// Subtracting gives the second operand less the first: a character less a
/// number is the character moved back, and a character less a character is
/// the number that they are apart. Nothing else is arithmetic on characters.
pub open spec fn affine(p: Primitive, a: ValueView, b: ValueView) -> Option<ValueView> {
    let shape = broadcast(a.shape(), b.shape());
    if !compatible(a.shape(), b.shape()) {
        None
    } else if p == Primitive::Add && a is Num && b is Char {
        all_moved(
            shape,
            combined(a->Num_0, b->Char_0, |x: u64, c: char| moved_by(c, x, false)),
        )
    } else if p == Primitive::Add && a is Char && b is Num {
        all_moved(
            shape,
            combined(a->Char_0, b->Num_0, |c: char, x: u64| moved_by(c, x, false)),
        )
    } else if p == Primitive::Sub && a is Num && b is Char {
        all_moved(shape, combined(a->Num_0, b->Char_0, |x: u64, c: char| moved_by(c, x, true)))
    } else if p == Primitive::Sub && a is Char && b is Char {
        Some(
            ValueView::Num(
                ArrayView {
                    shape,
                    data: combined(a->Char_0, b->Char_0, |from: char, to: char| apart(from, to)),
                },
            ),
        )
    } else {
        None
    }
}

/// The character `c` moved by the number `bits`, forward or back.
pub fn shift(c: char, bits: u64, back: bool) -> (r: Option<char>)
    ensures
        r == moved_by(c, bits, back),
{
    let n = match whole(bits) {
        Some(n) => n,
        None => {
            return None;
        },
    };
    proof {
        vstd::arithmetic::power2::lemma2_to64_rest();
        crate::number::lemma_whole_small(bits);
    }
    let code: i64 = if back {
        (c as u32) as i64 - n
    } else {
        (c as u32) as i64 + n
    };
    if code < 0 || code > 0x10FFFF {
        return None;
    }
    match character(code as u32) {
        Some(moved) => {
            assert((code as u32) as int == code);
            assert(moved as int == code);
            assert(moved == code as char);
            Some(moved)
        },
        None => None,
    }
}

/// The number that leads from the character `from` to the character `to`.
pub fn distance(from: char, to: char) -> (r: u64)
    ensures
        r == apart(from, to),
{
    proof {
        vstd::arithmetic::power2::lemma2_to64_rest();
    }
    let d: i64 = (to as u32) as i64 - (from as u32) as i64;
    match whole_bits(d) {
        Some(bits) => bits,
        None => 0,
    }
}

/// The place of the first of `moved` that is not there, or the length of
/// `moved` where all are there.
pub open spec fn first_gap(moved: Seq<Option<char>>) -> int
    decreases moved.len(),
{
    if moved.len() == 0 {
        0
    } else if moved[0] is None {
        0
    } else {
        1 + first_gap(moved.drop_first())
    }
}

/// The first gap lies within the sequence or at its end; there is a gap at
/// it unless it is the end; and there is none before it.
pub proof fn lemma_first_gap(moved: Seq<Option<char>>)
    ensures
        0 <= first_gap(moved) <= moved.len(),
        first_gap(moved) < moved.len() ==> moved[first_gap(moved)] is None,
        forall|i: int| 0 <= i < first_gap(moved) ==> (#[trigger] moved[i]) is Some,
    decreases moved.len(),
{
    if moved.len() > 0 && moved[0] is Some {
        let rest = moved.drop_first();
        lemma_first_gap(rest);
        assert forall|i: int| 0 <= i < first_gap(moved) implies (#[trigger] moved[i]) is Some by {
            if i > 0 {
                assert(moved[i] == rest[i - 1]);
            }
        }
        if first_gap(moved) < moved.len() {
            assert(moved[first_gap(moved)] == rest[first_gap(rest)]);
        }
    }
}

/// Whether `p` on `a` and `b` is arithmetic that moves characters by
/// numbers, and which of the two holds the numbers.
pub open spec fn moves(p: Primitive, a: ValueView, b: ValueView) -> Option<ArrayView<u64>> {
    if (p == Primitive::Add || p == Primitive::Sub) && a is Num && b is Char {
        Some(a->Num_0)
    } else if p == Primitive::Add && a is Char && b is Num {
        Some(b->Num_0)
    } else {
        None
    }
}

/// Why `p` fails on `a` and `b`, of which one holds characters: this is no
/// arithmetic on characters, or the shapes do not fit, or at the first
/// element where a character cannot be moved the number is not whole, or
/// else it leads out of the characters.
pub open spec fn affine_fault(e: TypeError, p: Primitive, a: ValueView, b: ValueView) -> bool {
    let shape = broadcast(a.shape(), b.shape());
    let unfit = TypeError::Character { left: a.element_type(), right: b.element_type() };
    if moves(p, a, b) is None && !(p == Primitive::Sub && a is Char && b is Char) {
        e == unfit
    } else if !compatible(a.shape(), b.shape()) {
        e.is_shape(a.shape(), b.shape())
    } else {
        match moves(p, a, b) {
            Some(numbers) => {
                let moved = if p == Primitive::Sub {
                    combined(a->Num_0, b->Char_0, |x: u64, c: char| moved_by(c, x, true))
                } else if a is Num {
                    combined(a->Num_0, b->Char_0, |x: u64, c: char| moved_by(c, x, false))
                } else {
                    combined(a->Char_0, b->Num_0, |c: char, x: u64| moved_by(c, x, false))
                };
                let i = first_gap(moved);
                if whole_of(numbers.data[i / span(numbers.shape, shape) as int]) is None {
                    e is NotWhole
                } else {
                    e == unfit
                }
            },
            None => e == unfit,
        }
    }
}

fn gather(shape: Vec<usize>, moved: Vec<Option<char>>) -> (r: Result<Value, usize>)
    requires
        moved@.len() == size(shape@),
    ensures
        match r {
            Ok(v) => all_moved(shape@, moved@) == Some(v@),
            Err(i) => all_moved(shape@, moved@) is None && i == first_gap(moved@) && i
                < moved@.len(),
        },
{
    let mut data: Vec<char> = Vec::new();
    let mut i: usize = 0;
    while i < moved.len()
        invariant
            i <= moved.len(),
            data@.len() == i,
            forall|k: int| 0 <= k < i ==> #[trigger] moved@[k] == Some(data@[k]),
        decreases moved.len() - i,
    {
        match moved[i] {
            Some(c) => {
                data.push(c);
            },
            None => {
                proof {
                    lemma_first_gap(moved@);
                    let g = first_gap(moved@);
                    if g < i {
                        assert(moved@[g] is Some);
                    }
                    if g > i {
                        assert(moved@[i as int] is Some);
                    }
                }
                return Err(i);
            },
        }
        i = i + 1;
    }
    assert(data@ =~= Seq::new(moved@.len(), |i: int| moved@[i].unwrap()));
    match Array::new(shape, data) {
        Some(a) => Ok(Value::Char(a)),
        None => Err(0),
    }
}

/// The error for a character that cannot be moved by the element of
/// `numbers` that meets it at the place `i` of the result, where every
/// element of `numbers` meets `step` elements.
fn gap_fault(numbers: &Array<u64>, i: usize, step: usize, unfit: TypeError) -> (e: TypeError)
    requires
        step > 0,
        i / step < numbers@.data.len(),
    ensures
        e == if whole_of(numbers@.data[i as int / step as int]) is None {
            TypeError::NotWhole
        } else {
            unfit
        },
{
    let data = numbers.data();
    match whole(data[i / step]) {
        Some(_) => unfit,
        None => TypeError::NotWhole,
    }
}

/// Carries out the built-in `p` on `a` and `b`, of which one holds
/// characters. `a` is the first operand, which was on top of the stack.
///
/// Fails with [`TypeError::Shape`] where the shapes do not fit, with
/// [`TypeError::NotWhole`] where a character is to be moved by a number
/// that is not whole, and with [`TypeError::Character`] where a character
/// would be moved out of the characters or this is no arithmetic on
/// characters at all.
pub fn affine_values(p: Primitive, a: &Value, b: &Value) -> (r: Result<Value, TypeError>)
    ensures
        match r {
            Ok(v) => affine(p, a@, b@) == Some(v@),
            Err(e) => affine(p, a@, b@) is None && affine_fault(e, p, a@, b@),
        },
{
    let unfit = TypeError::Character { left: a.element_type(), right: b.element_type() };
    let forward = |x: u64, c: char| -> (r: Option<char>)
        ensures
            r == moved_by(c, x, false),
        { shift(c, x, false) };
    let forward_too = |c: char, x: u64| -> (r: Option<char>)
        ensures
            r == moved_by(c, x, false),
        { shift(c, x, false) };
    let back = |x: u64, c: char| -> (r: Option<char>)
        ensures
            r == moved_by(c, x, true),
        { shift(c, x, true) };
    let between = |from: char, to: char| -> (r: u64)
        ensures
            r == apart(from, to),
        { distance(from, to) };
    match (p, a, b) {
        (Primitive::Add, Value::Num(x), Value::Char(c)) => match pervade(x, c, forward) {
            Ok(made) => {
                let (shape, moved) = made.into_parts();
                assert(moved@ =~= combined(x@, c@, |x: u64, c: char| moved_by(c, x, false)));
                let total = moved.len();
                let _ = x.shape();
                let _ = c.shape();
                match gather(shape, moved) {
                    Ok(v) => Ok(v),
                    Err(i) => {
                        proof {
                            lemma_spans(x@.shape, c@.shape, x@.data.len(), c@.data.len());
                        }
                        let count = x.data().len();
                        let step = total / count;
                        assert(step > 0 && i / step < count) by (nonlinear_arith)
                            requires
                                i < total,
                                total == count * step,
                                count > 0,
                        ;
                        Err(gap_fault(x, i, step, unfit))
                    },
                }
            },
            Err(e) => Err(e),
        },
        (Primitive::Add, Value::Char(c), Value::Num(x)) => match pervade(c, x, forward_too) {
            Ok(made) => {
                let (shape, moved) = made.into_parts();
                assert(moved@ =~= combined(c@, x@, |c: char, x: u64| moved_by(c, x, false)));
                let total = moved.len();
                let _ = x.shape();
                let _ = c.shape();
                match gather(shape, moved) {
                    Ok(v) => Ok(v),
                    Err(i) => {
                        proof {
                            lemma_spans(c@.shape, x@.shape, c@.data.len(), x@.data.len());
                        }
                        let count = x.data().len();
                        let step = total / count;
                        assert(step > 0 && i / step < count) by (nonlinear_arith)
                            requires
                                i < total,
                                total == count * step,
                                count > 0,
                        ;
                        Err(gap_fault(x, i, step, unfit))
                    },
                }
            },
            Err(e) => Err(e),
        },
        (Primitive::Sub, Value::Num(x), Value::Char(c)) => match pervade(x, c, back) {
            Ok(made) => {
                let (shape, moved) = made.into_parts();
                assert(moved@ =~= combined(x@, c@, |x: u64, c: char| moved_by(c, x, true)));
                let total = moved.len();
                let _ = x.shape();
                let _ = c.shape();
                match gather(shape, moved) {
                    Ok(v) => Ok(v),
                    Err(i) => {
                        proof {
                            lemma_spans(x@.shape, c@.shape, x@.data.len(), c@.data.len());
                        }
                        let count = x.data().len();
                        let step = total / count;
                        assert(step > 0 && i / step < count) by (nonlinear_arith)
                            requires
                                i < total,
                                total == count * step,
                                count > 0,
                        ;
                        Err(gap_fault(x, i, step, unfit))
                    },
                }
            },
            Err(e) => Err(e),
        },
        (Primitive::Sub, Value::Char(from), Value::Char(to)) => match pervade(from, to, between) {
            Ok(made) => {
                assert(made@.data =~= combined(
                    from@,
                    to@,
                    |from: char, to: char| apart(from, to),
                ));
                Ok(Value::Num(made))
            },
            Err(e) => Err(e),
        },
        _ => Err(unfit),
    }
}

/// In an elementwise operation with a result that is not empty, the number
/// of elements of the result is the number of elements of each operand
/// times the number of elements that one element of the operand meets.
proof fn lemma_spans(a: Seq<usize>, b: Seq<usize>, count_a: nat, count_b: nat)
    requires
        compatible(a, b),
        count_a == size(a),
        count_b == size(b),
        size(broadcast(a, b)) > 0,
    ensures
        count_a > 0,
        count_b > 0,
        size(broadcast(a, b)) / count_a == span(a, broadcast(a, b)),
        size(broadcast(a, b)) / count_b == span(b, broadcast(a, b)),
        size(broadcast(a, b)) == count_a * (size(broadcast(a, b)) / count_a),
        size(broadcast(a, b)) == count_b * (size(broadcast(a, b)) / count_b),
{
    crate::shape::lemma_broadcast(a, b);
    let total = size(broadcast(a, b)) as int;
    let sa = span(a, broadcast(a, b)) as int;
    let sb = span(b, broadcast(a, b)) as int;
    assert(count_a > 0 && count_b > 0 && total / (count_a as int) == sa && total / (count_b as int)
        == sb) by (nonlinear_arith)
        requires
            total > 0,
            total == count_a * sa,
            total == count_b * sb,
            sa >= 0,
            sb >= 0,
    ;
}

} // verus!
