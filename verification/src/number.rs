//! Whole numbers among the numbers.
//!
//! A number is the bit pattern of a 64-bit floating-point number: one bit for
//! the sign, eleven for the exponent, fifty-two for the fraction. This module
//! reads off which bit patterns are whole numbers, and writes whole numbers
//! as bit patterns. It deals with the whole numbers below 2^53 in size, which
//! are the ones that every number next to them is a whole number too.

use vstd::prelude::*;
use vstd::arithmetic::power2::{lemma_pow2_adds, lemma_pow2_pos, lemma_pow2_unfold, pow2};

verus! {

/// 2^52: the weight of the lowest bit of the exponent.
pub const FRACTION: u64 = 4503599627370496;

/// 2^63: the weight of the sign.
pub const SIGN: u64 = 9223372036854775808;

/// The exponent of the number 1.
pub const BIAS: u64 = 1023;

/// The bit pattern of the number 0, which stands for "no" where a built-in
/// compares.
pub const ZERO: u64 = 0;

/// The bit pattern of the number 1, which stands for "yes" where a built-in
/// compares.
pub const ONE: u64 = 4607182418800017408;

/// The sign of the bit pattern: 1 for a negative number.
pub open spec fn sign_of(bits: u64) -> int {
    bits as int / SIGN as int
}

/// The exponent that the bit pattern holds.
pub open spec fn exponent_of(bits: u64) -> int {
    (bits as int / FRACTION as int) % 2048
}

/// The fraction that the bit pattern holds.
pub open spec fn fraction_of(bits: u64) -> int {
    bits as int % FRACTION as int
}

/// The whole number that the bit pattern `bits` is, where it is one and
/// smaller than 2^53 in size.
///
/// Zero has the exponent 0 and the fraction 0. Any other number is its
/// fraction with a leading one, times two to the power of its exponent
/// less 1075; it is whole where that power takes no one away.
pub open spec fn whole_of(bits: u64) -> Option<int> {
    let e = exponent_of(bits);
    let f = fraction_of(bits);
    if e == 0 {
        if f == 0 {
            Some(0)
        } else {
            None
        }
    } else if e < BIAS || e > BIAS + 52 {
        None
    } else {
        let digits = FRACTION + f;
        let cut = pow2((BIAS + 52 - e) as nat) as int;
        if digits % cut == 0 {
            Some(
                if sign_of(bits) == 1 {
                    -(digits / cut)
                } else {
                    digits / cut
                },
            )
        } else {
            None
        }
    }
}

/// The number of binary digits of `n` behind its first one.
pub open spec fn top_bit(n: nat) -> nat
    decreases n,
{
    if n < 2 {
        0
    } else {
        1 + top_bit(n / 2)
    }
}

/// The bit pattern of the whole number `n`, which is smaller than 2^53 in size.
pub open spec fn bits_of(n: int) -> u64 {
    if n == 0 {
        0
    } else {
        let size = if n < 0 {
            -n
        } else {
            n
        };
        let top = top_bit(size as nat);
        let sign = if n < 0 {
            SIGN as int
        } else {
            0
        };
        (sign + (BIAS + top) * FRACTION + (size * pow2((52 - top) as nat) - FRACTION)) as u64
    }
}

/// A number with the top bit `top_bit(n)` lies between two powers of two.
pub proof fn lemma_top_bit(n: nat)
    requires
        n > 0,
    ensures
        pow2(top_bit(n)) <= n < 2 * pow2(top_bit(n)),
    decreases n,
{
    if n < 2 {
        assert(pow2(0) == 1) by {
            vstd::arithmetic::power2::lemma2_to64();
        }
    } else {
        lemma_pow2_unfold(top_bit(n));
        lemma_top_bit(n / 2);
    }
}

/// A number below 2^53 has no binary digit beyond the 53rd.
pub proof fn lemma_top_small(n: nat)
    requires
        0 < n < 2 * FRACTION,
    ensures
        top_bit(n) <= 52,
{
    lemma_top_bit(n);
    if top_bit(n) > 52 {
        if top_bit(n) > 53 {
            vstd::arithmetic::power2::lemma_pow2_strictly_increases(53, top_bit(n));
        }
        vstd::arithmetic::power2::lemma2_to64_rest();
    }
}

proof fn lemma_pow2_bounds(e: nat)
    requires
        e <= 52,
    ensures
        1 <= pow2(e) <= FRACTION,
        pow2(e) * pow2((52 - e) as nat) == FRACTION,
{
    lemma_pow2_pos(e);
    lemma_pow2_pos((52 - e) as nat);
    lemma_pow2_adds(e, (52 - e) as nat);
    assert(pow2(52) == FRACTION) by {
        vstd::arithmetic::power2::lemma2_to64_rest();
    }
    assert(pow2(e) <= pow2(e) * pow2((52 - e) as nat)) by (nonlinear_arith)
        requires
            pow2((52 - e) as nat) >= 1,
            pow2(e) >= 1,
    ;
}

/// Reading a whole number that has been written gives the number back.
pub proof fn lemma_written_and_read(n: int)
    requires
        -(pow2(53) as int) < n < pow2(53),
    ensures
        whole_of(bits_of(n)) == Some(n),
{
    assert(pow2(53) == 2 * FRACTION) by {
        vstd::arithmetic::power2::lemma2_to64_rest();
    }
    if n != 0 {
        let size = if n < 0 {
            -n
        } else {
            n
        };
        let top = top_bit(size as nat);
        lemma_top_bit(size as nat);
        lemma_top_small(size as nat);
        lemma_pow2_bounds(top);
        lemma_pow2_bounds((52 - top) as nat);
        let up = pow2((52 - top) as nat) as int;
        let low = pow2(top) as int;
        let digits = size * up;
        assert(FRACTION <= digits < 2 * FRACTION) by (nonlinear_arith)
            requires
                low <= size < 2 * low,
                low * up == FRACTION,
                up >= 1,
                digits == size * up,
        ;
        let f = digits - FRACTION;
        let sign = if n < 0 {
            SIGN as int
        } else {
            0
        };
        let e = BIAS + top;
        let bits = bits_of(n);
        assert(bits as int == sign + e * FRACTION + f);
        assert(fraction_of(bits) == f && exponent_of(bits) == e && sign_of(bits) == (if n < 0 {
            1int
        } else {
            0int
        })) by {
            lemma_fields(sign / SIGN as int, e, f);
        }
        assert(digits % up == 0 && digits / up == size) by {
            vstd::arithmetic::div_mod::lemma_mod_multiples_basic(size, up);
            vstd::arithmetic::div_mod::lemma_div_by_multiple(size, up);
        }
    }
}

/// The bit patterns for "no" and "yes" are those of the numbers 0 and 1.
pub proof fn lemma_zero_and_one()
    ensures
        bits_of(0) == ZERO,
        bits_of(1) == ONE,
        whole_of(ZERO) == Some(0int),
        whole_of(ONE) == Some(1int),
{
    vstd::arithmetic::power2::lemma2_to64_rest();
    vstd::arithmetic::power2::lemma2_to64();
    assert(top_bit(1) == 0);
    lemma_written_and_read(1);
}

/// A whole number that is read off a bit pattern is smaller than 2^53 in size.
pub proof fn lemma_whole_small(bits: u64)
    requires
        whole_of(bits) is Some,
    ensures
        -(2 * FRACTION) < whole_of(bits).unwrap() < 2 * FRACTION,
{
    let e = exponent_of(bits);
    let f = fraction_of(bits);
    if e != 0 {
        lemma_pow2_bounds((BIAS + 52 - e) as nat);
        let cut = pow2((BIAS + 52 - e) as nat) as int;
        let digits = FRACTION + f;
        assert(0 <= digits / cut <= digits) by (nonlinear_arith)
            requires
                cut >= 1,
                digits >= 0,
        ;
    }
}

/// The three fields of a bit pattern can be read off from their sum.
proof fn lemma_fields(s: int, e: int, f: int)
    requires
        0 <= s <= 1,
        0 <= e < 2048,
        0 <= f < FRACTION,
    ensures
        ({
            let bits = (s * SIGN + e * FRACTION + f) as u64;
            &&& bits as int == s * SIGN + e * FRACTION + f
            &&& sign_of(bits) == s
            &&& exponent_of(bits) == e
            &&& fraction_of(bits) == f
        }),
{
    let total = s * SIGN + e * FRACTION + f;
    assert(0 <= total <= u64::MAX) by (nonlinear_arith)
        requires
            0 <= s <= 1,
            0 <= e < 2048,
            0 <= f < 4503599627370496,
            total == s * 9223372036854775808 + e * 4503599627370496 + f,
    ;
    assert(total % 4503599627370496 == f && (total / 4503599627370496) % 2048 == e && total
        / 9223372036854775808 == s) by (nonlinear_arith)
        requires
            0 <= s <= 1,
            0 <= e < 2048,
            0 <= f < 4503599627370496,
            total == s * 9223372036854775808 + e * 4503599627370496 + f,
    ;
}

/// Two to the power of `e`.
fn power_of_two(e: u64) -> (r: u64)
    requires
        e <= 52,
    ensures
        r == pow2(e as nat),
        1 <= r <= FRACTION,
{
    let mut r: u64 = 1;
    let mut i: u64 = 0;
    proof {
        vstd::arithmetic::power2::lemma2_to64();
    }
    while i < e
        invariant
            i <= e <= 52,
            r == pow2(i as nat),
        decreases e - i,
    {
        proof {
            lemma_pow2_bounds(i as nat);
            lemma_pow2_bounds((i + 1) as nat);
            lemma_pow2_unfold((i + 1) as nat);
        }
        r = r * 2;
        i = i + 1;
    }
    proof {
        lemma_pow2_bounds(e as nat);
    }
    r
}

/// The whole number that the bit pattern `bits` is, where it is one and
/// smaller than 2^53 in size.
pub fn whole(bits: u64) -> (r: Option<i64>)
    ensures
        match r {
            Some(n) => whole_of(bits) == Some(n as int),
            None => whole_of(bits) is None,
        },
{
    let e = (bits / FRACTION) % 2048;
    let f = bits % FRACTION;
    if e == 0 {
        return if f == 0 {
            Some(0)
        } else {
            None
        };
    }
    if e < BIAS || e > BIAS + 52 {
        return None;
    }
    let digits = FRACTION + f;
    let cut = power_of_two(BIAS + 52 - e);
    if digits % cut != 0 {
        return None;
    }
    let size = (digits / cut) as i64;
    if bits / SIGN == 1 {
        Some(-size)
    } else {
        Some(size)
    }
}

/// The bit pattern of the whole number `n`, where `n` is smaller than 2^53
/// in size.
pub fn whole_bits(n: i64) -> (r: Option<u64>)
    ensures
        match r {
            Some(bits) => -(pow2(53) as int) < n < pow2(53) && bits == bits_of(n as int),
            None => !(-(pow2(53) as int) < n < pow2(53)),
        },
{
    proof {
        vstd::arithmetic::power2::lemma2_to64_rest();
        assert(pow2(53) == 2 * FRACTION);
    }
    if n <= -9007199254740992 || n >= 9007199254740992 {
        return None;
    }
    if n == 0 {
        return Some(0);
    }
    let size: u64 = if n < 0 {
        (-n) as u64
    } else {
        n as u64
    };
    proof {
        lemma_top_small(size as nat);
    }
    let mut top: u64 = 0;
    let mut rest: u64 = size;
    while rest >= 2
        invariant
            rest >= 1,
            top + top_bit(rest as nat) == top_bit(size as nat),
            top <= 64,
            top_bit(size as nat) <= 52,
        decreases rest,
    {
        rest = rest / 2;
        top = top + 1;
    }
    proof {
        lemma_top_bit(size as nat);
        lemma_pow2_bounds(top as nat);
    }
    let up = power_of_two(52 - top);
    assert(FRACTION <= size * up < 2 * FRACTION) by (nonlinear_arith)
        requires
            pow2(top as nat) <= size < 2 * pow2(top as nat),
            pow2(top as nat) * up == FRACTION,
            up >= 1,
    ;
    let sign: u64 = if n < 0 {
        SIGN
    } else {
        0
    };
    let f = size * up - FRACTION;
    proof {
        lemma_fields(sign as int / SIGN as int, (BIAS + top) as int, f as int);
    }
    Some(sign + (BIAS + top) * FRACTION + f)
}

} // verus!
