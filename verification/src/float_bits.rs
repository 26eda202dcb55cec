//! Comparison of single-precision numbers by their bit patterns.
//!
//! The library carries world coordinates as the bit patterns of IEEE 754
//! single-precision numbers. It never computes with them, but it compares them,
//! and that needs no arithmetic: up to the sign, the patterns are ordered as the
//! numbers are.
use vstd::arithmetic::power2::{
    lemma_pow2_pos, lemma_pow2_strictly_increases, lemma_pow2_unfold, pow2,
};
use vstd::prelude::*;

verus! {

/// Bit pattern of positive zero.
pub const ZERO: u32 = 0;

/// Bit pattern of one.
pub const ONE: u32 = 0x3f80_0000;

/// The pattern without its sign bit.
pub open spec fn magnitude(b: u32) -> int {
    if b < 0x8000_0000 {
        b as int
    } else {
        b - 0x8000_0000
    }
}

/// Not a number: all exponent bits set and a fraction that is not zero.
pub open spec fn is_nan_spec(b: u32) -> bool {
    magnitude(b) > 0x7f80_0000
}

/// An integer that is ordered as the numbers are. Both zeros map to zero.
pub open spec fn order_key(b: u32) -> int {
    if b < 0x8000_0000 {
        b as int
    } else {
        -(b - 0x8000_0000)
    }
}

pub open spec fn lt_spec(a: u32, b: u32) -> bool {
    !is_nan_spec(a) && !is_nan_spec(b) && order_key(a) < order_key(b)
}

pub open spec fn le_spec(a: u32, b: u32) -> bool {
    !is_nan_spec(a) && !is_nan_spec(b) && order_key(a) <= order_key(b)
}

pub open spec fn eq_spec(a: u32, b: u32) -> bool {
    !is_nan_spec(a) && !is_nan_spec(b) && order_key(a) == order_key(b)
}

/// Is the number not a number?
pub fn is_nan(b: u32) -> (r: bool)
    ensures
        r == is_nan_spec(b),
{
    if b < 0x8000_0000 {
        b > 0x7f80_0000
    } else {
        b - 0x8000_0000 > 0x7f80_0000
    }
}

fn key(b: u32) -> (r: i64)
    ensures
        r == order_key(b),
        -0x8000_0000 < r < 0x8000_0000,
{
    if b < 0x8000_0000 {
        b as i64
    } else {
        -((b - 0x8000_0000) as i64)
    }
}

/// `a < b` as numbers.
pub fn lt(a: u32, b: u32) -> (r: bool)
    ensures
        r == lt_spec(a, b),
{
    !is_nan(a) && !is_nan(b) && key(a) < key(b)
}

/// `a <= b` as numbers.
pub fn le(a: u32, b: u32) -> (r: bool)
    ensures
        r == le_spec(a, b),
{
    !is_nan(a) && !is_nan(b) && key(a) <= key(b)
}

/// `a == b` as numbers.
pub fn eq(a: u32, b: u32) -> (r: bool)
    ensures
        r == eq_spec(a, b),
{
    !is_nan(a) && !is_nan(b) && key(a) == key(b)
}

/// The lesser of two numbers; a number rather than none.
pub open spec fn min_spec(a: u32, b: u32) -> u32 {
    if is_nan_spec(a) || lt_spec(b, a) {
        b
    } else {
        a
    }
}

pub fn min(a: u32, b: u32) -> (r: u32)
    ensures
        r == min_spec(a, b),
{
    if is_nan(a) || lt(b, a) {
        b
    } else {
        a
    }
}

/// The greater of two numbers; a number rather than none.
pub open spec fn max_spec(a: u32, b: u32) -> u32 {
    if is_nan_spec(a) || lt_spec(a, b) {
        b
    } else {
        a
    }
}

pub fn max(a: u32, b: u32) -> (r: u32)
    ensures
        r == max_spec(a, b),
{
    if is_nan(a) || lt(a, b) {
        b
    } else {
        a
    }
}

/// Of two numbers exactly one of less, equal and greater holds; a comparison
/// with not-a-number never holds.
pub proof fn law_trichotomy(a: u32, b: u32)
    ensures
        !is_nan_spec(a) && !is_nan_spec(b) ==> lt_spec(a, b) || eq_spec(a, b) || lt_spec(b, a),
        !(lt_spec(a, b) && lt_spec(b, a)),
        !(lt_spec(a, b) && eq_spec(a, b)),
        is_nan_spec(a) ==> !lt_spec(a, b) && !lt_spec(b, a) && !eq_spec(a, b) && !le_spec(a, b),
        le_spec(a, b) == (lt_spec(a, b) || eq_spec(a, b)),
{
}

/// The order is transitive.
pub proof fn law_lt_transitive(a: u32, b: u32, c: u32)
    requires
        lt_spec(a, b),
        lt_spec(b, c),
    ensures
        lt_spec(a, c),
{
}

/// The size of a finite number as a whole number of the smallest steps that a
/// single-precision number can take.
pub open spec fn steps_of(m: int) -> int {
    let e = m / 0x80_0000;
    let f = m % 0x80_0000;
    if e == 0 {
        f
    } else {
        (0x80_0000 + f) * pow2((e - 1) as nat)
    }
}

/// The value of a finite number, in the smallest steps: the top bit is the sign,
/// eight bits of exponent follow, then the fraction.
pub open spec fn value(b: u32) -> int {
    if b < 0x8000_0000 {
        steps_of(b as int)
    } else {
        -steps_of(b - 0x8000_0000)
    }
}

proof fn lemma_steps_grow(a: int, b: int)
    requires
        0 <= a < b < 0x7f80_0000,
    ensures
        0 <= steps_of(a) < steps_of(b),
{
    let (ea, fa) = (a / 0x80_0000, a % 0x80_0000);
    let (eb, fb) = (b / 0x80_0000, b % 0x80_0000);
    assert(a == ea * 0x80_0000 + fa && b == eb * 0x80_0000 + fb);
    if ea > 0 {
        lemma_pow2_pos((ea - 1) as nat);
        let p = pow2((ea - 1) as nat) as int;
        assert((0x80_0000 + fa) * p >= 0) by (nonlinear_arith)
            requires
                p > 0,
                fa >= 0,
        ;
    }
    if eb > 0 {
        lemma_pow2_pos((eb - 1) as nat);
        let q = pow2((eb - 1) as nat) as int;
        assert((0x80_0000 + fb) * q >= 0x80_0000 * q && 0x80_0000 * q >= 0x80_0000)
            by (nonlinear_arith)
            requires
                q >= 1,
                fb >= 0,
        ;
        if ea == eb {
            assert((0x80_0000 + fa) * q < (0x80_0000 + fb) * q) by (nonlinear_arith)
                requires
                    q >= 1,
                    fa < fb,
            ;
        } else if ea > 0 {
            let p = pow2((ea - 1) as nat) as int;
            lemma_pow2_pos((ea - 1) as nat);
            lemma_pow2_unfold(ea as nat);
            assert(pow2(ea as nat) == 2 * p);
            if ea < eb - 1 {
                lemma_pow2_strictly_increases(ea as nat, (eb - 1) as nat);
            }
            assert(2 * p <= q);
            assert((0x80_0000 + fa) * p < 0x80_0000 * q) by (nonlinear_arith)
                requires
                    0 <= fa < 0x80_0000,
                    p >= 1,
                    2 * p <= q,
            ;
        }
    }
}

/// Comparing bit patterns compares the numbers that they stand for: finite ones
/// by their values, and infinity lies above all of them, minus infinity below.
pub proof fn law_compares_numbers(a: u32, b: u32)
    ensures
        magnitude(a) < 0x7f80_0000 && magnitude(b) < 0x7f80_0000 ==> {
            &&& lt_spec(a, b) == (value(a) < value(b))
            &&& le_spec(a, b) == (value(a) <= value(b))
            &&& eq_spec(a, b) == (value(a) == value(b))
        },
        magnitude(a) < 0x7f80_0000 ==> lt_spec(a, 0x7f80_0000) && lt_spec(0xff80_0000, a),
        magnitude(a) > 0x7f80_0000 ==> !lt_spec(a, b) && !lt_spec(b, a) && !le_spec(a, b)
            && !le_spec(b, a) && !eq_spec(a, b) && !eq_spec(b, a),
{
    if magnitude(a) < 0x7f80_0000 && magnitude(b) < 0x7f80_0000 {
        let (x, y) = (magnitude(a), magnitude(b));
        assert(steps_of(0) == 0);
        if x > 0 {
            lemma_steps_grow(0, x);
        }
        if y > 0 {
            lemma_steps_grow(0, y);
        }
        if x < y {
            lemma_steps_grow(x, y);
        }
        if y < x {
            lemma_steps_grow(y, x);
        }
    }
}

/// Zero, one, and twice a number: the value of a number whose exponent is one
/// greater is twice as large, and one is that many of the smallest steps.
pub proof fn law_values(b: u32)
    requires
        0x80_0000 <= b < 0x7f00_0000,
    ensures
        value(ZERO) == 0,
        value(ONE) == 0x80_0000 * pow2(126),
        value((b + 0x80_0000) as u32) == 2 * value(b),
        value((b + 0x8000_0000) as u32) == -value(b),
{
    assert(ONE as int / 0x80_0000 == 127 && ONE as int % 0x80_0000 == 0);
    let (e, f) = (b as int / 0x80_0000, b as int % 0x80_0000);
    assert((b + 0x80_0000) / 0x80_0000 == e + 1 && (b + 0x80_0000) % 0x80_0000 == f);
    lemma_pow2_unfold(e as nat);
    let p = pow2((e - 1) as nat) as int;
    assert((0x80_0000 + f) * (2 * p) == 2 * ((0x80_0000 + f) * p)) by (nonlinear_arith);
}

/// The lesser and the greater of two numbers are one of them, and on the right
/// side of both; where one is not a number, it is the other.
pub proof fn law_lesser_and_greater(a: u32, b: u32)
    ensures
        min_spec(a, b) == a || min_spec(a, b) == b,
        max_spec(a, b) == a || max_spec(a, b) == b,
        !is_nan_spec(a) && !is_nan_spec(b) ==> {
            &&& le_spec(min_spec(a, b), a) && le_spec(min_spec(a, b), b)
            &&& le_spec(a, max_spec(a, b)) && le_spec(b, max_spec(a, b))
        },
        is_nan_spec(a) ==> min_spec(a, b) == b && max_spec(a, b) == b,
        !is_nan_spec(a) && is_nan_spec(b) ==> min_spec(a, b) == a && max_spec(a, b) == a,
{
}

} // verus!
