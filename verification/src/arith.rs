//! Exact floored products of bounded factors.
//!
//! The reward engine divides products like `pool * stake` by totals the
//! factors themselves can reach, so the product may exceed the amount type
//! even though the floored quotient never does. This module computes such
//! quotients exactly, without a wider amount type: the large factor is
//! split by the divisor, and the remainder's product is accumulated bit by
//! bit, reducing modulo the divisor at every step.

use vstd::prelude::*;
use vstd::arithmetic::div_mod::{
    lemma_div_is_ordered, lemma_div_multiples_vanish, lemma_div_pos_is_pos,
    lemma_fundamental_div_mod, lemma_fundamental_div_mod_converse,
};
use vstd::arithmetic::mul::{
    lemma_mul_inequality, lemma_mul_is_distributive_add, lemma_mul_nonnegative,
};
use vstd::arithmetic::power2::{lemma2_to64, lemma_pow2_unfold, pow2};

verus! {

/// Floor of `a * b / d`; zero when the divisor is zero.
pub open spec fn mul_div(a: int, b: int, d: int) -> int {
    if d == 0 {
        0
    } else {
        (a * b) / d
    }
}

/// A pro-rata share of `a` stays at most `a` when `b <= d`.
pub proof fn lemma_mul_div_le(a: int, b: int, d: int)
    requires
        0 <= a,
        0 <= b,
        b <= d,
    ensures
        0 <= mul_div(a, b, d),
        mul_div(a, b, d) <= a,
{
    if d == 0 {
    } else {
        lemma_mul_nonnegative(a, b);
        lemma_div_pos_is_pos(a * b, d);
        lemma_mul_inequality(b, d, a);
        assert(b * a <= d * a);
        assert(a * b <= a * d) by (nonlinear_arith)
            requires
                b * a <= d * a,
        ;
        lemma_div_is_ordered(a * b, a * d, d);
        lemma_div_multiples_vanish(a, d);
        assert(d * a == a * d) by (nonlinear_arith);
    }
}

/// Floor division is superadditive: dividing two parts loses at least as
/// much as dividing their sum.
pub proof fn lemma_div_sum_le(x: int, y: int, d: int)
    requires
        0 <= x,
        0 <= y,
        0 < d,
    ensures
        x / d + y / d <= (x + y) / d,
{
    lemma_fundamental_div_mod(x, d);
    lemma_fundamental_div_mod(y, d);
    assert(x % d >= 0 && y % d >= 0) by (nonlinear_arith)
        requires
            0 <= x,
            0 <= y,
            0 < d,
    ;
    lemma_mul_is_distributive_add(d, x / d, y / d);
    assert(d * (x / d + y / d) <= x + y);
    lemma_div_is_ordered(d * (x / d + y / d), x + y, d);
    lemma_div_multiples_vanish(x / d + y / d, d);
}

/// Exact `floor(a * b / d)` for `b <= d`, however large the product; zero
/// when the divisor is zero.
pub fn mul_div_floor(a: u128, b: u128, d: u128) -> (r: u128)
    requires
        b <= d,
    ensures
        r as int == mul_div(a as int, b as int, d as int),
{
    if d == 0 {
        return 0;
    }
    let q0 = a / d;
    let r0 = a % d;
    // quotient and remainder of r0 * (processed bits of b) by d
    let mut quot: u128 = 0;
    let mut acc: u128 = 0;
    // quotient and remainder of r0 * 2^k by d
    let mut q: u128 = 0;
    let mut v: u128 = r0;
    let mut b2 = b;
    let ghost mut k: nat = 0;
    let ghost mut low: int = 0;
    proof {
        lemma2_to64();
        lemma_fundamental_div_mod(a as int, d as int);
    }
    while b2 > 0
        invariant
            0 < d,
            (r0 as int) < (d as int),
            b <= d,
            0 <= low,
            low + (pow2(k) as int) * (b2 as int) == b as int,
            (acc as int) < (d as int),
            (r0 as int) * low == (d as int) * (quot as int) + (acc as int),
            (quot as int) <= (r0 as int),
            b2 > 0 ==> (v as int) < (d as int),
            b2 > 0 ==> (r0 as int) * (pow2(k) as int) == (d as int) * (q as int) + (v as int),
            b2 > 0 ==> (pow2(k) as int) <= (b as int),
            b2 > 0 ==> (q as int) <= (r0 as int),
        decreases b2,
    {
        let ghost bit: int = (b2 % 2) as int;
        if b2 % 2 == 1 {
            let ghost quot0: int = quot as int;
            let ghost acc0: int = acc as int;
            let ghost low1: int = low + pow2(k) as int;
            proof {
                // the freshly processed bit keeps the processed part below b
                lemma_mul_inequality(1, b2 as int, pow2(k) as int);
                assert((pow2(k) as int) * 1 == pow2(k) as int) by (nonlinear_arith);
                assert(1 * (pow2(k) as int) == (pow2(k) as int) * 1) by (nonlinear_arith);
                assert((pow2(k) as int) * (b2 as int) == (b2 as int) * (pow2(k) as int))
                    by (nonlinear_arith);
                assert(low1 <= b as int);
                // the product grows by one power's worth
                lemma_mul_is_distributive_add(r0 as int, low, pow2(k) as int);
                lemma_mul_is_distributive_add(d as int, quot0, q as int);
                assert((r0 as int) * low1 == (d as int) * (quot0 + (q as int)) + (acc0 + (
                v as int)));
                // and stays below r0 * d
                lemma_mul_inequality(low1, b as int, r0 as int);
                lemma_mul_inequality(b as int, d as int, r0 as int);
                assert((r0 as int) * low1 <= (r0 as int) * (d as int)) by (nonlinear_arith)
                    requires
                        low1 * (r0 as int) <= (b as int) * (r0 as int),
                        (b as int) * (r0 as int) <= (d as int) * (r0 as int),
                ;
                lemma_mul_is_distributive_add(d as int, quot0 + (q as int), 1);
                assert((d as int) * 1 == d as int) by (nonlinear_arith);
            }
            if acc >= d - v {
                proof {
                    assert(quot0 + (q as int) + 1 <= r0 as int) by (nonlinear_arith)
                        requires
                            (r0 as int) * low1 == (d as int) * (quot0 + (q as int)) + (acc0 + (
                            v as int)),
                            (r0 as int) * low1 <= (r0 as int) * (d as int),
                            acc0 + (v as int) >= d as int,
                            (d as int) > 0,
                    ;
                }
                acc = acc - (d - v);
                quot = quot + q + 1;
                proof {
                    assert((d as int) * (quot as int) == (d as int) * (quot0 + (q as int)) + (
                    d as int));
                    assert((r0 as int) * low1 == (d as int) * (quot as int) + (acc as int));
                }
            } else {
                proof {
                    assert(quot0 + (q as int) <= r0 as int) by (nonlinear_arith)
                        requires
                            (r0 as int) * low1 == (d as int) * (quot0 + (q as int)) + (acc0 + (
                            v as int)),
                            (r0 as int) * low1 <= (r0 as int) * (d as int),
                            acc0 >= 0,
                            (v as int) >= 0,
                            (d as int) > 0,
                    ;
                }
                acc = acc + v;
                quot = quot + q;
                proof {
                    assert((r0 as int) * low1 == (d as int) * (quot as int) + (acc as int));
                }
            }
            proof {
                low = low1;
            }
        }
        let ghost b2old: int = b2 as int;
        b2 = b2 / 2;
        proof {
            k = k + 1;
            lemma_pow2_unfold(k);
            assert(b2old - bit == 2 * (b2 as int));
            assert((pow2(k) as int) * (b2 as int) == (pow2((k - 1) as nat) as int) * (b2old - bit))
                by (nonlinear_arith)
                requires
                    (pow2(k) as int) == 2 * (pow2((k - 1) as nat) as int),
                    b2old - bit == 2 * (b2 as int),
            ;
            assert((pow2((k - 1) as nat) as int) * (b2old - bit) == (pow2((k - 1) as nat) as int)
                * b2old - bit * (pow2((k - 1) as nat) as int)) by (nonlinear_arith);
            assert(low + (pow2(k) as int) * (b2 as int) == b as int);
        }
        if b2 > 0 {
            let ghost q0g: int = q as int;
            let ghost v0g: int = v as int;
            proof {
                // one more power still fits below b
                lemma_mul_inequality(1, b2 as int, pow2(k) as int);
                assert((pow2(k) as int) * 1 == pow2(k) as int) by (nonlinear_arith);
                assert(1 * (pow2(k) as int) == (pow2(k) as int) * 1) by (nonlinear_arith);
                assert((pow2(k) as int) * (b2 as int) == (b2 as int) * (pow2(k) as int))
                    by (nonlinear_arith);
                assert((pow2(k) as int) <= b as int);
                // the doubled power's product
                assert((r0 as int) * (pow2(k) as int) == (d as int) * (2 * q0g) + 2 * v0g)
                    by (nonlinear_arith)
                    requires
                        (pow2(k) as int) == 2 * (pow2((k - 1) as nat) as int),
                        (r0 as int) * (pow2((k - 1) as nat) as int) == (d as int) * q0g + v0g,
                ;
                // and its bound below r0 * d
                lemma_mul_inequality(pow2(k) as int, b as int, r0 as int);
                lemma_mul_inequality(b as int, d as int, r0 as int);
                assert((r0 as int) * (pow2(k) as int) <= (r0 as int) * (d as int))
                    by (nonlinear_arith)
                    requires
                        (pow2(k) as int) * (r0 as int) <= (b as int) * (r0 as int),
                        (b as int) * (r0 as int) <= (d as int) * (r0 as int),
                ;
                lemma_mul_is_distributive_add(d as int, 2 * q0g, 1);
                assert((d as int) * 1 == d as int) by (nonlinear_arith);
            }
            if v >= d - v {
                proof {
                    assert(2 * q0g + 1 <= r0 as int) by (nonlinear_arith)
                        requires
                            (r0 as int) * (pow2(k) as int) == (d as int) * (2 * q0g) + 2 * v0g,
                            (r0 as int) * (pow2(k) as int) <= (r0 as int) * (d as int),
                            2 * v0g >= d as int,
                            (d as int) > 0,
                    ;
                }
                v = v - (d - v);
                q = 2 * q + 1;
                proof {
                    assert((d as int) * (q as int) == (d as int) * (2 * q0g) + (d as int));
                    assert((r0 as int) * (pow2(k) as int) == (d as int) * (q as int) + (v as int));
                }
            } else {
                proof {
                    assert(2 * q0g <= r0 as int) by (nonlinear_arith)
                        requires
                            (r0 as int) * (pow2(k) as int) == (d as int) * (2 * q0g) + 2 * v0g,
                            (r0 as int) * (pow2(k) as int) <= (r0 as int) * (d as int),
                            v0g >= 0,
                            (d as int) > 0,
                    ;
                }
                v = 2 * v;
                q = 2 * q;
                proof {
                    assert((r0 as int) * (pow2(k) as int) == (d as int) * (q as int) + (v as int));
                }
            }
        }
    }
    proof {
        assert(low == b as int);
        lemma_fundamental_div_mod(a as int, d as int);
        assert((a as int) * (b as int) == (d as int) * ((q0 as int) * (b as int) + (quot as int))
            + (acc as int)) by (nonlinear_arith)
            requires
                (a as int) == (d as int) * (q0 as int) + (r0 as int),
                (r0 as int) * (b as int) == (d as int) * (quot as int) + (acc as int),
        ;
        assert((a as int) * (b as int) == ((q0 as int) * (b as int) + (quot as int)) * (d as int)
            + (acc as int)) by (nonlinear_arith)
            requires
                (a as int) * (b as int) == (d as int) * ((q0 as int) * (b as int) + (quot as int))
                    + (acc as int),
        ;
        lemma_fundamental_div_mod_converse(
            (a as int) * (b as int),
            d as int,
            (q0 as int) * (b as int) + (quot as int),
            acc as int,
        );
        // the result fits the amount type: it is at most a
        lemma_mul_div_le(a as int, b as int, d as int);
        lemma_mul_inequality(b as int, d as int, q0 as int);
        assert((q0 as int) * (b as int) <= (q0 as int) * (d as int)) by (nonlinear_arith)
            requires
                (b as int) * (q0 as int) <= (d as int) * (q0 as int),
        ;
        assert((q0 as int) * (d as int) <= a as int) by (nonlinear_arith)
            requires
                (a as int) == (d as int) * (q0 as int) + (r0 as int),
                (r0 as int) >= 0,
        ;
    }
    q0 * b + quot
}

} // verus!
