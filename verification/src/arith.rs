//! Integer groundwork for the rational type: absolute value, the greatest
//! common divisor by the Euclidean algorithm, and the divisibility lemmas
//! that justify reducing a fraction by it.
use vstd::prelude::*;
use vstd::arithmetic::div_mod::lemma_add_mod_noop;
use vstd::arithmetic::div_mod::lemma_fundamental_div_mod;
use vstd::arithmetic::div_mod::lemma_fundamental_div_mod_converse;
use vstd::arithmetic::div_mod::lemma_mod_self_0;
use vstd::arithmetic::div_mod::lemma_mul_mod_noop_right;
use vstd::arithmetic::div_mod::lemma_small_mod;
use vstd::arithmetic::power::lemma_pow_increases;
use vstd::arithmetic::power::lemma_pow_positive;
use vstd::arithmetic::power::pow;

verus! {

/// Absolute value of a mathematical integer.
pub open spec fn iabs(a: int) -> int {
    if a >= 0 {
        a
    } else {
        -a
    }
}

/// Greatest common divisor of two nonnegative integers, by the Euclidean
/// algorithm. `spec_gcd(a, 0) == a`, so `spec_gcd(0, 0) == 0`.
pub open spec fn spec_gcd(a: int, b: int) -> int
    recommends
        a >= 0,
        b >= 0,
    decreases b,
{
    if b <= 0 {
        a
    } else {
        spec_gcd(b, a % b)
    }
}

/// The gcd of two nonnegative integers, not both zero, is positive and
/// divides both.
pub proof fn lemma_gcd_divides(a: int, b: int)
    requires
        a >= 0,
        b >= 0,
        a > 0 || b > 0,
    ensures
        spec_gcd(a, b) >= 1,
        a % spec_gcd(a, b) == 0,
        b % spec_gcd(a, b) == 0,
    decreases b,
{
    let g = spec_gcd(a, b);
    if b == 0 {
        lemma_mod_self_0(a);
        lemma_small_mod(0nat, a as nat);
    } else {
        let q = a / b;
        let r = a % b;
        lemma_fundamental_div_mod(a, b);
        lemma_gcd_divides(b, r);
        assert(g == spec_gcd(b, r));
        lemma_mul_mod_noop_right(q, b, g);
        assert((q * b) % g == q * (b % g) % g);
        assert(q * (b % g) == 0) by (nonlinear_arith)
            requires
                b % g == 0,
        ;
        lemma_small_mod(0nat, g as nat);
        lemma_add_mod_noop(q * b, r, g);
        assert(a == b * q + r);
        assert(b * q == q * b) by (nonlinear_arith);
        assert(a % g == ((q * b) % g + r % g) % g);
    }
}

/// Scaling both arguments of the gcd by a positive factor scales the gcd.
pub proof fn lemma_gcd_scale(a: int, b: int, k: int)
    requires
        a >= 0,
        b >= 0,
        k >= 1,
    ensures
        spec_gcd(k * a, k * b) == k * spec_gcd(a, b),
    decreases b,
{
    if b == 0 {
        assert(k * b == 0) by (nonlinear_arith)
            requires
                b == 0,
        ;
    } else {
        let q = a / b;
        let r = a % b;
        lemma_fundamental_div_mod(a, b);
        assert(k * b >= 1) by (nonlinear_arith)
            requires
                k >= 1,
                b >= 1,
        ;
        assert(k * a == q * (k * b) + k * r) by (nonlinear_arith)
            requires
                a == b * q + r,
        ;
        assert(0 <= k * r < k * b) by (nonlinear_arith)
            requires
                k >= 1,
                0 <= r < b,
        ;
        lemma_fundamental_div_mod_converse(k * a, k * b, q, k * r);
        assert((k * a) % (k * b) == k * r);
        lemma_gcd_scale(b, r, k);
        assert(spec_gcd(k * a, k * b) == spec_gcd(k * b, k * r));
    }
}

/// Dividing two nonnegative integers, not both zero, by their gcd leaves a
/// coprime pair.
pub proof fn lemma_reduced_coprime(a: int, b: int)
    requires
        a >= 0,
        b >= 0,
        a > 0 || b > 0,
    ensures
        spec_gcd(a / spec_gcd(a, b), b / spec_gcd(a, b)) == 1,
{
    let g = spec_gcd(a, b);
    lemma_gcd_divides(a, b);
    lemma_fundamental_div_mod(a, g);
    lemma_fundamental_div_mod(b, g);
    let a1 = a / g;
    let b1 = b / g;
    assert(a == g * a1);
    assert(b == g * b1);
    assert(a1 >= 0 && b1 >= 0 && (a1 > 0 || b1 > 0)) by (nonlinear_arith)
        requires
            a == g * a1,
            b == g * b1,
            g >= 1,
            a >= 0,
            b >= 0,
            a > 0 || b > 0,
    ;
    lemma_gcd_scale(a1, b1, g);
    assert(spec_gcd(g * a1, g * b1) == g * spec_gcd(a1, b1));
    lemma_gcd_divides(a1, b1);
    assert(g * spec_gcd(a1, b1) == g * 1 ==> spec_gcd(a1, b1) == 1) by (nonlinear_arith)
        requires
            g >= 1,
    ;
}

/// The Euclidean remainder of a negated value: reflection inside `[0, m)`.
pub proof fn lemma_mod_neg(x: int, m: int)
    requires
        m > 0,
    ensures
        x % m == 0 ==> (-x) % m == 0,
        x % m != 0 ==> (-x) % m == m - x % m,
{
    let q = x / m;
    let r = x % m;
    lemma_fundamental_div_mod(x, m);
    assert(x == m * q + r);
    if r == 0 {
        assert(-x == (-q) * m + 0) by (nonlinear_arith)
            requires
                x == m * q,
        ;
        lemma_fundamental_div_mod_converse(-x, m, -q, 0);
    } else {
        assert(-x == (-q - 1) * m + (m - r)) by (nonlinear_arith)
            requires
                x == m * q + r,
        ;
        lemma_fundamental_div_mod_converse(-x, m, -q - 1, m - r);
    }
}

/// The magnitude of a power is the power of the magnitude.
pub proof fn lemma_pow_iabs(b: int, e: nat)
    ensures
        iabs(pow(b, e)) == pow(iabs(b), e),
    decreases e,
{
    reveal(pow);
    if e > 0 {
        lemma_pow_iabs(b, (e - 1) as nat);
        assert(iabs(b * pow(b, (e - 1) as nat)) == iabs(b) * iabs(pow(b, (e - 1) as nat)))
            by (nonlinear_arith);
    }
}

/// A power of a nonzero base is nonzero.
pub proof fn lemma_pow_nonzero(b: int, e: nat)
    requires
        b != 0,
    ensures
        pow(b, e) != 0,
{
    lemma_pow_iabs(b, e);
    lemma_pow_positive(iabs(b), e);
}

/// Magnitudes of powers of a fixed base grow with the exponent, as long as
/// the base is not between -1 and 1.
pub proof fn lemma_pow_iabs_increases(b: int, e1: nat, e2: nat)
    requires
        iabs(b) >= 1,
        e1 <= e2,
    ensures
        iabs(pow(b, e1)) <= iabs(pow(b, e2)),
{
    lemma_pow_iabs(b, e1);
    lemma_pow_iabs(b, e2);
    lemma_pow_increases(iabs(b) as nat, e1, e2);
}

/// Greatest common divisor of two nonnegative machine integers, not both
/// zero.
pub(crate) fn gcd(a: i32, b: i32) -> (g: i32)
    requires
        a >= 0,
        b >= 0,
        a > 0 || b > 0,
    ensures
        g == spec_gcd(a as int, b as int),
        g >= 1,
{
    let mut x: i32 = a;
    let mut y: i32 = b;
    while y > 0
        invariant
            x >= 0,
            y >= 0,
            x > 0 || y > 0,
            spec_gcd(x as int, y as int) == spec_gcd(a as int, b as int),
        decreases y,
    {
        let r: i32 = x % y;
        x = y;
        y = r;
    }
    proof {
        lemma_gcd_divides(a as int, b as int);
    }
    x
}

} // verus!
