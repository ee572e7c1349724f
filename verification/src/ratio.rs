//! An exact fraction over machine integers. Construction always reduces the
//! pair by the greatest common divisor of the two magnitudes, so each stored
//! component keeps the sign it was given. Normalization folds a positive
//! value into the octave window `[1, 2)` by repeated doubling, and negative
//! exponents are defined through the octave complement, not the reciprocal.
use vstd::prelude::*;
use vstd::arithmetic::power::pow;
use vstd::arithmetic::power::lemma0_pow;
use vstd::arithmetic::div_mod::lemma_fundamental_div_mod;
use vstd::arithmetic::div_mod::lemma_fundamental_div_mod_converse;
use crate::arith::gcd;
use crate::arith::iabs;
use crate::arith::lemma_gcd_divides;
use crate::arith::lemma_pow_iabs_increases;
use crate::arith::lemma_pow_nonzero;
use crate::arith::lemma_reduced_coprime;
use crate::arith::spec_gcd;

verus! {

/// An exact fraction. The fields are public and carry no enforced
/// invariant: every operation states what it needs of them, and every value
/// built by `new` or returned by an operation is reduced.
#[derive(Clone, Copy, Debug, PartialEq, Eq, Structural)]
pub struct Ratio {
    pub numer: i32,
    pub denom: i32,
}

/// Both components of a fraction as mathematical integers.
pub open spec fn rat_pair(r: Ratio) -> (int, int) {
    (r.numer as int, r.denom as int)
}

/// A numerator and denominator divided by the gcd of their magnitudes.
/// Each component keeps its own sign; the sign is not moved onto the
/// numerator.
pub open spec fn spec_reduce(n: int, d: int) -> (int, int)
    recommends
        d != 0,
{
    let g = spec_gcd(iabs(n), iabs(d));
    (n / g, d / g)
}

/// Reduction of the componentwise product of two fractions.
pub open spec fn spec_mul(a: (int, int), b: (int, int)) -> (int, int) {
    spec_reduce(a.0 * b.0, a.1 * b.1)
}

/// Reduction of the cross product: `a` times the inverse of `b`.
pub open spec fn spec_div(a: (int, int), b: (int, int)) -> (int, int) {
    spec_reduce(a.0 * b.1, b.0 * a.1)
}

/// What reduction does: the gcd of the magnitudes is positive, divides
/// both components exactly, preserves each component's sign and the value
/// of the fraction, and leaves a coprime pair.
pub proof fn lemma_reduce_props(n: int, d: int)
    requires
        d != 0,
    ensures
        spec_gcd(iabs(n), iabs(d)) >= 1,
        spec_reduce(n, d).0 == if n >= 0 {
            iabs(n) / spec_gcd(iabs(n), iabs(d))
        } else {
            -(iabs(n) / spec_gcd(iabs(n), iabs(d)))
        },
        spec_reduce(n, d).1 == if d >= 0 {
            iabs(d) / spec_gcd(iabs(n), iabs(d))
        } else {
            -(iabs(d) / spec_gcd(iabs(n), iabs(d)))
        },
        n == spec_gcd(iabs(n), iabs(d)) * spec_reduce(n, d).0,
        d == spec_gcd(iabs(n), iabs(d)) * spec_reduce(n, d).1,
        iabs(spec_reduce(n, d).0) <= iabs(n),
        iabs(spec_reduce(n, d).1) <= iabs(d),
        n > 0 ==> spec_reduce(n, d).0 >= 1,
        n == 0 ==> spec_reduce(n, d).0 == 0,
        n < 0 ==> spec_reduce(n, d).0 <= -1,
        d > 0 ==> spec_reduce(n, d).1 >= 1,
        d < 0 ==> spec_reduce(n, d).1 <= -1,
        spec_reduce(n, d).1 != 0,
        spec_gcd(iabs(spec_reduce(n, d).0), iabs(spec_reduce(n, d).1)) == 1,
        spec_reduce(n, d).0 * d == n * spec_reduce(n, d).1,
{
    let na = iabs(n);
    let da = iabs(d);
    let g = spec_gcd(na, da);
    lemma_gcd_divides(na, da);
    lemma_fundamental_div_mod(na, g);
    lemma_fundamental_div_mod(da, g);
    let qn = na / g;
    let qd = da / g;
    assert(na == g * qn);
    assert(da == g * qd);
    assert(qn >= 0 && qn <= na && (na > 0 ==> qn >= 1)) by (nonlinear_arith)
        requires
            na == g * qn,
            g >= 1,
            na >= 0,
    ;
    assert(qd >= 0 && qd <= da && qd >= 1) by (nonlinear_arith)
        requires
            da == g * qd,
            g >= 1,
            da >= 1,
    ;
    if n < 0 {
        assert(n == g * (-qn) + 0) by (nonlinear_arith)
            requires
                -n == g * qn,
        ;
        lemma_fundamental_div_mod_converse(n, g, -qn, 0);
        assert(n / g == -qn);
    }
    if d < 0 {
        assert(d == g * (-qd) + 0) by (nonlinear_arith)
            requires
                -d == g * qd,
        ;
        lemma_fundamental_div_mod_converse(d, g, -qd, 0);
        assert(d / g == -qd);
    }
    lemma_reduced_coprime(na, da);
    let r0 = spec_reduce(n, d).0;
    let r1 = spec_reduce(n, d).1;
    assert(iabs(r0) == qn && iabs(r1) == qd);
    assert(n == g * r0 && d == g * r1);
    assert(r0 * d == n * r1) by (nonlinear_arith)
        requires
            n == g * r0,
            d == g * r1,
    ;
}

/// Octave reduction of a positive fraction: double the numerator while the
/// value is below 1, double the denominator while it is at least 2, then
/// reduce. The result is the canonical representative of the value within
/// one period of doubling.
pub open spec fn spec_normalize(n: int, d: int) -> (int, int)
    recommends
        n >= 1,
        d >= 1,
    decreases (if n < d { 1int } else { 0int }), (if n < d { d - n } else { n - d }),
{
    if n < 1 || d < 1 {
        (n, d)
    } else if n < d {
        spec_normalize(2 * n, d)
    } else if n - d >= d {
        spec_normalize(n, 2 * d)
    } else {
        spec_reduce(n, d)
    }
}

/// The octave complement: the normalized quotient of `(2, 1)` by the given
/// fraction. It gives negative exponents a positive-ratio meaning.
pub open spec fn spec_complement(n: int, d: int) -> (int, int)
    recommends
        n >= 1,
        d >= 1,
{
    let q = spec_reduce(2 * d, n);
    spec_normalize(q.0, q.1)
}

/// Integer exponentiation of a fraction. A zero exponent yields the unit
/// fraction; a negative exponent raises the octave complement to the
/// opposite power; a positive exponent reduces the componentwise power.
pub open spec fn spec_pow(n: int, d: int, e: int) -> (int, int)
    decreases (if e < 0 { 1int } else { 0int }),
{
    if e == 0 {
        (1, 1)
    } else if e < 0 {
        let c = spec_complement(n, d);
        spec_pow(c.0, c.1, -e)
    } else {
        spec_reduce(pow(n, e as nat), pow(d, e as nat))
    }
}

/// A normalized positive fraction is positive, coprime, and its value lies
/// in the octave window `[1, 2)`.
pub proof fn lemma_normalize_props(n: int, d: int)
    requires
        n >= 1,
        d >= 1,
    ensures
        spec_normalize(n, d).0 >= 1,
        spec_normalize(n, d).1 >= 1,
        spec_normalize(n, d).1 <= spec_normalize(n, d).0 < 2 * spec_normalize(n, d).1,
        spec_gcd(iabs(spec_normalize(n, d).0), iabs(spec_normalize(n, d).1)) == 1,
    decreases (if n < d { 1int } else { 0int }), (if n < d { d - n } else { n - d }),
{
    if n < d {
        lemma_normalize_props(2 * n, d);
    } else if n - d >= d {
        lemma_normalize_props(n, 2 * d);
    } else {
        lemma_reduce_props(n, d);
        let g = spec_gcd(iabs(n), iabs(d));
        let r0 = spec_reduce(n, d).0;
        let r1 = spec_reduce(n, d).1;
        assert(r1 <= r0 && r0 < 2 * r1) by (nonlinear_arith)
            requires
                n == g * r0,
                d == g * r1,
                g >= 1,
                d <= n < 2 * d,
                r0 >= 1,
                r1 >= 1,
        ;
    }
}

/// The complement of a positive fraction is positive, coprime, and lies in
/// the octave window.
pub proof fn lemma_complement_props(n: int, d: int)
    requires
        n >= 1,
        d >= 1,
    ensures
        spec_complement(n, d).0 >= 1,
        spec_complement(n, d).1 >= 1,
        spec_complement(n, d).1 <= spec_complement(n, d).0 < 2 * spec_complement(n, d).1,
        spec_gcd(iabs(spec_complement(n, d).0), iabs(spec_complement(n, d).1)) == 1,
{
    lemma_reduce_props(2 * d, n);
    let q = spec_reduce(2 * d, n);
    lemma_normalize_props(q.0, q.1);
}

/// The componentwise powers for a nonnegative exponent stay within the
/// machine range.
pub open spec fn pow_fits(n: int, d: int, e: int) -> bool
    recommends
        e >= 0,
{
    &&& iabs(pow(n, e as nat)) <= i32::MAX as int
    &&& iabs(pow(d, e as nat)) <= i32::MAX as int
}

/// What taking the octave complement asks of a fraction: a positive value
/// small enough that doubling the denominator and normalizing stay within
/// the machine range.
pub open spec fn complement_ok(n: int, d: int) -> bool {
    &&& 1 <= n <= 0x4000_0000
    &&& 1 <= d <= 0x2000_0000
}

/// What exponentiation asks of a fraction, by the sign of the exponent.
pub open spec fn pow_ok(n: int, d: int, e: int) -> bool {
    if e == 0 {
        true
    } else if e > 0 {
        d != 0 && pow_fits(n, d, e)
    } else {
        &&& e > i32::MIN as int
        &&& complement_ok(n, d)
        &&& pow_fits(spec_complement(n, d).0, spec_complement(n, d).1, -e)
    }
}

/// The unit fraction is already reduced.
pub proof fn lemma_unit_reduce()
    ensures
        spec_reduce(1, 1) == (1int, 1int),
{
    reveal_with_fuel(spec_gcd, 3);
    assert(spec_gcd(1, 1) == 1);
}

/// A power of a fraction with a nonzero denominator keeps a nonzero
/// denominator.
pub proof fn lemma_pow_denom_nonzero(n: int, d: int, e: int)
    requires
        pow_ok(n, d, e),
    ensures
        spec_pow(n, d, e).1 != 0,
{
    if e > 0 {
        lemma_pow_nonzero(d, e as nat);
        lemma_reduce_props(pow(n, e as nat), pow(d, e as nat));
    } else if e < 0 {
        lemma_complement_props(n, d);
        let c = spec_complement(n, d);
        assert(spec_pow(n, d, e) == spec_pow(c.0, c.1, -e));
        lemma_pow_nonzero(c.1, (-e) as nat);
        lemma_reduce_props(pow(c.0, (-e) as nat), pow(c.1, (-e) as nat));
    }
}

/// Law: for a positive exponent, raising to the negated exponent is
/// raising the octave complement to the exponent itself — not taking the
/// reciprocal of the positive power.
pub proof fn lemma_pow_negative_is_complement_pow(n: int, d: int, e: int)
    requires
        e >= 1,
    ensures
        spec_pow(n, d, -e) == spec_pow(spec_complement(n, d).0, spec_complement(n, d).1, e),
{
}

/// Law: normalization is idempotent on positive fractions.
pub proof fn lemma_normalize_idempotent(n: int, d: int)
    requires
        n >= 1,
        d >= 1,
    ensures
        spec_normalize(spec_normalize(n, d).0, spec_normalize(n, d).1) == spec_normalize(n, d),
{
    lemma_normalize_props(n, d);
    let r0 = spec_normalize(n, d).0;
    let r1 = spec_normalize(n, d).1;
    assert(spec_normalize(r0, r1) == spec_reduce(r0, r1));
    assert(r0 / 1 == r0) by {
        lemma_fundamental_div_mod_converse(r0, 1, r0, 0);
    }
    assert(r1 / 1 == r1) by {
        lemma_fundamental_div_mod_converse(r1, 1, r1, 0);
    }
}

/// Componentwise power of a machine integer, by repeated multiplication.
fn pow_i32(base: i32, e: u32) -> (p: i32)
    requires
        iabs(pow(base as int, e as nat)) <= i32::MAX as int,
    ensures
        p as int == pow(base as int, e as nat),
{
    proof {
        reveal(pow);
    }
    if e == 0 {
        return 1;
    }
    if base == 0 {
        proof {
            lemma0_pow(e as nat);
        }
        return 0;
    }
    let mut acc: i32 = 1;
    let mut i: u32 = 0;
    while i < e
        invariant
            i <= e,
            base != 0,
            acc as int == pow(base as int, i as nat),
            iabs(pow(base as int, e as nat)) <= i32::MAX as int,
        decreases e - i,
    {
        proof {
            reveal(pow);
            lemma_pow_iabs_increases(base as int, (i + 1) as nat, e as nat);
            assert(pow(base as int, (i + 1) as nat) == base as int * pow(base as int, i as nat));
        }
        acc = acc * base;
        i = i + 1;
    }
    acc
}

impl Ratio {
    /// A fraction from a raw pair, reduced by the gcd of the magnitudes.
    /// The denominator must not be zero; the extreme negative machine value
    /// is excluded so that magnitudes stay representable.
    pub fn new(numer: i32, denom: i32) -> (r: Self)
        requires
            denom != 0,
            numer > i32::MIN,
            denom > i32::MIN,
        ensures
            rat_pair(r) == spec_reduce(numer as int, denom as int),
            r.denom != 0,
            denom > 0 ==> r.denom > 0,
            denom < 0 ==> r.denom < 0,
            numer > 0 ==> r.numer > 0,
            numer == 0 ==> r.numer == 0,
            numer < 0 ==> r.numer < 0,
            spec_gcd(iabs(r.numer as int), iabs(r.denom as int)) == 1,
            r.numer as int * denom as int == numer as int * r.denom as int,
    {
        proof {
            lemma_reduce_props(numer as int, denom as int);
        }
        let na: i32 = if numer < 0 { -numer } else { numer };
        let da: i32 = if denom < 0 { -denom } else { denom };
        let g: i32 = gcd(na, da);
        let qn: i32 = na / g;
        let qd: i32 = da / g;
        let rn: i32 = if numer < 0 { -qn } else { qn };
        let rd: i32 = if denom < 0 { -qd } else { qd };
        Self { numer: rn, denom: rd }
    }

    /// The reduced componentwise product of the two fractions.
    pub fn multiply(self, rhs: Ratio) -> (r: Self)
        requires
            self.denom != 0,
            rhs.denom != 0,
            iabs(self.numer as int * rhs.numer as int) <= i32::MAX as int,
            iabs(self.denom as int * rhs.denom as int) <= i32::MAX as int,
        ensures
            rat_pair(r) == spec_mul(rat_pair(self), rat_pair(rhs)),
            r.denom != 0,
    {
        proof {
            assert(self.denom as int * rhs.denom as int != 0) by (nonlinear_arith)
                requires
                    self.denom as int != 0,
                    rhs.denom as int != 0,
            ;
        }
        Self::new(self.numer * rhs.numer, self.denom * rhs.denom)
    }

    /// The reduced quotient: this fraction times the inverse of `rhs`.
    pub fn divide(self, rhs: Ratio) -> (r: Self)
        requires
            self.denom != 0,
            rhs.numer != 0,
            iabs(self.numer as int * rhs.denom as int) <= i32::MAX as int,
            iabs(rhs.numer as int * self.denom as int) <= i32::MAX as int,
        ensures
            rat_pair(r) == spec_div(rat_pair(self), rat_pair(rhs)),
            r.denom != 0,
    {
        proof {
            assert(rhs.numer as int * self.denom as int != 0) by (nonlinear_arith)
                requires
                    rhs.numer as int != 0,
                    self.denom as int != 0,
            ;
        }
        Self::new(self.numer * rhs.denom, rhs.numer * self.denom)
    }

    /// Octave reduction into the window `[1, 2)`, by repeated doubling of
    /// one component, followed by reduction. Defined for positive fractions
    /// small enough that the doubling cannot leave the machine range.
    pub fn normalize(&self) -> (r: Self)
        requires
            1 <= self.numer <= 0x4000_0000,
            1 <= self.denom <= 0x4000_0000,
        ensures
            rat_pair(r) == spec_normalize(self.numer as int, self.denom as int),
            1 <= r.denom <= r.numer,
            (r.numer as int) < 2 * (r.denom as int),
            spec_gcd(iabs(r.numer as int), iabs(r.denom as int)) == 1,
    {
        proof {
            lemma_normalize_props(self.numer as int, self.denom as int);
        }
        let mut n: i32 = self.numer;
        let mut d: i32 = self.denom;
        while n < d || n - d >= d
            invariant
                1 <= n,
                1 <= d,
                d <= 0x4000_0000,
                n as int <= 0x4000_0000 || n < 2 * d as int,
                spec_normalize(n as int, d as int) == spec_normalize(
                    self.numer as int,
                    self.denom as int,
                ),
            decreases (if n < d { 1int } else { 0int }), (if n < d { d - n } else { n - d }),
        {
            if n < d {
                n = n * 2;
            } else {
                d = d * 2;
            }
        }
        Self::new(n, d)
    }

    /// The octave complement: the unit period `(2, 1)` divided by this
    /// fraction, normalized. It stands in for the reciprocal wherever a
    /// negative exponent needs a positive-ratio meaning.
    pub fn complement(&self) -> (r: Self)
        requires
            complement_ok(self.numer as int, self.denom as int),
        ensures
            rat_pair(r) == spec_complement(self.numer as int, self.denom as int),
    {
        proof {
            reveal_with_fuel(spec_gcd, 3);
            lemma_reduce_props(2 * self.denom as int, self.numer as int);
        }
        let two: Ratio = Ratio::new(2, 1);
        let q: Ratio = two.divide(*self);
        q.normalize()
    }

    /// This fraction raised to an integer exponent: the unit fraction for
    /// zero, the complement raised to the opposite power for a negative
    /// exponent, and the reduced componentwise power otherwise.
    pub fn pow(&self, exp: i32) -> (r: Self)
        requires
            pow_ok(self.numer as int, self.denom as int, exp as int),
        ensures
            rat_pair(r) == spec_pow(self.numer as int, self.denom as int, exp as int),
        decreases (if exp < 0 { 1int } else { 0int }),
    {
        if exp == 0 {
            proof {
                lemma_unit_reduce();
            }
            Ratio::new(1, 1)
        } else if exp < 0 {
            proof {
                lemma_complement_props(self.numer as int, self.denom as int);
            }
            let c: Ratio = self.complement();
            c.pow(-exp)
        } else {
            let e: u32 = exp as u32;
            let pn: i32 = pow_i32(self.numer, e);
            let pd: i32 = pow_i32(self.denom, e);
            proof {
                lemma_pow_nonzero(self.denom as int, e as nat);
            }
            Ratio::new(pn, pd)
        }
    }
}

} // verus!
