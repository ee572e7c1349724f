//! An N-dimensional coordinate space over exact fractions. Each axis pairs
//! a generator ratio with a bound policy; evaluating a point resolves each
//! integer coordinate through its axis's policy, raises the generator to the
//! resolved power, and multiplies the per-axis results together.
use vstd::prelude::*;
use crate::arith::iabs;
use crate::arith::lemma_mod_neg;
use crate::ratio::Ratio;
use crate::ratio::lemma_pow_denom_nonzero;
use crate::ratio::pow_ok;
use crate::ratio::rat_pair;
use crate::ratio::lemma_unit_reduce;
use crate::ratio::spec_mul;
use crate::ratio::spec_pow;

verus! {

/// How a raw integer coordinate along one axis is mapped before
/// exponentiation.
#[derive(Clone, Copy, Debug)]
pub enum DimensionBound {
    /// The raw index is used as-is.
    Infinity,
    /// Indices are wrapped by a sign-preserving modulo: the result follows
    /// the sign convention of the stored bound.
    ZeroBounded(i32),
    /// Indices are wrapped into the inclusive range between the two stored
    /// ends, offset by the magnitude of the lower end.
    RangeBounded(i32, i32),
}

/// A modulo whose result follows the sign of the divisor: in `[0, b)` for
/// a positive `b`, in `(b, 0]` for a negative one.
pub open spec fn sign_mod(a: int, b: int) -> int
    recommends
        b != 0,
{
    if b > 0 {
        a % b
    } else {
        -((-a) % (-b))
    }
}

/// The resolved exponent for a raw coordinate under a bound policy.
pub open spec fn spec_resolve(bounds: DimensionBound, index: int) -> int {
    match bounds {
        DimensionBound::Infinity => index,
        DimensionBound::ZeroBounded(n) => sign_mod(index, n as int),
        DimensionBound::RangeBounded(lo, hi) => sign_mod(
            index + iabs(lo as int),
            hi as int - lo as int + 1,
        ) - iabs(lo as int),
    }
}

/// What resolution asks of a coordinate and a bound policy: a nonzero
/// modulus, a range that is not inverted, and values whose intermediate
/// sums stay within the machine range.
pub open spec fn resolve_ok(bounds: DimensionBound, index: int) -> bool {
    match bounds {
        DimensionBound::Infinity => true,
        DimensionBound::ZeroBounded(n) => n != 0 && n > i32::MIN && index > i32::MIN as int,
        DimensionBound::RangeBounded(lo, hi) => {
            &&& lo <= hi
            &&& lo > i32::MIN
            &&& hi as int - lo as int + 1 <= i32::MAX as int
            &&& index + iabs(lo as int) <= i32::MAX as int
            &&& index > i32::MIN as int
        },
    }
}

/// The sign-preserving modulo of the original formulation: the truncating
/// remainder, shifted up by the divisor, taken once more. Computed here
/// over nonnegative operands only, one sign case at a time.
fn sign_preserving_mod(a: i32, b: i32) -> (r: i32)
    requires
        b != 0,
        b > i32::MIN,
        a > i32::MIN,
    ensures
        r as int == sign_mod(a as int, b as int),
        b > 0 ==> 0 <= r < b,
        b < 0 ==> b < r <= 0,
{
    let bp: i32 = if b < 0 { -b } else { b };
    let e: i32 = if a >= 0 {
        a % bp
    } else {
        let u: i32 = (-a) % bp;
        proof {
            lemma_mod_neg(-a as int, bp as int);
        }
        if u == 0 {
            0
        } else {
            bp - u
        }
    };
    assert(e as int == a as int % bp as int);
    if b >= 0 {
        e
    } else {
        proof {
            lemma_mod_neg(a as int, bp as int);
        }
        if e == 0 {
            0
        } else {
            e - bp
        }
    }
}

/// One axis of a lattice: a generator ratio together with the bound policy
/// that resolves raw coordinates into exponents.
#[derive(Clone, Copy, Debug)]
pub struct LatticeDimension {
    pub ratio: Ratio,
    pub bounds: DimensionBound,
}

impl LatticeDimension {
    /// The exponent for a raw coordinate: unchanged on an unbounded axis,
    /// wrapped by the sign-preserving modulo on a zero-symmetric axis, and
    /// wrapped into the stored inclusive range on a range-bounded axis.
    pub fn resolve_index(&self, index: i32) -> (r: i32)
        requires
            resolve_ok(self.bounds, index as int),
        ensures
            r as int == spec_resolve(self.bounds, index as int),
            self.bounds is Infinity ==> r == index,
    {
        match self.bounds {
            DimensionBound::Infinity => index,
            DimensionBound::ZeroBounded(n) => sign_preserving_mod(index, n),
            DimensionBound::RangeBounded(lo, hi) => {
                let modulo: i32 = hi - lo + 1;
                let abs_lo: i32 = if lo < 0 { -lo } else { lo };
                sign_preserving_mod(index + abs_lo, modulo) - abs_lo
            },
        }
    }
}

/// An ordered sequence of axes; its length is the dimensionality.
#[derive(Debug)]
pub struct Lattice {
    pub dimensions: Vec<LatticeDimension>,
}

/// The per-axis contribution of one coordinate: the generator raised to the
/// resolved exponent.
pub open spec fn lattice_term(dim: LatticeDimension, index: int) -> (int, int) {
    spec_pow(
        dim.ratio.numer as int,
        dim.ratio.denom as int,
        spec_resolve(dim.bounds, index),
    )
}

/// The number of axis/coordinate pairs that take part in an evaluation:
/// the two sequences are paired positionally and stop at the shorter.
pub open spec fn common_len(dims: Seq<LatticeDimension>, idxs: Seq<i32>) -> int {
    if dims.len() <= idxs.len() {
        dims.len() as int
    } else {
        idxs.len() as int
    }
}

/// The running product of the first `k` per-axis contributions, starting
/// from the unit fraction.
pub open spec fn lattice_acc(dims: Seq<LatticeDimension>, idxs: Seq<i32>, k: int) -> (int, int)
    decreases k,
{
    if k <= 0 {
        (1, 1)
    } else {
        spec_mul(lattice_acc(dims, idxs, k - 1), lattice_term(dims[k - 1], idxs[k - 1] as int))
    }
}

/// What evaluation asks of each paired axis and coordinate: the coordinate
/// resolves, the power stays within range, and each running product fits
/// the machine integers.
pub open spec fn at_ok(dims: Seq<LatticeDimension>, idxs: Seq<i32>) -> bool {
    forall|k: int|
        0 <= k < common_len(dims, idxs) ==> {
            &&& resolve_ok((#[trigger] dims[k]).bounds, idxs[k] as int)
            &&& pow_ok(
                dims[k].ratio.numer as int,
                dims[k].ratio.denom as int,
                spec_resolve(dims[k].bounds, idxs[k] as int),
            )
            &&& iabs(
                lattice_acc(dims, idxs, k).0 * lattice_term(dims[k], idxs[k] as int).0,
            ) <= i32::MAX as int
            &&& iabs(
                lattice_acc(dims, idxs, k).1 * lattice_term(dims[k], idxs[k] as int).1,
            ) <= i32::MAX as int
        }
}

impl Lattice {
    /// A lattice from an ordered sequence of axes.
    pub fn new(dimensions: Vec<LatticeDimension>) -> (r: Self)
        ensures
            r.dimensions@ == dimensions@,
    {
        Self { dimensions }
    }

    /// The exact rational value at a lattice point: each coordinate is
    /// resolved through its axis's bound policy, each generator is raised
    /// to the resolved power, and the per-axis results are multiplied
    /// together from the unit fraction. The product is not normalized.
    pub fn at(&self, indices: Vec<i32>) -> (r: Ratio)
        requires
            at_ok(self.dimensions@, indices@),
        ensures
            rat_pair(r) == lattice_acc(
                self.dimensions@,
                indices@,
                common_len(self.dimensions@, indices@),
            ),
    {
        let l: usize = if self.dimensions.len() <= indices.len() {
            self.dimensions.len()
        } else {
            indices.len()
        };
        proof {
            lemma_unit_reduce();
        }
        let mut result: Ratio = Ratio::new(1, 1);
        let mut k: usize = 0;
        while k < l
            invariant
                k <= l,
                l == common_len(self.dimensions@, indices@),
                at_ok(self.dimensions@, indices@),
                rat_pair(result) == lattice_acc(self.dimensions@, indices@, k as int),
                result.denom != 0,
            decreases l - k,
        {
            let dim: LatticeDimension = self.dimensions[k];
            let idx: i32 = indices[k];
            proof {
                lemma_pow_denom_nonzero(
                    dim.ratio.numer as int,
                    dim.ratio.denom as int,
                    spec_resolve(dim.bounds, idx as int),
                );
            }
            let e: i32 = dim.resolve_index(idx);
            let term: Ratio = dim.ratio.pow(e);
            proof {
                let acc = lattice_acc(self.dimensions@, indices@, k as int);
                let t = lattice_term(self.dimensions@[k as int], indices@[k as int] as int);
                assert(rat_pair(term) == t);
                assert(rat_pair(result) == acc);
                assert(t.0 * acc.0 == acc.0 * t.0) by (nonlinear_arith);
                assert(t.1 * acc.1 == acc.1 * t.1) by (nonlinear_arith);
            }
            result = term.multiply(result);
            k = k + 1;
        }
        result
    }
}

} // verus!
