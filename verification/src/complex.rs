//! Planar points as complex numbers in fixed-point integer units.
//!
//! Every coordinate in this crate is an integer count of "units"; the caller
//! decides what one unit means (for instance a thousandth of a pixel or a
//! billionth of a degree). Rotations are applied through a scaled rotation
//! table: a rotation value is a complex number whose components are at most
//! `scale` in absolute value, standing for the unit complex number obtained
//! by dividing by `scale`. Multiplying by a rotation and dividing by `scale`
//! keeps results in units. All divisions round toward zero.

use vstd::prelude::*;

verus! {

/// Largest magnitude allowed for an input coordinate component and for a
/// rotation-table scale.
pub const COORD_LIMIT: i64 = 0x4000_0000;

/// Largest magnitude allowed for a spectral coefficient component; the
/// normalized spectrum of coordinates within `COORD_LIMIT` stays within
/// twice that bound.
pub const COEFF_LIMIT: i64 = 0x8000_0000;

/// Largest sequence length the crate accepts.
pub const SEQ_LIMIT: usize = 0x10_0000;

/// A planar point, stored as a complex number: `re` is the x coordinate and
/// `im` is the y coordinate, both in fixed-point units.
#[derive(Clone, Copy, Debug, PartialEq, Eq, Structural)]
pub struct Complex {
    pub re: i64,
    pub im: i64,
}

/// Both components of `c` lie within `bound` in absolute value.
pub open spec fn in_range(c: Complex, bound: int) -> bool {
    &&& -bound <= c.re <= bound
    &&& -bound <= c.im <= bound
}

/// Every point of `s` lies within `bound` in absolute value.
pub open spec fn all_in_range(s: Seq<Complex>, bound: int) -> bool {
    forall|i: int| 0 <= i < s.len() ==> in_range(#[trigger] s[i], bound)
}

/// The squared magnitude `re^2 + im^2`, as a mathematical integer.
pub open spec fn mag_sq(c: Complex) -> int {
    c.re * c.re + c.im * c.im
}

/// Integer division with the quotient rounded toward zero, for a positive
/// divisor. This matches what the executable `/` operator does on signed
/// integers.
pub open spec fn div_trunc(a: int, b: int) -> int
    recommends
        b > 0,
{
    if a >= 0 {
        a / b
    } else {
        -((-a) / b)
    }
}

/// The sum of two points, componentwise.
pub open spec fn cx_plus(a: Complex, b: Complex) -> Complex {
    Complex { re: (a.re + b.re) as i64, im: (a.im + b.im) as i64 }
}

/// `a` rotated (and scaled) by `w`: the complex product `a * w` with both
/// components divided by `scale`, rounding toward zero. When `w` stands for
/// `scale * e^(i*theta)` this is `a` rotated by the angle `theta`.
pub open spec fn cx_rotate(a: Complex, w: Complex, scale: int) -> Complex {
    Complex {
        re: div_trunc(a.re * w.re - a.im * w.im, scale) as i64,
        im: div_trunc(a.re * w.im + a.im * w.re, scale) as i64,
    }
}

impl Complex {
    /// Componentwise addition.
    pub fn plus(self, other: Complex) -> (r: Complex)
        requires
            i64::MIN <= self.re + other.re <= i64::MAX,
            i64::MIN <= self.im + other.im <= i64::MAX,
        ensures
            r == cx_plus(self, other),
            r.re == self.re + other.re,
            r.im == self.im + other.im,
    {
        Complex { re: self.re + other.re, im: self.im + other.im }
    }

    /// Rotates `self` by the scaled rotation value `w`, dividing the complex
    /// product by `scale` with truncation.
    pub fn rotate(self, w: Complex, scale: i64) -> (r: Complex)
        requires
            1 <= scale,
            in_range(self, COEFF_LIMIT as int),
            in_range(w, scale as int),
        ensures
            r == cx_rotate(self, w, scale as int),
            in_range(r, 2 * COEFF_LIMIT),
    {
        proof {
            lemma_rotate_product_bounds(self, w, scale as int);
        }
        let re_num: i128 = (self.re as i128) * (w.re as i128) - (self.im as i128) * (w.im as i128);
        let im_num: i128 = (self.re as i128) * (w.im as i128) + (self.im as i128) * (w.re as i128);
        let re: i128 = re_num / (scale as i128);
        let im: i128 = im_num / (scale as i128);
        proof {
            lemma_div_trunc_bound(re_num as int, scale as int, 2 * COEFF_LIMIT);
            lemma_div_trunc_bound(im_num as int, scale as int, 2 * COEFF_LIMIT);
        }
        Complex { re: re as i64, im: im as i64 }
    }

    /// The squared magnitude, exactly.
    pub fn magnitude_sq(self) -> (r: u64)
        requires
            in_range(self, COEFF_LIMIT as int),
        ensures
            r == mag_sq(self),
    {
        proof {
            lemma_mag_sq_bound(self, COEFF_LIMIT as int);
        }
        let re2: u128 = ((self.re as i128) * (self.re as i128)) as u128;
        let im2: u128 = ((self.im as i128) * (self.im as i128)) as u128;
        (re2 + im2) as u64
    }
}

/// The products appearing in a scaled rotation stay well within `i128`, and
/// the numerators stay within `2 * COEFF_LIMIT * scale`.
proof fn lemma_rotate_product_bounds(a: Complex, w: Complex, scale: int)
    requires
        1 <= scale,
        in_range(a, COEFF_LIMIT as int),
        in_range(w, scale),
    ensures
        -((COEFF_LIMIT as int) * scale) <= a.re * w.re <= (COEFF_LIMIT as int) * scale,
        -((COEFF_LIMIT as int) * scale) <= a.im * w.im <= (COEFF_LIMIT as int) * scale,
        -((COEFF_LIMIT as int) * scale) <= a.re * w.im <= (COEFF_LIMIT as int) * scale,
        -((COEFF_LIMIT as int) * scale) <= a.im * w.re <= (COEFF_LIMIT as int) * scale,
        -((2 * COEFF_LIMIT as int) * scale) <= a.re * w.re - a.im * w.im <= (2 * COEFF_LIMIT as int)
            * scale,
        -((2 * COEFF_LIMIT as int) * scale) <= a.re * w.im + a.im * w.re <= (2 * COEFF_LIMIT as int)
            * scale,
{
    assert forall|x: int, y: int|
        -(COEFF_LIMIT as int) <= x <= COEFF_LIMIT as int && -scale <= y <= scale implies -((
    COEFF_LIMIT as int) * scale) <= #[trigger] (x * y) <= (COEFF_LIMIT as int) * scale by {
        assert(-((COEFF_LIMIT as int) * scale) <= x * y <= (COEFF_LIMIT as int) * scale)
            by (nonlinear_arith)
            requires
                -(COEFF_LIMIT as int) <= x <= COEFF_LIMIT as int,
                -scale <= y <= scale,
                1 <= scale,
        ;
    }
    assert((2 * COEFF_LIMIT as int) * scale == (COEFF_LIMIT as int) * scale + (COEFF_LIMIT as int)
        * scale) by (nonlinear_arith);
}

/// Dividing a numerator bounded by `bound2 * scale` by `scale` with
/// truncation gives a quotient bounded by `bound2`.
pub proof fn lemma_div_trunc_bound_pub(num: int, scale: int, bound2: int)
    requires
        1 <= scale,
        0 <= bound2,
        -(bound2 * scale) <= num <= bound2 * scale,
    ensures
        -bound2 <= div_trunc(num, scale) <= bound2,
{
    lemma_div_trunc_bound(num, scale, bound2);
}

/// Dividing a numerator bounded by `bound2 * scale` by `scale` with
/// truncation gives a quotient bounded by `bound2`.
proof fn lemma_div_trunc_bound(num: int, scale: int, bound2: int)
    requires
        1 <= scale,
        0 <= bound2,
        -(bound2 * scale) <= num <= bound2 * scale,
    ensures
        -bound2 <= div_trunc(num, scale) <= bound2,
{
    if num >= 0 {
        assert(num / scale <= bound2) by (nonlinear_arith)
            requires
                1 <= scale,
                0 <= num <= bound2 * scale,
        ;
        assert(num / scale >= 0) by (nonlinear_arith)
            requires
                1 <= scale,
                0 <= num,
        ;
    } else {
        assert((-num) / scale <= bound2) by (nonlinear_arith)
            requires
                1 <= scale,
                0 <= -num <= bound2 * scale,
        ;
        assert((-num) / scale >= 0) by (nonlinear_arith)
            requires
                1 <= scale,
                0 <= -num,
        ;
    }
}

/// The squared magnitude of a point within `bound` fits below `2 * bound^2`.
pub proof fn lemma_mag_sq_bound(c: Complex, bound: int)
    requires
        0 <= bound,
        in_range(c, bound),
    ensures
        0 <= c.re * c.re <= bound * bound,
        0 <= c.im * c.im <= bound * bound,
        0 <= mag_sq(c) <= 2 * bound * bound,
{
    assert(0 <= c.re * c.re <= bound * bound) by (nonlinear_arith)
        requires
            -bound <= c.re <= bound,
    ;
    assert(0 <= c.im * c.im <= bound * bound) by (nonlinear_arith)
        requires
            -bound <= c.im <= bound,
    ;
    assert(2 * bound * bound == bound * bound + bound * bound) by (nonlinear_arith);
}

/// Every coordinate component of `points` is within `bound`.
pub fn coords_within(points: &Vec<Complex>, bound: i64) -> (r: bool)
    requires
        bound >= 0,
    ensures
        r == all_in_range(points@, bound as int),
{
    let mut idx: usize = 0;
    while idx < points.len()
        invariant
            0 <= bound,
            0 <= idx <= points@.len(),
            forall|k: int| 0 <= k < idx ==> in_range(points@[k], bound as int),
        decreases points@.len() - idx,
    {
        let p = points[idx];
        if !(-bound <= p.re && p.re <= bound && -bound <= p.im && p.im <= bound) {
            return false;
        }
        idx += 1;
    }
    true
}

/// `r` is the integer square root of `x`: the largest integer whose square
/// does not exceed `x`.
pub open spec fn is_isqrt(r: int, x: int) -> bool {
    &&& 0 <= r
    &&& r * r <= x
    &&& x < (r + 1) * (r + 1)
}

/// An integer square root is always below `2^32` when its input is below
/// `2^64`.
pub proof fn lemma_isqrt_fits(r: int, x: int)
    requires
        is_isqrt(r, x),
        x < 0x1_0000_0000_0000_0000,
    ensures
        r < 0x1_0000_0000,
{
    if r >= 0x1_0000_0000 {
        assert(r * r >= 0x1_0000_0000_0000_0000int) by (nonlinear_arith)
            requires
                r >= 0x1_0000_0000,
        ;
    }
}

/// The integer square root, by binary search.
pub fn isqrt64(x: u64) -> (r: u64)
    ensures
        is_isqrt(r as int, x as int),
{
    let mut lo: u64 = 0;
    let mut hi: u64 = 0x1_0000_0000;
    proof {
        assert((0x1_0000_0000 as int) * (0x1_0000_0000 as int) == 0x1_0000_0000_0000_0000int)
            by (nonlinear_arith);
    }
    while lo + 1 < hi
        invariant
            0 <= lo < hi <= 0x1_0000_0000,
            lo * lo <= x,
            x < hi * hi,
        decreases hi - lo,
    {
        let mid: u64 = lo + (hi - lo) / 2;
        proof {
            assert((mid as int) * (mid as int) < 0x1_0000_0000_0000_0000int) by (nonlinear_arith)
                requires
                    0 <= mid < 0x1_0000_0000,
            ;
        }
        let sq: u128 = (mid as u128) * (mid as u128);
        if sq <= x as u128 {
            lo = mid;
        } else {
            hi = mid;
        }
    }
    lo
}

} // verus!
