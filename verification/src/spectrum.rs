//! The spectral analyzer.
//!
//! A fixed-length closed sequence of points is read as a discrete complex
//! signal and decomposed by the forward discrete Fourier transform,
//! normalized by the sequence length so that the inverse transform
//! reproduces the samples. The transform's unit rotations are supplied as a
//! scaled rotation table (see [`crate::complex`]): entry `m` stands for
//! `e^(-i*2*pi*m/n)` times the table's scale, and the coefficient of bin `k`
//! is the sum over samples `t` of `x[t]` times entry `(k*t) mod n`, divided
//! once by `scale * n`.
//!
//! Each bin `k` carries a signed frequency index: `k` itself up to `n/2`,
//! and `k - n` above it, the sign giving the rotation direction.
//!
//! Reduction keeps only the highest-magnitude components: the full spectrum
//! is ordered by descending magnitude (ties by ascending signed frequency
//! index) and a ceiling fraction of it is kept, original indices preserved.
//! This is a magnitude-based simplification, not a frequency-cutoff
//! low-pass filter.

use vstd::prelude::*;

use crate::complex::{
    all_in_range, div_trunc, in_range, is_isqrt, isqrt64, mag_sq, Complex, COEFF_LIMIT,
    COORD_LIMIT, SEQ_LIMIT,
};
use crate::error::Error;

verus! {

/// One retained frequency: the DFT bin it came from, its signed frequency
/// index, the complex coefficient in coordinate units, and the coefficient's
/// integer magnitude. The coefficient carries what a polar form would split
/// into magnitude and phase.
#[derive(Clone, Copy, Debug, PartialEq, Eq, Structural)]
pub struct FrequencyComponent {
    /// The original DFT bin, `0 <= bin < n`; never renumbered by reduction.
    pub bin: usize,
    /// The signed angular velocity: `bin` for `bin <= n / 2`, else `bin - n`.
    pub freq: i64,
    /// The normalized coefficient of this bin, in coordinate units.
    pub coeff: Complex,
    /// The integer square root of the coefficient's squared magnitude.
    pub magnitude: i64,
}

/// The signed frequency index of bin `k` in a length-`n` spectrum.
pub open spec fn signed_freq(k: int, n: int) -> int {
    if k <= n / 2 {
        k
    } else {
        k - n
    }
}

/// The real part of one transform term: `x * w` for a sample `x` and a
/// scaled rotation `w`.
pub open spec fn term_re(x: Complex, w: Complex) -> int {
    x.re * w.re - x.im * w.im
}

/// The imaginary part of one transform term.
pub open spec fn term_im(x: Complex, w: Complex) -> int {
    x.re * w.im + x.im * w.re
}

/// The real part of the first `t` terms of bin `k`: samples `0 .. t`, each
/// rotated by table entry `(k * index) mod n`.
pub open spec fn dft_sum_re(x: Seq<Complex>, w: Seq<Complex>, k: int, t: int) -> int
    decreases t,
{
    if t <= 0 {
        0
    } else {
        dft_sum_re(x, w, k, t - 1) + term_re(x[t - 1], w[(k * (t - 1)) % (x.len() as int)])
    }
}

/// The imaginary part of the first `t` terms of bin `k`.
pub open spec fn dft_sum_im(x: Seq<Complex>, w: Seq<Complex>, k: int, t: int) -> int
    decreases t,
{
    if t <= 0 {
        0
    } else {
        dft_sum_im(x, w, k, t - 1) + term_im(x[t - 1], w[(k * (t - 1)) % (x.len() as int)])
    }
}

/// Bin `k` of the normalized spectrum: the full sum over all samples,
/// divided once by `scale * n` (the table's scale and the normalization by
/// the sequence length), rounding toward zero.
pub open spec fn dft_bin(x: Seq<Complex>, w: Seq<Complex>, scale: int, k: int) -> Complex {
    let n = x.len() as int;
    Complex {
        re: div_trunc(dft_sum_re(x, w, k, n), scale * n) as i64,
        im: div_trunc(dft_sum_im(x, w, k, n), scale * n) as i64,
    }
}

/// The inputs on which the analyzer succeeds: a non-empty sequence within
/// the crate's limits, and a rotation table of the same length whose entries
/// are within its scale.
pub open spec fn spectrum_valid(x: Seq<Complex>, w: Seq<Complex>, scale: int) -> bool {
    &&& 1 <= x.len() <= SEQ_LIMIT
    &&& w.len() == x.len()
    &&& 1 <= scale <= COORD_LIMIT
    &&& all_in_range(x, COORD_LIMIT as int)
    &&& all_in_range(w, scale)
}

/// Computes the normalized spectrum of `points`: one complex coefficient
/// per bin, `dft_bin` exactly.
///
/// `twiddle[m]` must hold `scale * e^(-i*2*pi*m/n)` rounded to units for the
/// result to mean a Fourier spectrum; this function is exact over whatever
/// table it is given. Fails with `InvalidInput` exactly when the input is
/// empty, a length or the scale exceeds the crate's limits, the table length
/// differs from the input length, or an entry exceeds its bound.
pub fn fft_points(points: &Vec<Complex>, twiddle: &Vec<Complex>, scale: i64) -> (r: Result<
    Vec<Complex>,
    Error,
>)
    ensures
        r is Ok <==> spectrum_valid(points@, twiddle@, scale as int),
        r matches Ok(out) ==> {
            &&& out@.len() == points@.len()
            &&& forall|k: int|
                0 <= k < out@.len() ==> out@[k] == dft_bin(points@, twiddle@, scale as int, k)
            &&& all_in_range(out@, COEFF_LIMIT as int)
        },
{
    let n = points.len();
    if !(1 <= n && n <= SEQ_LIMIT && twiddle.len() == n && 1 <= scale && scale <= COORD_LIMIT) {
        return Err(Error::InvalidInput);
    }
    if !crate::complex::coords_within(points, COORD_LIMIT) {
        return Err(Error::InvalidInput);
    }
    if !crate::complex::coords_within(twiddle, scale) {
        return Err(Error::InvalidInput);
    }
    let mut out: Vec<Complex> = Vec::new();
    let mut k: usize = 0;
    while k < n
        invariant
            0 <= k <= n,
            spectrum_valid(points@, twiddle@, scale as int),
            points@.len() == n,
            out@.len() == k,
            forall|b: int| 0 <= b < k ==> out@[b] == dft_bin(points@, twiddle@, scale as int, b),
            all_in_range(out@, COEFF_LIMIT as int),
        decreases n - k,
    {
        let c = dft_bin_exec(points, twiddle, scale, k);
        out.push(c);
        k += 1;
    }
    Ok(out)
}

/// One bin of the transform: accumulates the rotated samples in wide
/// integers and divides once by `scale * n`.
fn dft_bin_exec(points: &Vec<Complex>, twiddle: &Vec<Complex>, scale: i64, k: usize) -> (c:
    Complex)
    requires
        spectrum_valid(points@, twiddle@, scale as int),
        0 <= k < points@.len(),
    ensures
        c == dft_bin(points@, twiddle@, scale as int, k as int),
        in_range(c, COEFF_LIMIT as int),
{
    let n = points.len();
    let mut acc_re: i128 = 0;
    let mut acc_im: i128 = 0;
    let mut idx: usize = 0;
    let mut t: usize = 0;
    proof {
        lemma_mul_mod_zero(k as int, n as int);
    }
    while t < n
        invariant
            0 <= t <= n,
            spectrum_valid(points@, twiddle@, scale as int),
            points@.len() == n,
            0 <= k < n,
            idx == (k as int * t as int) % (n as int),
            acc_re == dft_sum_re(points@, twiddle@, k as int, t as int),
            acc_im == dft_sum_im(points@, twiddle@, k as int, t as int),
            -((t as int) * term_limit(scale as int)) <= acc_re <= (t as int) * term_limit(
                scale as int,
            ),
            -((t as int) * term_limit(scale as int)) <= acc_im <= (t as int) * term_limit(
                scale as int,
            ),
        decreases n - t,
    {
        let x = points[t];
        let w = twiddle[idx];
        proof {
            lemma_term_bounds(x, w, scale as int);
            lemma_acc_step_bound(acc_re as int, t as int, n as int, scale as int);
            lemma_acc_step_bound(acc_im as int, t as int, n as int, scale as int);
        }
        let tre: i128 = (x.re as i128) * (w.re as i128) - (x.im as i128) * (w.im as i128);
        let tim: i128 = (x.re as i128) * (w.im as i128) + (x.im as i128) * (w.re as i128);
        acc_re = acc_re + tre;
        acc_im = acc_im + tim;
        proof {
            lemma_rot_index_step(k as int, t as int, n as int);
        }
        idx = idx + k;
        if idx >= n {
            idx = idx - n;
        }
        t += 1;
    }
    proof {
        lemma_dft_div_bounds(acc_re as int, acc_im as int, n as int, scale as int);
    }
    let denom: i128 = (scale as i128) * (n as i128);
    let re = acc_re / denom;
    let im = acc_im / denom;
    Complex { re: re as i64, im: im as i64 }
}

/// The largest magnitude one transform term can reach for a table of the
/// given scale.
pub open spec fn term_limit(scale: int) -> int {
    2 * COORD_LIMIT as int * scale
}

/// `(k * 0) mod n == 0`.
proof fn lemma_mul_mod_zero(k: int, n: int)
    requires
        n >= 1,
    ensures
        (k * 0) % n == 0,
{
    assert(k * 0 == 0) by (nonlinear_arith);
    vstd::arithmetic::div_mod::lemma_small_mod(0, n as nat);
}

/// Both parts of one term are within `term_limit(scale)`.
proof fn lemma_term_bounds(x: Complex, w: Complex, scale: int)
    requires
        in_range(x, COORD_LIMIT as int),
        1 <= scale <= COORD_LIMIT,
        in_range(w, scale),
    ensures
        -term_limit(scale) <= term_re(x, w) <= term_limit(scale),
        -term_limit(scale) <= term_im(x, w) <= term_limit(scale),
        -0x1000_0000_0000_0000int <= x.re * w.re <= 0x1000_0000_0000_0000int,
        -0x1000_0000_0000_0000int <= x.im * w.im <= 0x1000_0000_0000_0000int,
        -0x1000_0000_0000_0000int <= x.re * w.im <= 0x1000_0000_0000_0000int,
        -0x1000_0000_0000_0000int <= x.im * w.re <= 0x1000_0000_0000_0000int,
{
    let c = COORD_LIMIT as int;
    assert(-c * scale <= x.re * w.re <= c * scale && -c * scale <= x.im * w.im <= c * scale && -c
        * scale <= x.re * w.im <= c * scale && -c * scale <= x.im * w.re <= c * scale)
        by (nonlinear_arith)
        requires
            -c <= x.re <= c,
            -c <= x.im <= c,
            -scale <= w.re <= scale,
            -scale <= w.im <= scale,
            1 <= scale,
            c == COORD_LIMIT as int,
    ;
    assert(2 * COORD_LIMIT as int * scale == c * scale + c * scale) by (nonlinear_arith)
        requires
            c == COORD_LIMIT as int,
    ;
    assert(c * scale <= 0x1000_0000_0000_0000int) by (nonlinear_arith)
        requires
            1 <= scale <= COORD_LIMIT,
            c == COORD_LIMIT as int,
    ;
}

/// Growing the accumulator by one bounded term keeps it within the next
/// multiple of the term limit, which itself stays far within `i128`.
proof fn lemma_acc_step_bound(acc: int, t: int, n: int, scale: int)
    requires
        0 <= t < n <= SEQ_LIMIT,
        1 <= scale <= COORD_LIMIT,
        -(t * term_limit(scale)) <= acc <= t * term_limit(scale),
    ensures
        -((t + 1) * term_limit(scale)) <= acc - term_limit(scale),
        acc + term_limit(scale) <= (t + 1) * term_limit(scale),
        -((t + 1) * term_limit(scale)) >= -0x200_0000_0000_0000_0000_0000int,
        (t + 1) * term_limit(scale) <= 0x200_0000_0000_0000_0000_0000int,
{
    let tl = term_limit(scale);
    assert((t + 1) * tl == t * tl + tl) by (nonlinear_arith);
    assert((t + 1) * (2 * COORD_LIMIT as int * scale) <= 0x200_0000_0000_0000_0000_0000int)
        by (nonlinear_arith)
        requires
            0 <= t < n <= SEQ_LIMIT,
            1 <= scale <= COORD_LIMIT,
    ;
}

/// Stepping the rotation index: `((k * t) % n + k)` reduced into `0 .. n`
/// is `(k * (t + 1)) % n`.
proof fn lemma_rot_index_step(k: int, t: int, n: int)
    requires
        n >= 1,
        0 <= k < n,
        t >= 0,
    ensures
        0 <= (k * t) % n < n,
        (k * t) % n + k < n ==> (k * t) % n + k == (k * (t + 1)) % n,
        (k * t) % n + k >= n ==> (k * t) % n + k - n == (k * (t + 1)) % n,
{
    vstd::arithmetic::div_mod::lemma_mod_division_less_than_divisor(k * t, n);
    assert(k * (t + 1) == k * t + k) by (nonlinear_arith);
    vstd::arithmetic::div_mod::lemma_small_mod(k as nat, n as nat);
    vstd::arithmetic::div_mod::lemma_add_mod_noop(k * t, k, n);
    let s = (k * t) % n + k;
    if s < n {
        vstd::arithmetic::div_mod::lemma_small_mod(s as nat, n as nat);
    } else {
        vstd::arithmetic::div_mod::lemma_mod_sub_multiples_vanish(s, n);
        vstd::arithmetic::div_mod::lemma_small_mod((s - n) as nat, n as nat);
    }
}

/// The final division keeps both coefficient parts within `COEFF_LIMIT`.
proof fn lemma_dft_div_bounds(acc_re: int, acc_im: int, n: int, scale: int)
    requires
        1 <= n <= SEQ_LIMIT,
        1 <= scale <= COORD_LIMIT,
        -(n * term_limit(scale)) <= acc_re <= n * term_limit(scale),
        -(n * term_limit(scale)) <= acc_im <= n * term_limit(scale),
    ensures
        1 <= scale * n <= 0x4000_0000_0000_0000int,
        -(COEFF_LIMIT as int) <= div_trunc(acc_re, scale * n) <= COEFF_LIMIT as int,
        -(COEFF_LIMIT as int) <= div_trunc(acc_im, scale * n) <= COEFF_LIMIT as int,
{
    assert(1 <= scale * n <= 0x4000_0000_0000_0000int) by (nonlinear_arith)
        requires
            1 <= n <= SEQ_LIMIT,
            1 <= scale <= COORD_LIMIT,
    ;
    assert(n * (2 * COORD_LIMIT as int * scale) == (COEFF_LIMIT as int) * (scale * n))
        by (nonlinear_arith)
        requires
            COEFF_LIMIT as int == 2 * COORD_LIMIT as int,
    ;
    crate::complex::lemma_div_trunc_bound_pub(acc_re, scale * n, COEFF_LIMIT as int);
    crate::complex::lemma_div_trunc_bound_pub(acc_im, scale * n, COEFF_LIMIT as int);
}


/// A well-formed component of a length-`n` spectrum: a valid bin, the
/// matching signed frequency, a coefficient within `COEFF_LIMIT`, and the
/// coefficient's exact integer magnitude.
pub open spec fn component_wf(c: FrequencyComponent, n: int) -> bool {
    &&& 0 <= c.bin < n
    &&& c.freq == signed_freq(c.bin as int, n)
    &&& in_range(c.coeff, COEFF_LIMIT as int)
    &&& is_isqrt(c.magnitude as int, mag_sq(c.coeff))
}

/// An immutable spectral model: an ordered collection of frequency
/// components, together with the original sequence length that one full
/// animation period corresponds to. A full model holds one component per
/// bin in ascending bin order; a reduced model holds the highest-magnitude
/// components in magnitude order, original bins preserved.
#[derive(Clone, Debug, PartialEq, Eq)]
pub struct SpectralModel {
    /// The retained components, in stored order.
    pub components: Vec<FrequencyComponent>,
    /// The original, unreduced sequence length.
    pub seq_len: usize,
}

impl SpectralModel {
    /// Every component is well-formed and there are no more of them than
    /// original bins.
    pub open spec fn wf(self) -> bool {
        &&& 1 <= self.seq_len <= SEQ_LIMIT
        &&& self.components@.len() <= self.seq_len
        &&& forall|i: int|
            0 <= i < self.components@.len() ==> component_wf(
                #[trigger] self.components@[i],
                self.seq_len as int,
            )
    }

    /// A full spectrum: one component per original bin, in ascending bin
    /// order.
    pub open spec fn is_full(self) -> bool {
        &&& self.wf()
        &&& self.components@.len() == self.seq_len
        &&& forall|i: int| 0 <= i < self.components@.len() ==> #[trigger] self.components@[i].bin == i
    }
}

/// The executable signed frequency index of bin `k` in a length-`n`
/// spectrum.
fn signed_freq_exec(k: usize, n: usize) -> (r: i64)
    requires
        0 <= k < n <= SEQ_LIMIT,
    ensures
        r == signed_freq(k as int, n as int),
{
    if k <= n / 2 {
        k as i64
    } else {
        (k as i64) - (n as i64)
    }
}

/// Computes the full spectral model of `points`: the normalized spectrum of
/// `fft_points`, one component per bin in ascending bin order, each carrying
/// its signed frequency index and integer magnitude.
///
/// Fails with `InvalidInput` exactly when `fft_points` would.
pub fn analyze(points: &Vec<Complex>, twiddle: &Vec<Complex>, scale: i64) -> (r: Result<
    SpectralModel,
    Error,
>)
    ensures
        r is Ok <==> spectrum_valid(points@, twiddle@, scale as int),
        r matches Ok(m) ==> {
            &&& m.is_full()
            &&& m.seq_len == points@.len()
            &&& forall|k: int|
                0 <= k < points@.len() ==> (#[trigger] m.components@[k]).coeff == dft_bin(
                    points@,
                    twiddle@,
                    scale as int,
                    k,
                )
        },
{
    let spectrum = match fft_points(points, twiddle, scale) {
        Ok(s) => s,
        Err(e) => {
            return Err(e);
        },
    };
    let n = points.len();
    let mut components: Vec<FrequencyComponent> = Vec::new();
    let mut k: usize = 0;
    while k < n
        invariant
            0 <= k <= n,
            1 <= n <= SEQ_LIMIT,
            spectrum@.len() == n,
            all_in_range(spectrum@, COEFF_LIMIT as int),
            components@.len() == k,
            forall|b: int|
                0 <= b < k ==> {
                    let c = #[trigger] components@[b];
                    &&& c.bin == b
                    &&& c.coeff == spectrum@[b]
                    &&& component_wf(c, n as int)
                },
        decreases n - k,
    {
        let coeff = spectrum[k];
        let msq = coeff.magnitude_sq();
        let mag = isqrt64(msq);
        proof {
            crate::complex::lemma_isqrt_fits(mag as int, msq as int);
        }
        let comp = FrequencyComponent {
            bin: k,
            freq: signed_freq_exec(k, n),
            coeff,
            magnitude: mag as i64,
        };
        components.push(comp);
        k += 1;
    }
    Ok(SpectralModel { components, seq_len: n })
}

/// The total order that reduction sorts by: strictly greater squared
/// magnitude first, ties by ascending signed frequency index for
/// determinism, with the remaining fields as further tie-breakers so that
/// the order is total and antisymmetric over the whole component type.
pub open spec fn magnitude_order(a: FrequencyComponent, b: FrequencyComponent) -> bool {
    if mag_sq(a.coeff) != mag_sq(b.coeff) {
        mag_sq(a.coeff) > mag_sq(b.coeff)
    } else if a.freq != b.freq {
        a.freq < b.freq
    } else if a.bin != b.bin {
        a.bin < b.bin
    } else if a.coeff.re != b.coeff.re {
        a.coeff.re < b.coeff.re
    } else if a.coeff.im != b.coeff.im {
        a.coeff.im < b.coeff.im
    } else {
        a.magnitude <= b.magnitude
    }
}

/// `magnitude_order` as a first-class relation.
pub open spec fn mag_le() -> spec_fn(FrequencyComponent, FrequencyComponent) -> bool {
    |a: FrequencyComponent, b: FrequencyComponent| magnitude_order(a, b)
}

/// `magnitude_order` is a total ordering, so sorting by it has a unique
/// result.
pub proof fn lemma_magnitude_order_total()
    ensures
        vstd::relations::total_ordering(mag_le()),
{
    let leq = mag_le();
    assert forall|a: FrequencyComponent| #[trigger] leq(a, a) by {}
    assert forall|a: FrequencyComponent, b: FrequencyComponent|
        #[trigger] leq(a, b) && #[trigger] leq(b, a) implies a == b by {}
    assert forall|a: FrequencyComponent, b: FrequencyComponent, c: FrequencyComponent|
        #[trigger] leq(a, b) && #[trigger] leq(b, c) implies leq(a, c) by {}
    assert forall|a: FrequencyComponent, b: FrequencyComponent| !(#[trigger] leq(a, b)) implies leq(
        b,
        a,
    ) by {}
}

/// The executable comparison, exactly `magnitude_order`.
fn le_exec(a: &FrequencyComponent, b: &FrequencyComponent) -> (r: bool)
    requires
        in_range(a.coeff, COEFF_LIMIT as int),
        in_range(b.coeff, COEFF_LIMIT as int),
    ensures
        r == magnitude_order(*a, *b),
{
    let ma = a.coeff.magnitude_sq();
    let mb = b.coeff.magnitude_sq();
    if ma != mb {
        ma > mb
    } else if a.freq != b.freq {
        a.freq < b.freq
    } else if a.bin != b.bin {
        a.bin < b.bin
    } else if a.coeff.re != b.coeff.re {
        a.coeff.re < b.coeff.re
    } else if a.coeff.im != b.coeff.im {
        a.coeff.im < b.coeff.im
    } else {
        a.magnitude <= b.magnitude
    }
}

/// Sorts components by `magnitude_order`, by insertion into position.
fn sort_components(input: &Vec<FrequencyComponent>) -> (out: Vec<FrequencyComponent>)
    requires
        forall|i: int|
            0 <= i < input@.len() ==> in_range((#[trigger] input@[i]).coeff, COEFF_LIMIT as int),
    ensures
        vstd::relations::sorted_by(out@, mag_le()),
        out@.to_multiset() == input@.to_multiset(),
        out@.len() == input@.len(),
{
    broadcast use vstd::seq_lib::group_to_multiset_ensures;

    let mut out: Vec<FrequencyComponent> = Vec::new();
    let mut i: usize = 0;
    proof {
        assert(input@.take(0).to_multiset() =~= out@.to_multiset()) by {
            assert(input@.take(0) =~= Seq::<FrequencyComponent>::empty());
        }
    }
    while i < input.len()
        invariant
            0 <= i <= input@.len(),
            forall|q: int|
                0 <= q < input@.len() ==> in_range(
                    (#[trigger] input@[q]).coeff,
                    COEFF_LIMIT as int,
                ),
            forall|q: int|
                0 <= q < out@.len() ==> in_range((#[trigger] out@[q]).coeff, COEFF_LIMIT as int),
            vstd::relations::sorted_by(out@, mag_le()),
            out@.to_multiset() == input@.take(i as int).to_multiset(),
            out@.len() == i,
        decreases input@.len() - i,
    {
        broadcast use vstd::seq_lib::group_to_multiset_ensures;

        let x = input[i];
        let mut pos: usize = 0;
        while pos < out.len() && le_exec(&out[pos], &x)
            invariant
                0 <= pos <= out@.len(),
                forall|q: int|
                    0 <= q < out@.len() ==> in_range(
                        (#[trigger] out@[q]).coeff,
                        COEFF_LIMIT as int,
                    ),
                in_range(x.coeff, COEFF_LIMIT as int),
                forall|q: int| 0 <= q < pos ==> magnitude_order(#[trigger] out@[q], x),
            decreases out@.len() - pos,
        {
            pos += 1;
        }
        proof {
            lemma_magnitude_order_total();
            let old_out = out@;
            let leq = mag_le();
            assert forall|q: int| 0 <= q < old_out.len() implies {
                &&& q < pos ==> leq(old_out[q], x)
                &&& q >= pos ==> leq(x, old_out[q])
            } by {
                if q >= pos {
                    assert(!magnitude_order(old_out[pos as int], x));
                    assert(leq(x, old_out[pos as int]));
                    if q > pos {
                        assert(leq(old_out[pos as int], old_out[q]));
                    }
                }
            }
        }
        let ghost pre = out@;
        out.insert(pos, x);
        proof {
            let leq = mag_le();
            assert forall|u: int, v: int| 0 <= u < v < out@.len() implies #[trigger] leq(
                out@[u],
                out@[v],
            ) by {
                lemma_magnitude_order_total();
                if u < pos && v < pos {
                } else if u >= pos + 1 && v >= pos + 1 {
                    assert(out@[u] == pre[u - 1] && out@[v] == pre[v - 1]);
                } else if v == pos {
                    assert(out@[u] == pre[u] && out@[v] == x);
                } else if u == pos {
                    assert(out@[u] == x && out@[v] == pre[v - 1]);
                } else {
                    assert(u < pos && v >= pos + 1);
                    assert(out@[u] == pre[u] && out@[v] == pre[v - 1]);
                    assert(leq(pre[u], x) && leq(x, pre[v - 1]));
                }
            }
            assert(input@.take(i + 1) =~= input@.take(i as int).push(x));
            assert(out@.to_multiset() =~= input@.take(i + 1).to_multiset());
        }
        i += 1;
    }
    proof {
        assert(input@.take(input@.len() as int) =~= input@);
    }
    out
}

/// How many components a ratio `num / den` keeps out of `len`:
/// `ceil(num * len / den)`.
pub open spec fn keep_count(len: int, num: int, den: int) -> int
    recommends
        1 <= num <= den,
{
    (num * len + den - 1) / den
}

/// What reduction keeps: the components sorted by `magnitude_order`, cut to
/// the ceiling fraction.
pub open spec fn reduced_spec(full: Seq<FrequencyComponent>, num: int, den: int) -> Seq<
    FrequencyComponent,
> {
    full.sort_by(mag_le()).take(keep_count(full.len() as int, num, den))
}

/// A valid retention ratio: a rational in `(0, 1]`.
pub open spec fn ratio_valid(num: int, den: int) -> bool {
    1 <= num <= den
}

/// The keep count is between 1 and the full length.
pub proof fn lemma_keep_count_bounds(len: int, num: int, den: int)
    requires
        1 <= len,
        ratio_valid(num, den),
    ensures
        1 <= keep_count(len, num, den) <= len,
{
    assert(num * len >= 1) by (nonlinear_arith)
        requires
            1 <= num && 1 <= len,
    ;
    assert(num * len <= den * len) by (nonlinear_arith)
        requires
            num <= den && 0 <= len,
    ;
    vstd::arithmetic::div_mod::lemma_div_is_ordered(den, num * len + den - 1, den);
    vstd::arithmetic::div_mod::lemma_div_by_self(den);
    vstd::arithmetic::div_mod::lemma_div_is_ordered(
        num * len + den - 1,
        den * len + den - 1,
        den,
    );
    vstd::arithmetic::div_mod::lemma_div_multiples_vanish_fancy(len, den - 1, den);
}

/// The keep count grows with the retention ratio.
pub proof fn lemma_keep_count_monotone(len: int, n1: int, d1: int, n2: int, d2: int)
    requires
        1 <= len,
        ratio_valid(n1, d1),
        ratio_valid(n2, d2),
        n1 * d2 <= n2 * d1,
    ensures
        keep_count(len, n1, d1) <= keep_count(len, n2, d2),
{
    let k2 = keep_count(len, n2, d2);
    vstd::arithmetic::div_mod::lemma_fundamental_div_mod(n2 * len + d2 - 1, d2);
    vstd::arithmetic::div_mod::lemma_mod_division_less_than_divisor(n2 * len + d2 - 1, d2);
    assert(d2 * k2 >= n2 * len);
    assert(n1 * len * d2 <= k2 * d1 * d2) by (nonlinear_arith)
        requires
            d2 * k2 >= n2 * len,
            n1 * d2 <= n2 * d1,
            1 <= len,
            1 <= d1,
            1 <= d2,
            1 <= n1,
            1 <= n2,
    ;
    assert(n1 * len <= k2 * d1) by (nonlinear_arith)
        requires
            n1 * len * d2 <= k2 * d1 * d2,
            1 <= d2,
    ;
    lemma_keep_count_bounds(len, n2, d2);
    assert(n1 * len + d1 - 1 <= k2 * d1 + d1 - 1);
    vstd::arithmetic::div_mod::lemma_div_is_ordered(n1 * len + d1 - 1, k2 * d1 + d1 - 1, d1);
    assert(d1 * k2 == k2 * d1) by (nonlinear_arith);
    vstd::arithmetic::div_mod::lemma_div_multiples_vanish_fancy(k2, d1 - 1, d1);
}

/// Reduces a full spectral model to its `ceil(num * n / den)`
/// highest-magnitude components, ordered by descending magnitude (ties by
/// ascending signed frequency index), original bins preserved.
///
/// Fails with `InvalidInput` exactly when the ratio lies outside `(0, 1]`
/// or the model is not a well-formed full spectrum.
pub fn reduce(model: &SpectralModel, ratio_num: u32, ratio_den: u32) -> (r: Result<
    SpectralModel,
    Error,
>)
    ensures
        r is Ok <==> model.is_full() && ratio_valid(ratio_num as int, ratio_den as int),
        r matches Ok(out) ==> {
            &&& out.seq_len == model.seq_len
            &&& out.components@ == reduced_spec(
                model.components@,
                ratio_num as int,
                ratio_den as int,
            )
            &&& out.components@.len() == keep_count(
                model.components@.len() as int,
                ratio_num as int,
                ratio_den as int,
            )
            &&& out.wf()
        },
{
    if !(1 <= ratio_num && ratio_num <= ratio_den) {
        return Err(Error::InvalidInput);
    }
    if !is_full_exec(model) {
        return Err(Error::InvalidInput);
    }
    let len = model.components.len();
    let sorted = sort_components(&model.components);
    proof {
        lemma_magnitude_order_total();
        model.components@.lemma_sort_by_ensures(mag_le());
        vstd::seq_lib::lemma_sorted_unique(
            sorted@,
            model.components@.sort_by(mag_le()),
            mag_le(),
        );
        lemma_keep_count_bounds(len as int, ratio_num as int, ratio_den as int);
        assert(1 <= (ratio_num as int) * (len as int) && (ratio_num as int) * (len as int)
            + ratio_den <= 0x40_0000_0000_0000int) by (nonlinear_arith)
            requires
                1 <= ratio_num <= 0x1_0000_0000int,
                1 <= ratio_den <= 0x1_0000_0000int,
                1 <= len <= SEQ_LIMIT,
        ;
    }
    let keep_wide: u64 = ((ratio_num as u64) * (len as u64) + (ratio_den as u64) - 1) / (
    ratio_den as u64);
    let keep = keep_wide as usize;
    let mut kept = sorted;
    kept.truncate(keep);
    proof {
        let full = model.components@;
        let k = keep_count(len as int, ratio_num as int, ratio_den as int);
        assert(kept@ =~= reduced_spec(full, ratio_num as int, ratio_den as int));
        broadcast use vstd::seq_lib::group_to_multiset_ensures;

        assert forall|i: int| 0 <= i < kept@.len() implies component_wf(
            #[trigger] kept@[i],
            model.seq_len as int,
        ) by {
            let srt = full.sort_by(mag_le());
            assert(srt.to_multiset().contains(kept@[i])) by {
                assert(srt[i] == kept@[i]);
            }
            assert(full.to_multiset().contains(kept@[i]));
            assert(full.contains(kept@[i]));
            let j = choose|j: int| 0 <= j < full.len() && full[j] == kept@[i];
        }
    }
    Ok(SpectralModel { components: kept, seq_len: model.seq_len })
}

/// Checks executably that a model is a well-formed full spectrum.
fn is_full_exec(model: &SpectralModel) -> (r: bool)
    ensures
        r == model.is_full(),
{
    let n = model.seq_len;
    if !(1 <= n && n <= SEQ_LIMIT && model.components.len() == n) {
        return false;
    }
    let mut i: usize = 0;
    while i < n
        invariant
            0 <= i <= n,
            1 <= n <= SEQ_LIMIT,
            model.components@.len() == n,
            model.seq_len == n,
            forall|q: int|
                0 <= q < i ==> component_wf(#[trigger] model.components@[q], n as int)
                    && model.components@[q].bin == q,
        decreases n - i,
    {
        if model.components[i].bin != i {
            return false;
        }
        if !component_wf_exec(&model.components[i], n) {
            return false;
        }
        i += 1;
    }
    true
}

/// Checks executably that one component is well-formed for length `n`.
pub(crate) fn component_wf_exec(c: &FrequencyComponent, n: usize) -> (r: bool)
    requires
        1 <= n <= SEQ_LIMIT,
    ensures
        r == component_wf(*c, n as int),
{
    if c.bin >= n {
        return false;
    }
    if c.freq != signed_freq_exec(c.bin, n) {
        return false;
    }
    if !(-COEFF_LIMIT <= c.coeff.re && c.coeff.re <= COEFF_LIMIT && -COEFF_LIMIT <= c.coeff.im
        && c.coeff.im <= COEFF_LIMIT) {
        return false;
    }
    if c.magnitude < 0 {
        return false;
    }
    let msq = c.coeff.magnitude_sq();
    let m = c.magnitude as u64;
    if m > 0xffff_ffffu64 {
        proof {
            crate::complex::lemma_mag_sq_bound(c.coeff, COEFF_LIMIT as int);
            if is_isqrt(c.magnitude as int, mag_sq(c.coeff)) {
                crate::complex::lemma_isqrt_fits(c.magnitude as int, mag_sq(c.coeff));
            }
        }
        return false;
    }
    proof {
        assert((m as int) * (m as int) <= 0xffff_ffffint * 0xffff_ffffint && ((m as int) + 1) * ((
        m as int) + 1) <= 0x1_0000_0000_0000_0000int) by (nonlinear_arith)
            requires
                0 <= m <= 0xffff_ffffu64,
        ;
    }
    if !(m * m <= msq) {
        return false;
    }
    if !((msq as u128) < ((m + 1) as u128) * ((m + 1) as u128)) {
        return false;
    }
    true
}

/// What `reduced_spec` means, spelled out: the kept components are sorted
/// by `magnitude_order`, there are exactly `keep_count` of them, and each
/// one is a component of the full spectrum.
pub proof fn lemma_reduced_spec_properties(full: Seq<FrequencyComponent>, num: int, den: int)
    requires
        1 <= full.len(),
        ratio_valid(num, den),
    ensures
        reduced_spec(full, num, den).len() == keep_count(full.len() as int, num, den),
        vstd::relations::sorted_by(reduced_spec(full, num, den), mag_le()),
        forall|i: int|
            0 <= i < reduced_spec(full, num, den).len() ==> full.contains(
                #[trigger] reduced_spec(full, num, den)[i],
            ),
{
    broadcast use vstd::seq_lib::group_to_multiset_ensures;

    let len = full.len() as int;
    lemma_keep_count_bounds(len, num, den);
    lemma_magnitude_order_total();
    full.lemma_sort_by_ensures(mag_le());
    let srt = full.sort_by(mag_le());
    assert(srt.len() == len) by {
        assert(full.to_multiset().len() == srt.to_multiset().len());
    }
    let red = reduced_spec(full, num, den);
    assert forall|i: int| 0 <= i < red.len() implies full.contains(#[trigger] red[i]) by {
        assert(srt[i] == red[i]);
        assert(srt.to_multiset().contains(red[i]));
        assert(full.to_multiset().contains(red[i]));
    }
    assert forall|u: int, v: int| 0 <= u < v < red.len() implies #[trigger] mag_le()(
        red[u],
        red[v],
    ) by {
        assert(mag_le()(srt[u], srt[v]));
    }
}

/// Retention monotonicity: for any two valid ratios `n1/d1 <= n2/d2`, the
/// smaller ratio keeps a prefix of what the larger keeps — in particular
/// never more components — and every nonempty retention keeps a component
/// of globally greatest magnitude first.
pub proof fn lemma_retention_monotonic(
    full: Seq<FrequencyComponent>,
    n1: int,
    d1: int,
    n2: int,
    d2: int,
)
    requires
        1 <= full.len(),
        ratio_valid(n1, d1),
        ratio_valid(n2, d2),
        n1 * d2 <= n2 * d1,
    ensures
        reduced_spec(full, n1, d1).len() <= reduced_spec(full, n2, d2).len(),
        reduced_spec(full, n1, d1) == reduced_spec(full, n2, d2).take(
            reduced_spec(full, n1, d1).len() as int,
        ),
        reduced_spec(full, n1, d1).len() >= 1,
        forall|i: int|
            0 <= i < full.len() ==> magnitude_order(
                reduced_spec(full, n1, d1)[0],
                #[trigger] full[i],
            ),
{
    broadcast use vstd::seq_lib::group_to_multiset_ensures;

    let len = full.len() as int;
    let k1 = keep_count(len, n1, d1);
    let k2 = keep_count(len, n2, d2);
    lemma_keep_count_bounds(len, n1, d1);
    lemma_keep_count_bounds(len, n2, d2);
    lemma_keep_count_monotone(len, n1, d1, n2, d2);
    lemma_magnitude_order_total();
    full.lemma_sort_by_ensures(mag_le());
    let srt = full.sort_by(mag_le());
    assert(srt.len() == len) by {
        vstd::seq_lib::lemma_multiset_commutative(full, Seq::empty());
        assert(full.to_multiset().len() == srt.to_multiset().len());
    }
    assert(reduced_spec(full, n1, d1) =~= reduced_spec(full, n2, d2).take(k1));
    assert forall|i: int| 0 <= i < full.len() implies magnitude_order(
        reduced_spec(full, n1, d1)[0],
        #[trigger] full[i],
    ) by {
        let leq = mag_le();
        assert(srt.to_multiset().contains(full[i])) by {
            assert(full.to_multiset().contains(full[i]));
        }
        assert(srt.contains(full[i]));
        let j = choose|j: int| 0 <= j < srt.len() && srt[j] == full[i];
        if j > 0 {
            assert(leq(srt[0], srt[j]));
        }
        assert(reduced_spec(full, n1, d1)[0] == srt[0]);
        assert(magnitude_order(srt[0], full[i]));
    }
}

} // verus!
