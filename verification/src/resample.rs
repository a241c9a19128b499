//! The boundary resampler.
//!
//! A raw closed polygon of at least two points is normalized to a sequence
//! of exactly `result_points_num` points. A longer input is decimated: each
//! output index picks one input point through a proportional index formula,
//! so the output is an index-subsequence of the input and both endpoints are
//! kept exactly. A shorter input is interpolated: every input vertex lands
//! on exactly one output index and the output indices between two mapped
//! vertices are evenly spaced affine combinations of those vertices.

use vstd::prelude::*;

use crate::complex::{all_in_range, div_trunc, in_range, Complex, COORD_LIMIT, SEQ_LIMIT};
use crate::error::Error;

verus! {

/// The input index that output index `i` picks under decimation:
/// `floor((raw - 1) * i / (n - 1))`.
pub open spec fn decimate_index(raw: int, n: int, i: int) -> int
    recommends
        n >= 2,
{
    (raw - 1) * i / (n - 1)
}

/// The whole decimated output: output index `i` holds the input point at
/// `decimate_index`.
pub open spec fn decimated(input: Seq<Complex>, n: int) -> Seq<Complex>
    recommends
        n >= 2,
{
    Seq::new(n as nat, |i: int| input[decimate_index(input.len() as int, n, i)])
}

/// The output index that input vertex `j` lands on under interpolation:
/// `floor((n - 1) * j / (raw - 1))`.
pub open spec fn vertex_index(raw: int, n: int, j: int) -> int
    recommends
        raw >= 2,
{
    (n - 1) * j / (raw - 1)
}

/// The affine combination `a + (b - a) * i / m`, componentwise, with the
/// division rounding toward zero. At `i == 0` it is `a` and at `i == m` it
/// is exactly `b`.
pub open spec fn lerp(a: Complex, b: Complex, i: int, m: int) -> Complex
    recommends
        m >= 1,
{
    Complex {
        re: (a.re + div_trunc((b.re - a.re) * i, m)) as i64,
        im: (a.im + div_trunc((b.im - a.im) * i, m)) as i64,
    }
}

/// The `m` interpolated points strictly after `a`, ending exactly on `b`.
pub open spec fn segment_points(a: Complex, b: Complex, m: int) -> Seq<Complex>
    recommends
        m >= 1,
{
    Seq::new(m as nat, |i: int| lerp(a, b, i + 1, m))
}

/// The interpolated output after consuming input vertices `0 ..= j`:
/// vertex 0 as-is, then for each further vertex the evenly spaced points
/// that close the gap up to that vertex's output index.
pub open spec fn interpolated(input: Seq<Complex>, n: int, j: int) -> Seq<Complex>
    recommends
        input.len() >= 2,
        0 <= j < input.len(),
    decreases j,
{
    if j <= 0 {
        seq![input[0]]
    } else {
        let raw = input.len() as int;
        interpolated(input, n, j - 1) + segment_points(
            input[j - 1],
            input[j],
            vertex_index(raw, n, j) - vertex_index(raw, n, j - 1),
        )
    }
}

/// The inputs on which resampling succeeds: at least two points and a
/// target length of at least two (anything less would make the index
/// formulas divide by zero), within the crate's fixed-point limits.
pub open spec fn resample_valid(input: Seq<Complex>, n: int) -> bool {
    &&& 2 <= input.len() <= SEQ_LIMIT
    &&& 2 <= n <= SEQ_LIMIT
    &&& all_in_range(input, COORD_LIMIT as int)
}

/// Resamples a closed boundary to exactly `result_points_num` points.
///
/// Fails with `InvalidInput` exactly when the input has fewer than two
/// points, the target length is below two, either length exceeds
/// `SEQ_LIMIT`, or a coordinate exceeds `COORD_LIMIT`.
pub fn convert_to_shape(points: &Vec<Complex>, result_points_num: usize) -> (r: Result<
    Vec<Complex>,
    Error,
>)
    ensures
        r is Ok <==> resample_valid(points@, result_points_num as int),
        r matches Ok(out) ==> {
            let n = result_points_num as int;
            let raw = points@.len() as int;
            &&& out@.len() == n
            &&& raw >= n ==> out@ == decimated(points@, n)
            &&& raw < n ==> out@ == interpolated(points@, n, raw - 1)
            &&& out@[0] == points@[0]
            &&& out@[n - 1] == points@[raw - 1]
        },
{
    let raw = points.len();
    let n = result_points_num;
    if !(2 <= raw && raw <= SEQ_LIMIT && 2 <= n && n <= SEQ_LIMIT) {
        return Err(Error::InvalidInput);
    }
    if !crate::complex::coords_within(points, COORD_LIMIT) {
        return Err(Error::InvalidInput);
    }
    if raw >= n {
        let out = decimate(points, n);
        proof {
            lemma_decimate_endpoints(points@, n as int);
        }
        Ok(out)
    } else {
        let out = interpolate(points, n);
        proof {
            lemma_interpolated_vertices(points@, n as int, raw as int - 1);
            assert(out@[0] == points@[0]);
        }
        Ok(out)
    }
}

/// The decimation path: each output index picks one input point.
fn decimate(points: &Vec<Complex>, n: usize) -> (out: Vec<Complex>)
    requires
        2 <= n <= points@.len() <= SEQ_LIMIT,
    ensures
        out@ == decimated(points@, n as int),
        out@.len() == n,
{
    let raw = points.len();
    let mut out: Vec<Complex> = Vec::new();
    let mut i: usize = 0;
    while i < n
        invariant
            0 <= i <= n,
            2 <= n <= points@.len() <= SEQ_LIMIT,
            points@.len() == raw,
            out@.len() == i,
            forall|k: int|
                0 <= k < i ==> out@[k] == points@[decimate_index(raw as int, n as int, k)],
        decreases n - i,
    {
        proof {
            lemma_decimate_index_in_bounds(raw as int, n as int, i as int);
            assert((raw - 1) as int * i as int <= 0x100_0000_0000int) by (nonlinear_arith)
                requires
                    0 <= raw <= SEQ_LIMIT,
                    0 <= i <= SEQ_LIMIT,
            ;
        }
        let pick_wide: u64 = ((raw - 1) as u64) * (i as u64) / ((n - 1) as u64);
        let pick = pick_wide as usize;
        out.push(points[pick]);
        i += 1;
    }
    proof {
        assert(out@ =~= decimated(points@, n as int));
    }
    out
}

/// The decimation index is a valid input index for every output index.
proof fn lemma_decimate_index_in_bounds(raw: int, n: int, i: int)
    requires
        2 <= n <= raw,
        0 <= i < n,
    ensures
        0 <= decimate_index(raw, n, i) <= raw - 1,
        i == n - 1 ==> decimate_index(raw, n, i) == raw - 1,
        i == 0 ==> decimate_index(raw, n, i) == 0,
{
    vstd::arithmetic::div_mod::lemma_div_pos_is_pos((raw - 1) * i, n - 1);
    assert((raw - 1) * i >= 0) by (nonlinear_arith)
        requires
            raw >= 2,
            i >= 0,
    ;
    assert((raw - 1) * i <= (raw - 1) * (n - 1)) by (nonlinear_arith)
        requires
            raw >= 2,
            0 <= i <= n - 1,
    ;
    vstd::arithmetic::div_mod::lemma_div_is_ordered((raw - 1) * i, (raw - 1) * (n - 1), n - 1);
    vstd::arithmetic::div_mod::lemma_div_by_multiple(raw - 1, n - 1);
    if i == 0 {
        assert((raw - 1) * 0 == 0);
        vstd::arithmetic::div_mod::lemma_div_of0(n - 1);
    }
}

/// Decimation keeps both endpoints exactly.
proof fn lemma_decimate_endpoints(input: Seq<Complex>, n: int)
    requires
        2 <= n <= input.len(),
    ensures
        decimated(input, n)[0] == input[0],
        decimated(input, n)[n - 1] == input[input.len() - 1],
{
    lemma_decimate_index_in_bounds(input.len() as int, n, 0);
    lemma_decimate_index_in_bounds(input.len() as int, n, n - 1);
}

/// The interpolation path: walk the input segments and fill each gap with
/// evenly spaced affine combinations.
fn interpolate(points: &Vec<Complex>, n: usize) -> (out: Vec<Complex>)
    requires
        2 <= points@.len() < n <= SEQ_LIMIT,
        all_in_range(points@, COORD_LIMIT as int),
    ensures
        out@ == interpolated(points@, n as int, points@.len() - 1),
        out@.len() == n,
{
    let raw = points.len();
    let mut out: Vec<Complex> = Vec::new();
    out.push(points[0]);
    let mut prev_target: usize = 0;
    let mut j: usize = 1;
    while j < raw
        invariant
            1 <= j <= raw,
            2 <= raw < n <= SEQ_LIMIT,
            points@.len() == raw,
            all_in_range(points@, COORD_LIMIT as int),
            prev_target == vertex_index(raw as int, n as int, j - 1),
            0 <= prev_target <= n - 1,
            out@ == interpolated(points@, n as int, j - 1),
            out@.len() == 1 + prev_target,
        decreases raw - j,
    {
        proof {
            lemma_vertex_index_step(raw as int, n as int, j as int);
            assert((n - 1) as int * j as int <= 0x100_0000_0000int) by (nonlinear_arith)
                requires
                    0 <= n <= SEQ_LIMIT,
                    0 <= j <= SEQ_LIMIT,
            ;
        }
        let target_wide: u64 = ((n - 1) as u64) * (j as u64) / ((raw - 1) as u64);
        let target = target_wide as usize;
        let m = target - prev_target;
        let a = points[j - 1];
        let b = points[j];
        let mut i: usize = 1;
        while i <= m
            invariant
                1 <= i <= m + 1,
                1 <= m,
                in_range(a, COORD_LIMIT as int),
                in_range(b, COORD_LIMIT as int),
                m <= SEQ_LIMIT,
                out@.len() == 1 + prev_target + i - 1,
                out@ == interpolated(points@, n as int, j - 1) + segment_points(a, b, m as int)
                    .take(i - 1),
                1 <= j < raw,
                points@.len() == raw,
                2 <= raw < n <= SEQ_LIMIT,
                all_in_range(points@, COORD_LIMIT as int),
                a == points@[j - 1],
                b == points@[j as int],
                prev_target + m <= n - 1,
            decreases m + 1 - i,
        {
            let p = lerp_exec(a, b, i, m);
            out.push(p);
            proof {
                assert(out@ =~= interpolated(points@, n as int, j - 1) + segment_points(
                    a,
                    b,
                    m as int,
                ).take(i as int));
            }
            i += 1;
        }
        proof {
            assert(segment_points(a, b, m as int).take(m as int) =~= segment_points(
                a,
                b,
                m as int,
            ));
            assert(out@ =~= interpolated(points@, n as int, j as int));
        }
        prev_target = target;
        j += 1;
    }
    proof {
        lemma_vertex_index_last(raw as int, n as int);
    }
    out
}

/// The executable affine combination.
fn lerp_exec(a: Complex, b: Complex, i: usize, m: usize) -> (r: Complex)
    requires
        1 <= i <= m <= SEQ_LIMIT,
        in_range(a, COORD_LIMIT as int),
        in_range(b, COORD_LIMIT as int),
    ensures
        r == lerp(a, b, i as int, m as int),
        in_range(r, 3 * COORD_LIMIT),
{
    proof {
        lemma_lerp_bounds(a.re as int, b.re as int, i as int, m as int);
        lemma_lerp_bounds(a.im as int, b.im as int, i as int, m as int);
    }
    let dre = (b.re - a.re) * (i as i64) / (m as i64);
    let dim = (b.im - a.im) * (i as i64) / (m as i64);
    Complex { re: a.re + dre, im: a.im + dim }
}

/// Bounds for one component of an affine combination: the scaled difference
/// fits in `i64` and the truncated quotient stays within twice the
/// coordinate limit.
proof fn lemma_lerp_bounds(x: int, y: int, i: int, m: int)
    requires
        1 <= i <= m <= SEQ_LIMIT,
        -(COORD_LIMIT as int) <= x <= COORD_LIMIT as int,
        -(COORD_LIMIT as int) <= y <= COORD_LIMIT as int,
    ensures
        -0x8_0000_0000_0000 <= (y - x) * i <= 0x8_0000_0000_0000,
        -(2 * COORD_LIMIT as int) <= div_trunc((y - x) * i, m) <= 2 * COORD_LIMIT as int,
{
    assert(-((2 * COORD_LIMIT as int) * m) <= (y - x) * i <= (2 * COORD_LIMIT as int) * m
        && -0x8_0000_0000_0000 <= (y - x) * i <= 0x8_0000_0000_0000) by (nonlinear_arith)
        requires
            1 <= i <= m <= SEQ_LIMIT,
            -(2 * COORD_LIMIT as int) <= y - x <= 2 * COORD_LIMIT as int,
    ;
    crate::complex::lemma_div_trunc_bound_pub((y - x) * i, m, 2 * COORD_LIMIT as int);
}

/// Consecutive vertex indices differ by at least one and stay within the
/// output range, so each gap holds at least one new point.
proof fn lemma_vertex_index_step(raw: int, n: int, j: int)
    requires
        2 <= raw < n,
        1 <= j < raw,
    ensures
        vertex_index(raw, n, j - 1) + 1 <= vertex_index(raw, n, j),
        vertex_index(raw, n, j) <= n - 1,
        j == 1 ==> vertex_index(raw, n, 0) == 0,
{
    let d = raw - 1;
    assert((n - 1) * j == (n - 1) * (j - 1) + (n - 1)) by (nonlinear_arith);
    assert((n - 1) * (j - 1) + (n - 1) >= (n - 1) * (j - 1) + d + 1);
    vstd::arithmetic::div_mod::lemma_div_is_ordered(
        (n - 1) * (j - 1) + d,
        (n - 1) * j,
        d,
    );
    vstd::arithmetic::div_mod::lemma_div_plus_one((n - 1) * (j - 1), d);
    assert((n - 1) * j <= (n - 1) * (raw - 1)) by (nonlinear_arith)
        requires
            n >= 2,
            j <= raw - 1,
    ;
    vstd::arithmetic::div_mod::lemma_div_is_ordered((n - 1) * j, (n - 1) * d, d);
    vstd::arithmetic::div_mod::lemma_div_by_multiple(n - 1, d);
    if j == 1 {
        assert((n - 1) * 0 == 0);
        vstd::arithmetic::div_mod::lemma_div_of0(d);
    }
}

/// The last vertex lands exactly on the last output index.
proof fn lemma_vertex_index_last(raw: int, n: int)
    requires
        2 <= raw < n,
    ensures
        vertex_index(raw, n, raw - 1) == n - 1,
{
    vstd::arithmetic::div_mod::lemma_div_by_multiple(n - 1, raw - 1);
}

/// Every input vertex appears in the interpolated output at its mapped
/// index; in particular the first and last output points are the first and
/// last input points.
pub proof fn lemma_interpolated_vertices(input: Seq<Complex>, n: int, j: int)
    requires
        2 <= input.len() < n <= SEQ_LIMIT,
        all_in_range(input, COORD_LIMIT as int),
        0 <= j < input.len(),
    ensures
        interpolated(input, n, j).len() == 1 + vertex_index(input.len() as int, n, j),
        forall|v: int|
            0 <= v <= j ==> interpolated(input, n, j)[vertex_index(input.len() as int, n, v)]
                == input[v],
    decreases j,
{
    let raw = input.len() as int;
    if j == 0 {
        assert(vertex_index(raw, n, 0) == 0) by {
            assert((n - 1) * 0 == 0);
            vstd::arithmetic::div_mod::lemma_div_of0(raw - 1);
        }
    } else {
        lemma_interpolated_vertices(input, n, j - 1);
        lemma_vertex_index_step(raw, n, j);
        let lo = vertex_index(raw, n, j - 1);
        let hi = vertex_index(raw, n, j);
        let m = hi - lo;
        let seg = segment_points(input[j - 1], input[j], m);
        lemma_lerp_at_m(input[j - 1], input[j], m);
        assert(interpolated(input, n, j)[hi] == seg[m - 1]);
        assert(seg[m - 1] == lerp(input[j - 1], input[j], m, m));
        assert forall|v: int| 0 <= v <= j implies interpolated(input, n, j)[vertex_index(
            raw,
            n,
            v,
        )] == input[v] by {
            if v < j {
                lemma_vertex_index_monotone(raw, n, v, j - 1);
                assert(interpolated(input, n, j)[vertex_index(raw, n, v)] == interpolated(
                    input,
                    n,
                    j - 1,
                )[vertex_index(raw, n, v)]);
            }
        }
    }
}

/// Vertex indices are monotone in the vertex.
proof fn lemma_vertex_index_monotone(raw: int, n: int, u: int, v: int)
    requires
        2 <= raw < n,
        0 <= u <= v < raw,
    ensures
        vertex_index(raw, n, u) <= vertex_index(raw, n, v),
{
    assert((n - 1) * u <= (n - 1) * v) by (nonlinear_arith)
        requires
            n >= 2,
            u <= v,
    ;
    vstd::arithmetic::div_mod::lemma_div_is_ordered((n - 1) * u, (n - 1) * v, raw - 1);
}

/// The affine combination at `i == m` is exactly the far endpoint.
proof fn lemma_lerp_at_m(a: Complex, b: Complex, m: int)
    requires
        m >= 1,
        in_range(a, COORD_LIMIT as int),
        in_range(b, COORD_LIMIT as int),
    ensures
        lerp(a, b, m, m) == b,
{
    lemma_div_trunc_exact(b.re - a.re, m);
    lemma_div_trunc_exact(b.im - a.im, m);
}

/// Truncating division recovers an exact multiple: `(d * m) / m == d`.
proof fn lemma_div_trunc_exact(d: int, m: int)
    requires
        m >= 1,
    ensures
        div_trunc(d * m, m) == d,
{
    if d >= 0 {
        vstd::arithmetic::div_mod::lemma_div_by_multiple(d, m);
    } else {
        assert(-(d * m) == (-d) * m) by (nonlinear_arith);
        assert(d * m < 0) by (nonlinear_arith)
            requires
                d < 0,
                m >= 1,
        ;
        vstd::arithmetic::div_mod::lemma_div_by_multiple(-d, m);
    }
}

} // verus!
