use epicycles::complex::isqrt64;
use epicycles::spectrum::{analyze, fft_points, reduce, SpectralModel};
use epicycles::Complex;

fn cx(re: i64, im: i64) -> Complex {
    Complex { re, im }
}

/// The forward table: entry m stands for scale * e^(-i*2*pi*m/n).
fn twiddle_table(n: usize, scale: i64) -> Vec<Complex> {
    (0..n)
        .map(|m| {
            let th = -2.0 * std::f64::consts::PI * (m as f64) / (n as f64);
            cx(
                (th.cos() * scale as f64).round() as i64,
                (th.sin() * scale as f64).round() as i64,
            )
        })
        .collect()
}

#[test]
fn isqrt_is_exact() {
    assert_eq!(isqrt64(0), 0);
    assert_eq!(isqrt64(1), 1);
    assert_eq!(isqrt64(2), 1);
    assert_eq!(isqrt64(3), 1);
    assert_eq!(isqrt64(4), 2);
    assert_eq!(isqrt64(10), 3);
    assert_eq!(isqrt64(25), 5);
    assert_eq!(isqrt64(u64::MAX), 0xffff_ffff);
}

#[test]
fn rotating_point_square_has_one_component() {
    // A unit square traced as a rotating point, at a million units per
    // coordinate unit: the full spectrum holds exactly one non-zero
    // component, at frequency index 1, magnitude one unit, phase zero
    // (a positive real coefficient).
    let s = 1_000_000i64;
    let points = vec![cx(s, 0), cx(0, s), cx(-s, 0), cx(0, -s)];
    // For n == 4 the table is exact in integers.
    let twiddle = vec![cx(s, 0), cx(0, -s), cx(-s, 0), cx(0, s)];
    assert_eq!(twiddle, twiddle_table(4, s));
    let model = analyze(&points, &twiddle, s).unwrap();
    assert_eq!(model.seq_len, 4);
    assert_eq!(model.components.len(), 4);
    let freqs: Vec<i64> = model.components.iter().map(|c| c.freq).collect();
    assert_eq!(freqs, vec![0, 1, 2, -1]);
    assert_eq!(model.components[1].coeff, cx(s, 0));
    assert_eq!(model.components[1].magnitude, s);
    for k in [0usize, 2, 3] {
        assert_eq!(model.components[k].coeff, cx(0, 0));
        assert_eq!(model.components[k].magnitude, 0);
    }
}

#[test]
fn fft_rejects_invalid_input() {
    let s = 1000i64;
    let square = vec![cx(s, 0), cx(0, s), cx(-s, 0), cx(0, -s)];
    let twiddle = twiddle_table(4, s);
    assert!(fft_points(&vec![], &vec![], s).is_err());
    assert!(fft_points(&square, &twiddle_table(5, s), s).is_err());
    assert!(fft_points(&square, &twiddle, 0).is_err());
    assert!(fft_points(&square, &twiddle, -3).is_err());
    // A table entry beyond the scale is refused.
    assert!(fft_points(&square, &vec![cx(s + 1, 0); 4], s).is_err());
    assert!(fft_points(&square, &twiddle, s).is_ok());
}

#[test]
fn inverse_transform_reproduces_the_samples() {
    // The inverse transform of the full normalized spectrum reproduces the
    // boundary sequence, up to the fixed-point quantization of one unit —
    // with coordinates near a billion units, a relative error around 1e-8.
    let scale = 0x4000_0000i64;
    let big = 800_000_000i64;
    let points = vec![
        cx(big, 0),
        cx(big / 2, big / 2),
        cx(0, big),
        cx(-big / 2, big / 2),
        cx(-big, 0),
        cx(-big / 2, -big / 2),
        cx(0, -big),
        cx(big / 2, -big / 2),
    ];
    let n = points.len();
    let twiddle = twiddle_table(n, scale);
    let spectrum = fft_points(&points, &twiddle, scale).unwrap();
    let mut worst = 0f64;
    for t in 0..n {
        let mut re = 0f64;
        let mut im = 0f64;
        for k in 0..n {
            let th = 2.0 * std::f64::consts::PI * (k as f64) * (t as f64) / (n as f64);
            re += spectrum[k].re as f64 * th.cos() - spectrum[k].im as f64 * th.sin();
            im += spectrum[k].re as f64 * th.sin() + spectrum[k].im as f64 * th.cos();
        }
        worst = worst.max((re - points[t].re as f64).abs());
        worst = worst.max((im - points[t].im as f64).abs());
    }
    // Sixteen units of error on coordinates of eight hundred million:
    // relative 2e-8.
    assert!(worst <= 16.0, "inverse transform error {} units", worst);
}

fn descending_magnitudes_model() -> SpectralModel {
    // The rotating-point square: bin 1 carries the whole signal and every
    // other bin is zero, so reduction order is bin 1 first, then the zero
    // bins by ascending signed frequency index.
    let s = 1_000_000i64;
    let points = vec![cx(s, 0), cx(0, s), cx(-s, 0), cx(0, -s)];
    let twiddle = vec![cx(s, 0), cx(0, -s), cx(-s, 0), cx(0, s)];
    analyze(&points, &twiddle, s).unwrap()
}

#[test]
fn reduction_keeps_top_magnitudes() {
    let model = descending_magnitudes_model();
    // ceil(1/4 * 4) == 1: only the strongest component stays.
    let one = reduce(&model, 1, 4).unwrap();
    assert_eq!(one.seq_len, 4);
    assert_eq!(one.components.len(), 1);
    assert_eq!(one.components[0].freq, 1);
    assert_eq!(one.components[0].magnitude, 1_000_000);
    // ceil(1/2 * 4) == 2: the zero components tie and ascending signed
    // frequency index breaks the tie, so bin 3 (index -1) comes next.
    let two = reduce(&model, 1, 2).unwrap();
    assert_eq!(two.components.len(), 2);
    assert_eq!(two.components[0].freq, 1);
    assert_eq!(two.components[1].freq, -1);
    assert_eq!(two.components[1].bin, 3);
    // The smaller retention's components are a prefix of the larger's.
    assert_eq!(two.components[0], one.components[0]);
    // ceil(1 * 4) == 4: everything stays, bins preserved.
    let all = reduce(&model, 1, 1).unwrap();
    assert_eq!(all.components.len(), 4);
    let bins: Vec<usize> = all.components.iter().map(|c| c.bin).collect();
    assert_eq!(bins, vec![1, 3, 0, 2]);
}

#[test]
fn reduction_count_is_a_ceiling() {
    let model = descending_magnitudes_model();
    // ceil(1/3 * 4) == 2.
    assert_eq!(reduce(&model, 1, 3).unwrap().components.len(), 2);
    // ceil(3/4 * 4) == 3.
    assert_eq!(reduce(&model, 3, 4).unwrap().components.len(), 3);
}

#[test]
fn reduction_rejects_invalid_ratio() {
    let model = descending_magnitudes_model();
    assert!(reduce(&model, 0, 4).is_err());
    assert!(reduce(&model, 5, 4).is_err());
    assert!(reduce(&model, 1, 0).is_err());
    // A reduced model is no longer full, so reducing twice is refused.
    let half = reduce(&model, 1, 2).unwrap();
    assert!(reduce(&half, 1, 1).is_err());
}
