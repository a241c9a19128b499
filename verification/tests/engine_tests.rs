use epicycles::engine::EpicycleEngine;
use epicycles::spectrum::{analyze, reduce, SpectralModel};
use epicycles::Complex;

fn cx(re: i64, im: i64) -> Complex {
    Complex { re, im }
}

/// The engine's table: entry m stands for scale * e^(+i*2*pi*m/n).
fn rot_table(n: usize, scale: i64) -> Vec<Complex> {
    (0..n)
        .map(|m| {
            let th = 2.0 * std::f64::consts::PI * (m as f64) / (n as f64);
            cx(
                (th.cos() * scale as f64).round() as i64,
                (th.sin() * scale as f64).round() as i64,
            )
        })
        .collect()
}

fn square_model() -> (SpectralModel, Vec<Complex>, i64) {
    let s = 1_000_000i64;
    let points = vec![cx(s, 0), cx(0, s), cx(-s, 0), cx(0, -s)];
    let twiddle = vec![cx(s, 0), cx(0, -s), cx(-s, 0), cx(0, s)];
    let model = analyze(&points, &twiddle, s).unwrap();
    let rot = vec![cx(s, 0), cx(0, s), cx(-s, 0), cx(0, -s)];
    assert_eq!(rot, rot_table(4, s));
    (model, rot, s)
}

#[test]
fn square_engine_retraces_the_square() {
    let s = 1_000_000i64;
    let (model, rot, scale) = square_model();
    let mut engine = EpicycleEngine::new(model, rot, scale).unwrap();
    // Tick t reconstructs the boundary point at phase t/4 of a turn; four
    // ticks reproduce the four original points in order, then complete.
    let mut last_circles = 0;
    for _ in 0..4 {
        let descs = engine.tick();
        last_circles = descs.len();
    }
    assert_eq!(
        engine.orbit_trail,
        vec![cx(0, s), cx(-s, 0), cx(0, -s), cx(s, 0)]
    );
    assert_eq!(last_circles, 4);
    assert!(engine.completed);
    assert_eq!(engine.tick_count, 4);
}

#[test]
fn completed_engine_ignores_further_ticks() {
    let (model, rot, scale) = square_model();
    let mut engine = EpicycleEngine::new(model, rot, scale).unwrap();
    for _ in 0..4 {
        engine.tick();
    }
    assert!(engine.completed);
    let trail = engine.orbit_trail.clone();
    let descs = engine.tick();
    assert!(descs.is_empty());
    assert_eq!(engine.orbit_trail, trail);
    assert_eq!(engine.tick_count, 4);
    assert!(engine.completed);
}

#[test]
fn engines_from_one_model_are_deterministic() {
    let (model, rot, scale) = square_model();
    let mut a = EpicycleEngine::new(model.clone(), rot.clone(), scale).unwrap();
    let mut b = EpicycleEngine::new(model, rot, scale).unwrap();
    for _ in 0..10 {
        a.tick();
        b.tick();
    }
    assert_eq!(a.orbit_trail, b.orbit_trail);
    assert_eq!(a.tick_count, b.tick_count);
    assert_eq!(a.completed, b.completed);
}

#[test]
fn descriptors_chain_from_the_origin() {
    let (model, rot, scale) = square_model();
    let mut engine = EpicycleEngine::new(model, rot, scale).unwrap();
    let descs = engine.tick();
    assert_eq!(descs.len(), 4);
    assert_eq!(descs[0].center, cx(0, 0));
    for w in descs.windows(2) {
        assert_eq!(w[0].tip, w[1].center);
    }
    // The last tip is the traced point.
    assert_eq!(descs[3].tip, engine.orbit_trail[0]);
    // Radii are the components' magnitudes: only bin 1 is non-zero.
    let radii: Vec<i64> = descs.iter().map(|d| d.radius).collect();
    assert_eq!(radii, vec![0, 1_000_000, 0, 0]);
}

#[test]
fn reduced_model_drives_a_shorter_chain() {
    let (model, rot, scale) = square_model();
    let reduced = reduce(&model, 1, 4).unwrap();
    let mut engine = EpicycleEngine::new(reduced, rot, scale).unwrap();
    let descs = engine.tick();
    // Only the strongest component is left, but the period is still the
    // original four ticks.
    assert_eq!(descs.len(), 1);
    assert_eq!(engine.seq_len, 4);
    for _ in 0..3 {
        engine.tick();
    }
    assert!(engine.completed);
    // The single retained component already retraces the square exactly.
    let s = 1_000_000i64;
    assert_eq!(
        engine.orbit_trail,
        vec![cx(0, s), cx(-s, 0), cx(0, -s), cx(s, 0)]
    );
}

#[test]
fn engine_rejects_invalid_construction() {
    let (model, rot, scale) = square_model();
    // A table of the wrong length is refused.
    assert!(EpicycleEngine::new(model.clone(), rot[..3].to_vec(), scale).is_err());
    // A scale outside the limits is refused.
    assert!(EpicycleEngine::new(model.clone(), rot.clone(), 0).is_err());
    // A table entry beyond the scale is refused.
    assert!(EpicycleEngine::new(model.clone(), vec![cx(scale + 1, 0); 4], scale).is_err());
    // A model whose magnitude field is wrong is refused.
    let mut bad = model.clone();
    bad.components[1].magnitude += 1;
    assert!(EpicycleEngine::new(bad, rot.clone(), scale).is_err());
    assert!(EpicycleEngine::new(model, rot, scale).is_ok());
}
