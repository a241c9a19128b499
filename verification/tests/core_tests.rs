use epicycles::complex::isqrt64;
use epicycles::{Complex, Error};

fn cx(re: i64, im: i64) -> Complex {
    Complex { re, im }
}

#[test]
fn rotation_is_exact_complex_multiplication() {
    let scale = 100i64;
    // A quarter turn: (10, 0) times (0, 100) / 100 == (0, 10).
    assert_eq!(cx(10, 0).rotate(cx(0, scale), scale), cx(0, 10));
    // A half turn.
    assert_eq!(cx(10, 5).rotate(cx(-scale, 0), scale), cx(-10, -5));
    // A general product: (3 + 4i) * (3 + 4i) / 5 == (-7 + 24i) / 5,
    // truncated componentwise.
    assert_eq!(cx(3, 4).rotate(cx(3, 4), 5), cx(-1, 4));
    // Truncation rounds toward zero on both signs.
    assert_eq!(cx(7, -7).rotate(cx(3, 0), 10), cx(2, -2));
}

#[test]
fn addition_and_magnitude() {
    assert_eq!(cx(3, -4).plus(cx(-1, 9)), cx(2, 5));
    assert_eq!(cx(3, 4).magnitude_sq(), 25);
    assert_eq!(isqrt64(cx(3, 4).magnitude_sq()), 5);
    assert_eq!(isqrt64(cx(1, 1).magnitude_sq()), 1);
}

#[test]
fn error_describes_itself() {
    assert_eq!(Error::InvalidInput.describe(), "invalid input");
}
