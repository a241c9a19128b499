use epicycles::resample::convert_to_shape;
use epicycles::Complex;

fn cx(re: i64, im: i64) -> Complex {
    Complex { re, im }
}

#[test]
fn interpolation_quarters_a_segment() {
    // The two-point segment (0,0) -> (10,0) resampled to five points gives
    // the exact quarter points; coordinates carry two decimal places as
    // units, so 2.5 is 250.
    let input = vec![cx(0, 0), cx(1000, 0)];
    let out = convert_to_shape(&input, 5).unwrap();
    assert_eq!(
        out,
        vec![cx(0, 0), cx(250, 0), cx(500, 0), cx(750, 0), cx(1000, 0)]
    );
}

#[test]
fn interpolation_keeps_every_vertex() {
    let input = vec![cx(0, 0), cx(600, 0), cx(600, 600)];
    let out = convert_to_shape(&input, 7).unwrap();
    assert_eq!(out.len(), 7);
    assert_eq!(out[0], cx(0, 0));
    // Vertex 1 of 2 lands on output index (7-1)*1/(3-1) == 3.
    assert_eq!(out[3], cx(600, 0));
    assert_eq!(out[6], cx(600, 600));
    // The gaps are evenly spaced.
    assert_eq!(out[1], cx(200, 0));
    assert_eq!(out[2], cx(400, 0));
    assert_eq!(out[4], cx(600, 200));
    assert_eq!(out[5], cx(600, 400));
}

#[test]
fn decimation_keeps_endpoints_exactly() {
    let input: Vec<Complex> = (0..10).map(|i| cx(i * 7 + 3, -i * 11)).collect();
    let out = convert_to_shape(&input, 4).unwrap();
    assert_eq!(out.len(), 4);
    assert_eq!(out[0], input[0]);
    assert_eq!(out[3], input[9]);
    // Each output point is one of the input points, in order.
    assert_eq!(out[1], input[3]);
    assert_eq!(out[2], input[6]);
}

#[test]
fn output_length_always_matches_request() {
    let input: Vec<Complex> = (0..8).map(|i| cx(i, i * i)).collect();
    for n in 2..20usize {
        let out = convert_to_shape(&input, n).unwrap();
        assert_eq!(out.len(), n);
    }
}

#[test]
fn same_length_input_is_kept_as_is() {
    let input: Vec<Complex> = (0..5).map(|i| cx(i * 2, 9 - i)).collect();
    let out = convert_to_shape(&input, 5).unwrap();
    assert_eq!(out, input);
}

#[test]
fn resample_works_up_to_the_length_limit() {
    // The sequence-length limit is accepted exactly, one past it refused.
    let limit = 0x10_0000usize;
    let input = vec![cx(0, 0), cx(1000, 1000)];
    assert_eq!(convert_to_shape(&input, limit).unwrap().len(), limit);
    assert!(convert_to_shape(&input, limit + 1).is_err());
}

#[test]
fn resample_rejects_invalid_input() {
    assert!(convert_to_shape(&vec![cx(1, 1)], 5).is_err());
    assert!(convert_to_shape(&vec![], 5).is_err());
    assert!(convert_to_shape(&vec![cx(0, 0), cx(1, 1)], 1).is_err());
    assert!(convert_to_shape(&vec![cx(0, 0), cx(1, 1)], 0).is_err());
    // A coordinate beyond the fixed-point limit is refused rather than
    // silently overflowing.
    assert!(convert_to_shape(&vec![cx(0, 0), cx(0x7000_0000_0000_0000, 0)], 3).is_err());
    // The same inputs within limits succeed.
    assert!(convert_to_shape(&vec![cx(0, 0), cx(1, 1)], 2).is_ok());
}
