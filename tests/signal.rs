use ezformant::signal::{downsample, pre_emphasis};

#[test]
fn downsample_keeps_every_factor_th_sample() {
    let x: Vec<i32> = (0..10).collect();
    assert_eq!(downsample(&x, 3), vec![0, 3, 6, 9]);
    assert_eq!(downsample(&x, 4), vec![0, 4, 8]);
    assert_eq!(downsample(&x, 1), x);
}

#[test]
fn downsample_of_floats() {
    let x = vec![0.5, 1.5, -2.0, 3.25, 4.0];
    assert_eq!(downsample(&x, 2), vec![0.5, -2.0, 4.0]);
}

#[test]
fn downsample_edge_cases() {
    let empty: Vec<f64> = Vec::new();
    assert!(downsample(&empty, 2).is_empty());
    assert_eq!(downsample(&[7u8, 8, 9], 100), vec![7]);
}

#[test]
fn pre_emphasis_walks_backward() {
    // alpha = 0.5 on [1, 2, 3]:
    //   x[2] = 3 - 0.5 * 2 = 2, x[1] = 2 - 0.5 * 1 = 1.5, x[0] = 0.5 * 1 = 0.5.
    // A forward walk would give 2.25 for the last sample.
    let alpha = 0.5;
    let mut x = vec![1.0, 2.0, 3.0];
    pre_emphasis(&mut x, |v, prev| v - alpha * prev, |v| (1.0 - alpha) * v);
    assert_eq!(x, vec![0.5, 1.5, 2.0]);
    assert_ne!(x[2], 2.25);
}

#[test]
fn pre_emphasis_typical_coefficient() {
    let alpha = 0.97;
    let mut x: Vec<f64> = vec![1.0, 1.0, 1.0, 1.0];
    pre_emphasis(&mut x, |v, prev| v - alpha * prev, |v| (1.0 - alpha) * v);
    for (got, want) in x.iter().zip([0.03, 0.03, 0.03, 0.03]) {
        assert!((got - want).abs() < 1e-12);
    }
}

#[test]
fn pre_emphasis_edge_frames() {
    let mut empty: Vec<f64> = Vec::new();
    pre_emphasis(&mut empty, |v, prev| v - 0.9 * prev, |v| 0.1 * v);
    assert!(empty.is_empty());

    let mut one = vec![10i64];
    pre_emphasis(&mut one, |v, prev| v - prev, |v| v * 2);
    assert_eq!(one, vec![20]);
}
