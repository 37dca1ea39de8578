use mandelbrot::range::{global_range, is_finite, order_key, GlobalRange};

fn bits(v: &[f64]) -> Vec<u64> {
    v.iter().map(|x| x.to_bits()).collect()
}

#[test]
fn range_of_mixed_values() {
    let v = bits(&[1.5, -2.0, 0.25, 7.0, -0.0]);
    let g = global_range(&v).unwrap();
    assert_eq!(f64::from_bits(g.min), -2.0);
    assert_eq!(f64::from_bits(g.max), 7.0);
    for &x in &v {
        assert!(order_key(g.min) <= order_key(x) && order_key(x) <= order_key(g.max));
    }
}

#[test]
fn order_key_follows_total_cmp() {
    let xs = [-f64::MAX, -1.0, -0.0, 0.0, 1e-300, 2.5, f64::MAX];
    for a in xs {
        for b in xs {
            assert_eq!(order_key(a.to_bits()).cmp(&order_key(b.to_bits())), a.total_cmp(&b));
        }
    }
}

#[test]
fn non_numeric_values_reject_the_run() {
    assert_eq!(global_range(&bits(&[1.0, f64::NAN, 2.0])), None);
    assert_eq!(global_range(&bits(&[f64::INFINITY, 2.0])), None);
    assert_eq!(global_range(&Vec::new()), None);
    assert!(!is_finite(f64::NEG_INFINITY.to_bits()));
    assert!(is_finite(f64::MIN_POSITIVE.to_bits()));
}

#[test]
fn uniform_buffer_has_degenerate_range() {
    let g = global_range(&bits(&[3.0, 3.0, 3.0])).unwrap();
    assert!(g.is_degenerate());
    let z = GlobalRange { min: (-0.0f64).to_bits(), max: 0.0f64.to_bits() };
    assert!(z.is_degenerate());
    assert!(!global_range(&bits(&[3.0, 4.0])).unwrap().is_degenerate());
}
