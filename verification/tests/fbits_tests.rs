use sentinel_cloud::fbits::{bits_is_nan, bits_le, bits_max, bits_min};

const SAMPLES: [f32; 12] = [
    0.0,
    -0.0,
    1.0,
    -1.0,
    50.5,
    -273.15,
    f32::INFINITY,
    f32::NEG_INFINITY,
    f32::MIN_POSITIVE,
    1.0e-40, // subnormal
    3.4e38,
    -3.4e38,
];

#[test]
fn nan_detection_matches_native() {
    for &v in SAMPLES.iter() {
        assert_eq!(bits_is_nan(v.to_bits()), v.is_nan());
    }
    assert!(bits_is_nan(f32::NAN.to_bits()));
}

#[test]
fn le_matches_native_comparison() {
    for &a in SAMPLES.iter() {
        for &b in SAMPLES.iter() {
            assert_eq!(bits_le(a.to_bits(), b.to_bits()), a <= b, "{} <= {}", a, b);
        }
    }
}

#[test]
fn min_max_match_native_on_non_ties() {
    for &a in SAMPLES.iter() {
        for &b in SAMPLES.iter() {
            if a == b {
                // Between equal values (notably -0.0 and +0.0) the native
                // operations may return either operand; ours is
                // deterministic, so only the float value must agree.
                assert_eq!(f32::from_bits(bits_min(a.to_bits(), b.to_bits())), a.min(b));
                assert_eq!(f32::from_bits(bits_max(a.to_bits(), b.to_bits())), a.max(b));
            } else {
                assert_eq!(bits_min(a.to_bits(), b.to_bits()), a.min(b).to_bits());
                assert_eq!(bits_max(a.to_bits(), b.to_bits()), a.max(b).to_bits());
            }
        }
    }
}

#[test]
fn min_max_ignore_nan_like_native() {
    let n = f32::NAN.to_bits();
    for &a in SAMPLES.iter() {
        assert_eq!(bits_min(a.to_bits(), n), a.to_bits());
        assert_eq!(bits_min(n, a.to_bits()), a.to_bits());
        assert_eq!(bits_max(a.to_bits(), n), a.to_bits());
        assert_eq!(bits_max(n, a.to_bits()), a.to_bits());
    }
}
