use lana_khora::bytes::{f32_le, u32_le};
use lana_khora::scalar::{
    clamp_bits, finite, finite_bits, greater_bits, less_bits, lesser_bits, nan_bits, origin, pz,
    Triple, INFINITY, LARGEST, LEAST, ONE, SIGN, ZERO,
};

fn samples() -> Vec<f32> {
    vec![
        0.0,
        -0.0,
        1.0,
        -1.0,
        0.2,
        -0.2,
        1.4,
        1e-40,
        -1e-40,
        f32::MAX,
        f32::MIN,
        f32::MIN_POSITIVE,
        f32::INFINITY,
        f32::NEG_INFINITY,
        f32::NAN,
        -f32::NAN,
    ]
}

fn triple(x: f32, y: f32, z: f32) -> Triple {
    Triple { x: x.to_bits(), y: y.to_bits(), z: z.to_bits() }
}

#[test]
fn named_patterns() {
    assert_eq!(ZERO, 0.0f32.to_bits());
    assert_eq!(SIGN, (-0.0f32).to_bits());
    assert_eq!(ONE, 1.0f32.to_bits());
    assert_eq!(INFINITY, f32::INFINITY.to_bits());
    assert_eq!(LARGEST, f32::MAX.to_bits());
    assert_eq!(LEAST, f32::MIN.to_bits());
    assert_eq!(origin(), triple(0.0, 0.0, 0.0));
    assert_eq!(pz(), triple(0.0, 0.0, 1.0));
}

#[test]
fn patterns_are_classified_as_numbers_are() {
    for v in samples() {
        assert_eq!(finite_bits(v.to_bits()), v.is_finite());
        assert_eq!(nan_bits(v.to_bits()), v.is_nan());
    }
}

#[test]
fn patterns_compare_as_numbers_do() {
    for a in samples() {
        for b in samples() {
            assert_eq!(less_bits(a.to_bits(), b.to_bits()), a < b);
        }
    }
}

#[test]
fn lesser_and_greater_are_min_and_max() {
    for a in samples() {
        for b in samples() {
            let lo = f32::from_bits(lesser_bits(a.to_bits(), b.to_bits()));
            let hi = f32::from_bits(greater_bits(a.to_bits(), b.to_bits()));
            if a.is_nan() && b.is_nan() {
                assert!(lo.is_nan() && hi.is_nan());
            } else {
                assert_eq!(lo, a.min(b));
                assert_eq!(hi, a.max(b));
            }
        }
    }
    assert_eq!(lesser_bits(SIGN, ZERO), SIGN);
    assert_eq!(greater_bits(SIGN, ZERO), SIGN);
}

#[test]
fn clamping() {
    let low = (-1.4f32).to_bits();
    let high = 1.4f32.to_bits();
    for v in samples() {
        let r = f32::from_bits(clamp_bits(v.to_bits(), low, high));
        if v.is_nan() {
            assert!(r.is_nan());
        } else {
            assert_eq!(r, v.clamp(-1.4, 1.4));
        }
    }
}

#[test]
fn triples_that_are_not_finite_collapse() {
    let kept = triple(1.0, -2.0, 3.0);
    assert_eq!(finite(kept), kept);
    assert_eq!(finite(triple(f32::NAN, 0.0, 0.0)), origin());
    assert_eq!(finite(triple(1.0, f32::INFINITY, 0.0)), origin());
    assert_eq!(finite(triple(1.0, 2.0, f32::NEG_INFINITY)), origin());
    assert_eq!(finite(finite(triple(1.0, f32::INFINITY, 0.0))), origin());
}

#[test]
fn words_are_read_from_their_least_byte_on() {
    let b: [u8; 6] = [0xff, 0x78, 0x56, 0x34, 0x12, 0xee];
    assert_eq!(u32_le(&b, 1), Some(0x1234_5678));
    assert_eq!(u32_le(&b, 2), Some(0xee12_3456));
    assert_eq!(u32_le(&b, 3), None);
    assert_eq!(u32_le(&b, usize::MAX), None);
    assert_eq!(u32_le(&b, usize::MAX - 3), None);
    assert_eq!(u32_le(&[], 0), None);
}

#[test]
fn written_words_are_read_back() {
    for w in [0u32, 1, 0x8000_0000, 0xdead_beef, u32::MAX] {
        let mut b: Vec<u8> = vec![9, 9, 9];
        b.extend_from_slice(&w.to_le_bytes());
        b.push(7);
        assert_eq!(u32_le(&b, 3), Some(w));
    }
}

#[test]
fn numbers_are_read_as_patterns() {
    let b = (-2.5f32).to_le_bytes();
    assert_eq!(f32_le(&b, 0), Some((-2.5f32).to_bits()));
    assert_eq!(f32_le(&b, 1), None);
}
