//! The integer model of binary32 arithmetic agrees bit-for-bit with the
//! hardware floating-point unit on multiplication, addition, subtraction and
//! the saturating cast to i32 (NaN results excepted: the library
//! canonicalises fresh NaNs, hardware payloads vary by platform).

use gsplat_utils::depth::compute_depth_keys;
use gsplat_utils::fp::{f32_add_bits, f32_mul_bits, f32_sub_bits, f32_to_i32_bits};

fn battery() -> Vec<f32> {
    vec![
        0.0,
        -0.0,
        1.0,
        -1.0,
        2.0,
        0.5,
        0.1,
        -0.1,
        3.14159265,
        -2.71828,
        4096.0,
        -4096.0,
        65504.0,
        70000.0,
        1.0e-8,
        -1.0e-8,
        1.0e-40,
        -1.0e-40,
        f32::MIN_POSITIVE,
        -f32::MIN_POSITIVE,
        f32::MAX,
        f32::MIN,
        1.5e38,
        -1.5e38,
        f32::INFINITY,
        f32::NEG_INFINITY,
        12345.678,
        -0.001,
        8388608.0,
        16777217.0,
        1.0000001,
        0.99999994,
        f32::powi(2.0, -24),
        f32::powi(2.0, -149),
        -f32::powi(2.0, -149),
        f32::powi(2.0, 127),
    ]
}

#[test]
fn multiplication_matches_hardware() {
    for &a in battery().iter() {
        for &b in battery().iter() {
            let expect = a * b;
            if expect.is_nan() {
                continue;
            }
            assert_eq!(
                f32_mul_bits(a.to_bits(), b.to_bits()),
                expect.to_bits(),
                "mul {a:?} * {b:?}"
            );
        }
    }
}

#[test]
fn addition_matches_hardware() {
    for &a in battery().iter() {
        for &b in battery().iter() {
            let expect = a + b;
            if expect.is_nan() {
                continue;
            }
            assert_eq!(
                f32_add_bits(a.to_bits(), b.to_bits()),
                expect.to_bits(),
                "add {a:?} + {b:?}"
            );
        }
    }
}

#[test]
fn subtraction_matches_hardware() {
    for &a in battery().iter() {
        for &b in battery().iter() {
            let expect = a - b;
            if expect.is_nan() {
                continue;
            }
            assert_eq!(
                f32_sub_bits(a.to_bits(), b.to_bits()),
                expect.to_bits(),
                "sub {a:?} - {b:?}"
            );
        }
    }
}

#[test]
fn arithmetic_matches_hardware_on_a_pseudo_random_sweep() {
    // A linear-congruential walk over raw bit patterns: normals, subnormals
    // and the occasional infinity, in every sign and magnitude mix.
    let mut state: u64 = 0x1234_5678_9ABC_DEF0;
    let mut step = || {
        state = state.wrapping_mul(6364136223846793005).wrapping_add(1442695040888963407);
        (state >> 32) as u32
    };
    for _ in 0..20000 {
        let a = f32::from_bits(step());
        let b = f32::from_bits(step());
        let mul = a * b;
        if !a.is_nan() && !b.is_nan() && !mul.is_nan() {
            assert_eq!(f32_mul_bits(a.to_bits(), b.to_bits()), mul.to_bits(), "{a:?} * {b:?}");
        }
        let sum = a + b;
        if !a.is_nan() && !b.is_nan() && !sum.is_nan() {
            assert_eq!(f32_add_bits(a.to_bits(), b.to_bits()), sum.to_bits(), "{a:?} + {b:?}");
        }
        if !a.is_nan() && !b.is_nan() {
            let diff = a - b;
            if !diff.is_nan() {
                assert_eq!(f32_sub_bits(a.to_bits(), b.to_bits()), diff.to_bits(), "{a:?} - {b:?}");
            }
        }
        assert_eq!(f32_to_i32_bits(a.to_bits()), a as i32, "trunc {a:?}");
    }
}

#[test]
fn nan_operands_give_the_canonical_quiet_nan() {
    assert_eq!(f32_mul_bits(f32::NAN.to_bits(), 1.0f32.to_bits()), 0x7FC0_0000);
    assert_eq!(f32_add_bits(2.0f32.to_bits(), f32::NAN.to_bits()), 0x7FC0_0000);
    assert_eq!(f32_mul_bits(0.0f32.to_bits(), f32::INFINITY.to_bits()), 0x7FC0_0000);
    assert_eq!(
        f32_add_bits(f32::INFINITY.to_bits(), f32::NEG_INFINITY.to_bits()),
        0x7FC0_0000
    );
}

#[test]
fn depth_keys_match_a_hardware_float_reference() {
    let coords: Vec<f32> = vec![
        0.0, 0.0, 0.0, 1.0, 2.0, 3.0, -4.5, 0.125, 9.75, 1.0e-8, -1.0e-8, 2.5e7, f32::MAX, 1.0,
        -1.0, 1.0e-40, -3.3e-12, 0.7071067,
    ];
    let mv_f: Vec<f32> = vec![
        1.0, 0.0, 0.25, 0.0, 0.0, 1.0, -0.5, 0.0, 0.0, 0.0, 0.9999999, 0.0, 0.0, 0.0, 3.75, 1.0,
    ];
    let positions: Vec<u32> = coords.iter().map(|v| v.to_bits()).collect();
    let mv: Vec<u32> = mv_f.iter().map(|v| v.to_bits()).collect();
    let count = coords.len() / 3;
    for &translate in [false, true].iter() {
        let keys = compute_depth_keys(&positions, &mv, count, translate);
        for i in 0..count {
            let mut dot = coords[3 * i] * mv_f[2] + coords[3 * i + 1] * mv_f[6]
                + coords[3 * i + 2] * mv_f[10];
            if translate {
                dot += mv_f[14];
            }
            let expect = (dot * 4096.0) as i32;
            assert_eq!(keys[i], expect, "splat {i}, translate {translate}");
        }
    }
}

#[test]
fn truncation_matches_hardware() {
    let values: Vec<f32> = vec![
        0.0,
        -0.0,
        0.5,
        -0.5,
        1.0,
        -1.0,
        2.7,
        -2.7,
        4095.9998,
        -4095.9998,
        2147483520.0,
        -2147483650.0,
        3.0e9,
        -3.0e9,
        f32::MAX,
        f32::MIN,
        f32::INFINITY,
        f32::NEG_INFINITY,
        f32::NAN,
        1.0e-40,
        8388608.5,
    ];
    for &v in values.iter() {
        assert_eq!(f32_to_i32_bits(v.to_bits()), v as i32, "trunc {v:?}");
    }
}
