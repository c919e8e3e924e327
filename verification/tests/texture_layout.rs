//! Texture geometry and the packed per-splat layout.

use gsplat_utils::SplatError;
use gsplat_utils::half::float_to_half;
use gsplat_utils::texture::{TextureData, generate_texture_from_attrs};

fn bits_of(values: &[f32]) -> Vec<u32> {
    values.iter().map(|v| v.to_bits()).collect()
}

fn build(count: usize) -> TextureData {
    let positions = bits_of(&vec![0.5f32; count * 3]);
    let scales = bits_of(&vec![1.0f32; count * 3]);
    let mut rots = vec![0.0f32; count * 4];
    for i in 0..count {
        rots[4 * i + 3] = 1.0;
    }
    let rotations = bits_of(&rots);
    let colors = vec![7u8; count * 4];
    generate_texture_from_attrs(&positions, &scales, &rotations, &colors, count).unwrap()
}

#[test]
fn width_is_always_2048_and_height_is_the_ceiling() {
    for &count in [1usize, 2, 5, 1023, 1024, 1025, 2048, 5000].iter() {
        let t = build(count);
        assert_eq!(t.width(), 2048);
        assert_eq!(t.height() as usize, (2 * count + 2047) / 2048);
        assert_eq!(t.data().len(), 2048 * t.height() as usize * 4);
    }
}

#[test]
fn rejects_mismatched_lengths() {
    let positions = bits_of(&[0.0, 0.0, 0.0]);
    let scales = bits_of(&[1.0, 1.0, 1.0]);
    let rotations = bits_of(&[0.0, 0.0, 0.0, 1.0]);
    let colors = vec![0u8; 4];
    assert!(matches!(
        generate_texture_from_attrs(&positions, &scales, &rotations, &colors, 2),
        Err(SplatError::InputLengthMismatch)
    ));
    let short_colors = vec![0u8; 3];
    assert!(matches!(
        generate_texture_from_attrs(&positions, &scales, &rotations, &short_colors, 1),
        Err(SplatError::InputLengthMismatch)
    ));
}

#[test]
fn identity_quaternion_packs_the_squared_scales() {
    // R = I, so Sigma = diag(sx^2, sy^2, sz^2) and the packed halves are
    // 4, 16 and 36.
    let positions = bits_of(&[1.0, 2.0, 3.0]);
    let scales = bits_of(&[1.0, 2.0, 3.0]);
    let rotations = bits_of(&[0.0, 0.0, 0.0, 1.0]);
    let colors: Vec<u8> = vec![0x11, 0x22, 0x33, 0x44];
    let t = generate_texture_from_attrs(&positions, &scales, &rotations, &colors, 1).unwrap();
    let data = t.data();
    assert_eq!(data[0], 1.0f32.to_bits());
    assert_eq!(data[1], 2.0f32.to_bits());
    assert_eq!(data[2], 3.0f32.to_bits());
    assert_eq!(data[3], 0);
    assert_eq!(data[4], 0x4400); // half(4.0) low, half(0.0) high
    assert_eq!(data[5], 0x4C00_0000); // half(0.0) low, half(16.0) high
    assert_eq!(data[6], 0x5080_0000); // half(0.0) low, half(36.0) high
    assert_eq!(data[7], 0x4433_2211); // color bytes, little endian
    for k in 8..data.len() {
        assert_eq!(data[k], 0);
    }
}

#[test]
fn covariance_matches_a_float_reference() {
    // Recompute one splat's packed lanes with hardware floats, in the same
    // operation order, and compare bit for bit.
    let q = [0.5f32, 0.5, 0.5, 0.5];
    let s = [1.5f32, 0.25, 3.0];
    let positions = bits_of(&[0.0, 0.0, 0.0]);
    let scales = bits_of(&s);
    let rotations = bits_of(&q);
    let colors: Vec<u8> = vec![0, 0, 0, 0];
    let t = generate_texture_from_attrs(&positions, &scales, &rotations, &colors, 1).unwrap();
    let data = t.data();

    let (x, y, z, r) = (q[0], q[1], q[2], q[3]);
    let rm = [
        1.0 - 2.0 * (y * y + z * z),
        2.0 * (x * y + r * z),
        2.0 * (x * z - r * y),
        2.0 * (x * y - r * z),
        1.0 - 2.0 * (x * x + z * z),
        2.0 * (y * z + r * x),
        2.0 * (x * z + r * y),
        2.0 * (y * z - r * x),
        1.0 - 2.0 * (x * x + y * y),
    ];
    let m = [
        rm[0] * s[0],
        rm[1] * s[0],
        rm[2] * s[0],
        rm[3] * s[1],
        rm[4] * s[1],
        rm[5] * s[1],
        rm[6] * s[2],
        rm[7] * s[2],
        rm[8] * s[2],
    ];
    let sigma = [
        m[0] * m[0] + m[3] * m[3] + m[6] * m[6],
        m[0] * m[1] + m[3] * m[4] + m[6] * m[7],
        m[0] * m[2] + m[3] * m[5] + m[6] * m[8],
        m[1] * m[1] + m[4] * m[4] + m[7] * m[7],
        m[1] * m[2] + m[4] * m[5] + m[7] * m[8],
        m[2] * m[2] + m[5] * m[5] + m[8] * m[8],
    ];
    let h = |v: f32| float_to_half((4.0 * v).to_bits()) as u32;
    assert_eq!(data[4], h(sigma[0]) | (h(sigma[1]) << 16));
    assert_eq!(data[5], h(sigma[2]) | (h(sigma[3]) << 16));
    assert_eq!(data[6], h(sigma[4]) | (h(sigma[5]) << 16));
}

#[test]
fn texture_data_accessors_round_trip() {
    let t = TextureData::new(vec![1, 2, 3, 4], 2, 1);
    assert_eq!(t.data(), vec![1, 2, 3, 4]);
    assert_eq!(t.width(), 2);
    assert_eq!(t.height(), 1);
}
