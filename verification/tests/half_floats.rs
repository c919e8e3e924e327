//! Bit-exactness of the binary32 -> binary16 conversion and of half packing.

use gsplat_utils::half::{float_to_half, pack_half_2x16};

#[test]
fn zero_maps_to_zero() {
    assert_eq!(float_to_half(0.0f32.to_bits()), 0x0000);
}

#[test]
fn negative_zero_keeps_its_sign() {
    assert_eq!(float_to_half((-0.0f32).to_bits()), 0x8000);
}

#[test]
fn one_is_0x3c00() {
    assert_eq!(float_to_half(1.0f32.to_bits()), 0x3C00);
}

#[test]
fn max_finite_half_is_0x7bff() {
    assert_eq!(float_to_half(65504.0f32.to_bits()), 0x7BFF);
}

#[test]
fn overflow_goes_to_infinity() {
    assert_eq!(float_to_half(70000.0f32.to_bits()), 0x7C00);
    assert_eq!(float_to_half((-70000.0f32).to_bits()), 0xFC00);
    assert_eq!(float_to_half(f32::INFINITY.to_bits()), 0x7C00);
    assert_eq!(float_to_half(f32::NEG_INFINITY.to_bits()), 0xFC00);
}

#[test]
fn tiny_values_underflow_to_zero() {
    // Well below 2^-24, the smallest subnormal half.
    assert_eq!(float_to_half(1.0e-8f32.to_bits()), 0x0000);
    assert_eq!(float_to_half((-1.0e-8f32).to_bits()), 0x8000);
}

#[test]
fn smallest_subnormal_half_survives() {
    let tiny = f32::powi(2.0, -24);
    assert_eq!(float_to_half(tiny.to_bits()), 0x0001);
}

#[test]
fn nan_stays_nan() {
    let h = float_to_half(f32::NAN.to_bits());
    assert_eq!(h & 0x7C00, 0x7C00);
    assert_ne!(h & 0x03FF, 0);
}

#[test]
fn round_to_nearest_even_on_ties() {
    // 1 + 2^-11 lies exactly between two halves; the even one (1.0) wins.
    let just_above_one = 1.00048828125f32;
    assert_eq!(float_to_half(just_above_one.to_bits()), 0x3C00);
    // 1 + 3 * 2^-11 also ties; it rounds up to the even 1 + 2^-9.
    let next_tie = 1.00146484375f32;
    assert_eq!(float_to_half(next_tie.to_bits()), 0x3C02);
}

#[test]
fn common_values() {
    assert_eq!(float_to_half(2.0f32.to_bits()), 0x4000);
    assert_eq!(float_to_half(0.5f32.to_bits()), 0x3800);
    assert_eq!(float_to_half((-1.0f32).to_bits()), 0xBC00);
    assert_eq!(float_to_half(4.0f32.to_bits()), 0x4400);
    assert_eq!(float_to_half(16.0f32.to_bits()), 0x4C00);
    assert_eq!(float_to_half(36.0f32.to_bits()), 0x5080);
}

#[test]
fn packing_puts_first_term_low() {
    assert_eq!(pack_half_2x16(0x3C00, 0x4000), 0x40003C00);
    assert_eq!(pack_half_2x16(0xFFFF, 0x0001), 0x0001FFFF);
    assert_eq!(pack_half_2x16(0, 0), 0);
}
