//! The sort pipeline: permutation, sortedness, stability, determinism,
//! reorder correctness, the end-to-end scenario, and the error paths.

use gsplat_utils::SplatError;
use gsplat_utils::depth::compute_depth_keys;
use gsplat_utils::gather::gather_elements;
use gsplat_utils::splats::{
    GSplatData, GaussianSorter, radix_sort_gaussians_attrs, radix_sort_gaussians_indexes,
};

fn bits_of(values: &[f32]) -> Vec<u32> {
    values.iter().map(|v| v.to_bits()).collect()
}

fn identity_view() -> Vec<u32> {
    let mut mv = vec![0.0f32; 16];
    mv[0] = 1.0;
    mv[5] = 1.0;
    mv[10] = 1.0;
    mv[15] = 1.0;
    bits_of(&mv)
}

#[test]
fn end_to_end_two_splats() {
    // Camera facing +z: depth keys are proportional to z (0 and -5 * 4096),
    // so the splat at z = -5 sorts before the one at the origin.
    let positions = bits_of(&[0.0, 0.0, 0.0, 0.0, 0.0, -5.0]);
    let mv = identity_view();
    let keys = compute_depth_keys(&positions, &mv, 2, false);
    assert_eq!(keys, vec![0, -5 * 4096]);
    let perm = radix_sort_gaussians_indexes(&positions, &mv, 2048, 2).unwrap();
    assert_eq!(perm, vec![1, 0]);
}

#[test]
fn returns_a_permutation_of_the_indices() {
    let coords: Vec<f32> = (0..60)
        .map(|i| ((i * 37 % 19) as f32) - 9.0 + 0.25 * ((i % 7) as f32))
        .collect();
    let positions = bits_of(&coords);
    let mv = identity_view();
    let mut perm = radix_sort_gaussians_indexes(&positions, &mv, 2048, 20).unwrap();
    perm.sort();
    let expected: Vec<u32> = (0..20).collect();
    assert_eq!(perm, expected);
}

#[test]
fn keys_are_non_decreasing_along_the_permutation() {
    let coords: Vec<f32> = (0..90)
        .map(|i| (((i * 53) % 41) as f32) * 0.375 - 7.5)
        .collect();
    let positions = bits_of(&coords);
    let mv = identity_view();
    let count: usize = 30;
    let keys = compute_depth_keys(&positions, &mv, count, false);
    let perm = radix_sort_gaussians_indexes(&positions, &mv, 2048, count).unwrap();
    for w in perm.windows(2) {
        assert!(keys[w[0] as usize] <= keys[w[1] as usize]);
    }
}

#[test]
fn ties_keep_original_input_order() {
    // All splats share the same depth: the permutation must be the identity.
    let mut coords: Vec<f32> = Vec::new();
    for i in 0..12 {
        coords.push(i as f32);
        coords.push(-(i as f32));
        coords.push(2.5);
    }
    let positions = bits_of(&coords);
    let mv = identity_view();
    let perm = radix_sort_gaussians_indexes(&positions, &mv, 2048, 12).unwrap();
    let expected: Vec<u32> = (0..12).collect();
    assert_eq!(perm, expected);
}

#[test]
fn identical_inputs_give_identical_permutations() {
    let coords: Vec<f32> = (0..45).map(|i| (((i * 29) % 23) as f32) - 11.0).collect();
    let positions = bits_of(&coords);
    let mv = identity_view();
    let first = radix_sort_gaussians_indexes(&positions, &mv, 2048, 15).unwrap();
    let second = radix_sort_gaussians_indexes(&positions, &mv, 2048, 15).unwrap();
    assert_eq!(first, second);
}

#[test]
fn rejects_wrong_positions_length() {
    let positions = bits_of(&[0.0, 0.0, 0.0]);
    let mv = identity_view();
    assert_eq!(
        radix_sort_gaussians_indexes(&positions, &mv, 2048, 2),
        Err(SplatError::InputLengthMismatch)
    );
}

#[test]
fn rejects_short_view_matrix() {
    let positions = bits_of(&[0.0, 0.0, 0.0]);
    let mv = bits_of(&[1.0; 15]);
    assert_eq!(
        radix_sort_gaussians_indexes(&positions, &mv, 2048, 1),
        Err(SplatError::InputLengthMismatch)
    );
}

#[test]
fn reorder_gathers_every_attribute_through_the_permutation() {
    let n: usize = 10;
    let coords: Vec<f32> = (0..3 * n).map(|i| (((i * 31) % 17) as f32) - 8.0).collect();
    let scales: Vec<f32> = (0..3 * n).map(|i| 1.0 + (i as f32) * 0.125).collect();
    let rots: Vec<f32> = (0..4 * n).map(|i| ((i % 5) as f32) * 0.25).collect();
    let colors: Vec<u8> = (0..4 * n).map(|i| (i * 13 % 251) as u8).collect();
    let positions = bits_of(&coords);
    let scale_bits = bits_of(&scales);
    let rot_bits = bits_of(&rots);
    let mv = identity_view();
    let perm = radix_sort_gaussians_indexes(&positions, &mv, 2048, n).unwrap();
    let (sp, ss, sr, sc) =
        radix_sort_gaussians_attrs(&positions, &scale_bits, &rot_bits, &colors, &mv, n).unwrap();
    for i in 0..n {
        let j = perm[i] as usize;
        for c in 0..3 {
            assert_eq!(sp[3 * i + c], positions[3 * j + c]);
            assert_eq!(ss[3 * i + c], scale_bits[3 * j + c]);
        }
        for c in 0..4 {
            assert_eq!(sr[4 * i + c], rot_bits[4 * j + c]);
            assert_eq!(sc[4 * i + c], colors[4 * j + c]);
        }
    }
}

#[test]
fn gather_rejects_out_of_range_indices() {
    let values: Vec<u32> = vec![1, 2, 3, 4, 5, 6];
    let perm: Vec<u32> = vec![0, 2];
    let r = gather_elements(&values, &perm, 3);
    assert_eq!(r, Err(SplatError::IndexOutOfRange));
    let good: Vec<u32> = vec![1, 0];
    assert_eq!(gather_elements(&values, &good, 3), Ok(vec![4, 5, 6, 1, 2, 3]));
}

#[test]
fn batch_sorts_in_place() {
    let n: usize = 8;
    let coords: Vec<f32> = (0..3 * n).map(|i| (((i * 41) % 13) as f32) - 6.0).collect();
    let scales: Vec<f32> = (0..3 * n).map(|i| (i as f32) * 0.5).collect();
    let rots: Vec<f32> = (0..4 * n).map(|i| ((i % 3) as f32)).collect();
    let colors: Vec<u8> = (0..4 * n).map(|i| (255 - i) as u8).collect();
    let positions = bits_of(&coords);
    let mv = identity_view();
    let perm = radix_sort_gaussians_indexes(&positions, &mv, 2048, n).unwrap();
    let mut data = GSplatData::new(
        positions.clone(),
        bits_of(&scales),
        bits_of(&rots),
        colors.clone(),
        mv,
        n,
    );
    data.radix_sort();
    let sorted_positions = data.get_positions();
    let sorted_colors = data.get_colors();
    for i in 0..n {
        let j = perm[i] as usize;
        for c in 0..3 {
            assert_eq!(sorted_positions[3 * i + c], positions[3 * j + c]);
        }
        for c in 0..4 {
            assert_eq!(sorted_colors[4 * i + c], colors[4 * j + c]);
        }
    }
}

#[test]
fn from_float32_arrays_validates_lengths() {
    let mv = identity_view();
    let r = GSplatData::from_float32_arrays(
        bits_of(&[0.0, 0.0, 0.0]),
        bits_of(&[1.0, 1.0, 1.0]),
        bits_of(&[0.0, 0.0, 0.0]),
        vec![0, 0, 0, 0],
        mv.clone(),
        1,
    );
    assert!(matches!(r, Err(SplatError::InputLengthMismatch)));
    let ok = GSplatData::from_float32_arrays(
        bits_of(&[0.0, 0.0, 0.0]),
        bits_of(&[1.0, 1.0, 1.0]),
        bits_of(&[0.0, 0.0, 0.0, 1.0]),
        vec![0, 0, 0, 0],
        mv,
        1,
    );
    assert!(ok.is_ok());
}

#[test]
fn sorter_respects_its_declared_capacity() {
    let n: usize = 4;
    let coords: Vec<f32> = (0..3 * n).map(|i| (i as f32) - 5.0).collect();
    let mv = identity_view();
    let mut data = GSplatData::new(
        bits_of(&coords),
        bits_of(&vec![1.0f32; 3 * n]),
        bits_of(&vec![0.0f32; 4 * n]),
        vec![128u8; 4 * n],
        mv,
        n,
    );
    let mut small = GaussianSorter::new(2);
    assert!(small.sort_gaussians(&mut data).is_err());
    let mut big = GaussianSorter::new(16);
    assert!(big.sort_gaussians(&mut data).is_ok());
}

#[test]
fn translation_entry_shifts_keys_without_reordering() {
    // The sorter includes the view matrix's translation entry; a common
    // shift of every key cannot change the ordering.
    let n: usize = 6;
    let coords: Vec<f32> = (0..3 * n).map(|i| (((i * 7) % 11) as f32) - 5.0).collect();
    let positions = bits_of(&coords);
    let mut mv_f = vec![0.0f32; 16];
    mv_f[0] = 1.0;
    mv_f[5] = 1.0;
    mv_f[10] = 1.0;
    mv_f[14] = 2.0;
    mv_f[15] = 1.0;
    let mv = bits_of(&mv_f);
    let keys_plain = compute_depth_keys(&positions, &identity_view(), n, false);
    let keys_translated = compute_depth_keys(&positions, &mv, n, true);
    for i in 0..n {
        assert_eq!(keys_translated[i], keys_plain[i] + 2 * 4096);
    }
}

#[test]
fn degenerate_view_axis_keeps_input_order() {
    // A zero view axis collapses every depth key to one value; the stable
    // sort then degenerates to input order.
    let coords: Vec<f32> = (0..24).map(|i| (i as f32) * 0.5 - 3.0).collect();
    let positions = bits_of(&coords);
    let mv = bits_of(&[0.0f32; 16]);
    let perm = radix_sort_gaussians_indexes(&positions, &mv, 2048, 8).unwrap();
    let expected: Vec<u32> = (0..8).collect();
    assert_eq!(perm, expected);
}

#[test]
fn empty_batch_sorts_to_an_empty_permutation() {
    let positions: Vec<u32> = Vec::new();
    let mv = identity_view();
    let perm = radix_sort_gaussians_indexes(&positions, &mv, 2048, 0).unwrap();
    assert!(perm.is_empty());
}

#[test]
fn non_finite_positions_sort_deterministically() {
    let coords = vec![
        0.0,
        0.0,
        f32::NAN,
        0.0,
        0.0,
        f32::INFINITY,
        0.0,
        0.0,
        -1.0,
        0.0,
        0.0,
        f32::NEG_INFINITY,
    ];
    let positions = bits_of(&coords);
    let mv = identity_view();
    let first = radix_sort_gaussians_indexes(&positions, &mv, 2048, 4).unwrap();
    let second = radix_sort_gaussians_indexes(&positions, &mv, 2048, 4).unwrap();
    assert_eq!(first, second);
    // NaN truncates to 0, infinities saturate: -inf, then -1, then NaN (0),
    // then +inf.
    assert_eq!(first, vec![3, 2, 0, 1]);
}

#[test]
fn error_messages_name_the_failure() {
    assert_eq!(SplatError::InputLengthMismatch.message(), "input array length mismatch");
    assert_eq!(SplatError::IndexOutOfRange.message(), "index out of range");
}
