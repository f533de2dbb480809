use guddalm_vsa::bsc::{majority_from_sums, BinaryHDVector};
use guddalm_vsa::stream::bsc_bundle;

fn hamming_similarity(a: &BinaryHDVector, b: &BinaryHDVector) -> f64 {
    1.0 - a.hamming_distance(b) as f64 / a.dim() as f64
}

#[test]
fn test_binary_xor_self_inverse() {
    let a = BinaryHDVector::random(10000);
    let b = BinaryHDVector::random(10000);
    let bound = a.xor_bind(&b);
    let unbind = bound.xor_bind(&b);
    assert_eq!(a, unbind, "XOR binding must be self-inverse");
}

#[test]
fn test_binary_majority_bundle() {
    let a = BinaryHDVector::random(10000);
    let bundle = a.majority_bundle(&a);
    let sim = hamming_similarity(&a, &bundle);
    assert!(
        sim > 0.99,
        "majority bundle of identical vectors must be nearly identical"
    );
}

#[test]
fn test_binary_rotation() {
    let a = BinaryHDVector::random(10000);
    let rotated = a.rotate(1);
    let unrotated = rotated.rotate(9999);
    assert_eq!(a, unrotated, "bit rotation must be invertible");
}

#[test]
fn test_bsc_bundle_empty() {
    let result = bsc_bundle(&[]);
    assert_eq!(result.dim(), 0);
}

#[test]
fn test_bsc_bundle_single() {
    let v = BinaryHDVector::random(256);
    let result = bsc_bundle(&[v.clone()]);
    assert_eq!(result, v);
}

#[test]
fn from_bits_and_to_bits_round_trip() {
    let bits = vec![1u8, 0, 0, 1, 1, 0, 7, 0, 0, 0, 1];
    let v = BinaryHDVector::from_bits(&bits);
    assert_eq!(v.dim(), 11);
    assert_eq!(v.words(), &[0b100_0101_1001u64][..]);
    assert_eq!(v.to_bits(), vec![1u8, 0, 0, 1, 1, 0, 1, 0, 0, 0, 1]);
}

#[test]
fn zeros_has_clear_words() {
    let z = BinaryHDVector::zeros(130);
    assert_eq!(z.words(), &[0u64, 0, 0][..]);
    assert_eq!(BinaryHDVector::zeros(0).words().len(), 0);
}

#[test]
fn random_clears_bits_past_dim() {
    for _ in 0..20 {
        let v = BinaryHDVector::random(70);
        assert_eq!(v.words().len(), 2);
        assert_eq!(v.words()[1] >> 6, 0);
    }
}

#[test]
fn xor_bind_is_wordwise_xor() {
    let a = BinaryHDVector::from_bits(&[1, 1, 0, 0]);
    let b = BinaryHDVector::from_bits(&[1, 0, 1, 0]);
    let c = a.xor_bind(&b);
    assert_eq!(c.to_bits(), vec![0u8, 1, 1, 0]);
    assert_eq!(a.xor_bind(&b), b.xor_bind(&a));
}

#[test]
fn rotate_moves_bits_up() {
    let a = BinaryHDVector::from_bits(&[1, 0, 0, 0, 0]);
    assert_eq!(a.rotate(2).to_bits(), vec![0u8, 0, 1, 0, 0]);
    assert_eq!(a.rotate(5), a);
    assert_eq!(a.rotate(7).to_bits(), vec![0u8, 0, 1, 0, 0]);
    assert_eq!(a.rotate(0), a);
    let wide = BinaryHDVector::from_bits(&[1u8; 1].iter().chain([0u8; 99].iter()).cloned().collect::<Vec<u8>>());
    let r = wide.rotate(70);
    let bits = r.to_bits();
    assert_eq!(bits[70], 1);
    assert_eq!(bits.iter().map(|&b| b as usize).sum::<usize>(), 1);
}

#[test]
fn rotate_of_empty_is_empty() {
    let e = BinaryHDVector::zeros(0);
    assert_eq!(e.rotate(3).dim(), 0);
}

#[test]
fn subsample_keeps_prefix() {
    let a = BinaryHDVector::from_bits(&[1, 0, 1, 1, 0, 1]);
    assert_eq!(a.subsample(4).to_bits(), vec![1u8, 0, 1, 1]);
    assert_eq!(a.subsample(10), a);
    assert_eq!(a.subsample(0).dim(), 0);
}

#[test]
fn majority_bundle_keeps_agreement() {
    let a = BinaryHDVector::from_bits(&[1, 1, 0, 0]);
    let b = BinaryHDVector::from_bits(&[1, 0, 1, 0]);
    let m = a.majority_bundle(&b);
    let bits = m.to_bits();
    assert_eq!(bits[0], 1);
    assert_eq!(bits[3], 0);
    assert_eq!(a.majority_bundle(&a), a);
}

#[test]
fn majority_bundle_all_votes() {
    let a = BinaryHDVector::from_bits(&[1, 1, 0, 0, 1]);
    let b = BinaryHDVector::from_bits(&[1, 0, 1, 0, 0]);
    let c = BinaryHDVector::from_bits(&[0, 1, 1, 0, 0]);
    let m = BinaryHDVector::majority_bundle_all(&[a.clone(), b.clone(), c]);
    assert_eq!(m.to_bits(), vec![1u8, 1, 1, 0, 0]);
    let tie = BinaryHDVector::majority_bundle_all(&[a.clone(), b]);
    assert_eq!(tie.to_bits(), vec![1u8, 1, 0, 0, 1]);
}

#[test]
fn hamming_distance_counts_differences() {
    let a = BinaryHDVector::from_bits(&[1, 1, 0, 0, 1]);
    let b = BinaryHDVector::from_bits(&[1, 0, 1, 0, 0]);
    assert_eq!(a.hamming_distance(&b), 3);
    assert_eq!(a.hamming_distance(&a), 0);
    let x = BinaryHDVector::random(300);
    let y = BinaryHDVector::random(300);
    assert_eq!(x.hamming_distance(&y), y.hamming_distance(&x));
    assert!(x.hamming_distance(&y) <= 300);
}

#[test]
fn majority_from_sums_signs_and_ties() {
    let v = majority_from_sums(&[3, -2, 0, 5, -1], 5);
    let bits = v.to_bits();
    assert_eq!(bits[0], 1);
    assert_eq!(bits[1], 0);
    assert_eq!(bits[3], 1);
    assert_eq!(bits[4], 0);
    // Position 0 would tie-break to the top bit of 0 * K, which is 0;
    // position 2 tie-breaks to the top bit of 2 * 0x9E3779B97F4A7C15.
    let tie2 = ((2u64.wrapping_mul(0x9E3779B97F4A7C15)) >> 63) as u8;
    assert_eq!(bits[2], tie2);
    let zero = majority_from_sums(&[0], 1);
    assert_eq!(zero.to_bits(), vec![0u8]);
}

#[test]
fn duplicate_is_equal() {
    let v = BinaryHDVector::random(200);
    assert_eq!(v.duplicate(), v);
}

#[test]
fn majority_depends_only_on_bits() {
    let a = BinaryHDVector::from_bits(&[1, 0, 1, 1]);
    let b = BinaryHDVector::from_bits(&[0, 0, 1, 0]);
    let c = BinaryHDVector::from_bits(&[1, 1, 0, 0]);
    let first = BinaryHDVector::majority_bundle_all(&[a.clone(), b.clone(), c.clone()]);
    let again = BinaryHDVector::majority_bundle_all(&[a.duplicate(), b.duplicate(), c.duplicate()]);
    assert_eq!(first, again);
    assert_eq!(first.to_bits(), vec![1u8, 0, 1, 0]);
}

#[test]
fn rotations_compose_modulo_dimension() {
    let a = BinaryHDVector::random(70);
    assert_eq!(a.rotate(30).rotate(50), a.rotate(80 % 70));
    assert_eq!(a.rotate(30).rotate(20), a.rotate(50));
    assert_eq!(a.rotate(69).rotate(1), a);
}

#[test]
fn well_formedness_check() {
    assert!(BinaryHDVector::random(70).is_well_formed());
    assert!(BinaryHDVector::zeros(128).is_well_formed());
    assert!(BinaryHDVector { dim: 3, words: vec![0b111] }.is_well_formed());
    assert!(!BinaryHDVector { dim: 3, words: vec![0b1000] }.is_well_formed());
    assert!(!BinaryHDVector { dim: 3, words: vec![] }.is_well_formed());
    assert!(!BinaryHDVector { dim: 64, words: vec![0, 0] }.is_well_formed());
    assert!(BinaryHDVector { dim: 64, words: vec![u64::MAX] }.is_well_formed());
}
