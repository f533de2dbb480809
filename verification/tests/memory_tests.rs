use guddalm_vsa::bsc::{majority_from_sums, BinaryHDVector};
use guddalm_vsa::memory::{closest_signature, selective_majority, BinaryCleanupMemory};

#[test]
fn test_binary_cleanup_memory() {
    let dim = 256;
    let n = 8;
    let prototypes: Vec<BinaryHDVector> = (0..n).map(|_| BinaryHDVector::random(dim)).collect();
    let memory = BinaryCleanupMemory::new(prototypes.clone());

    for i in 0..n {
        let (idx, dist, _) = memory.nearest(&prototypes[i]);
        let sim = 1.0 - dist as f64 / dim as f64;
        assert_eq!(idx, i);
        assert!((sim - 1.0).abs() < 0.001);
    }
}

#[test]
fn nearest_takes_first_of_equals() {
    let a = BinaryHDVector::from_bits(&[1, 1, 0, 0]);
    let b = BinaryHDVector::from_bits(&[0, 0, 1, 1]);
    let memory = BinaryCleanupMemory::new(vec![a.clone(), b.clone(), a.clone()]);
    assert_eq!(memory.len(), 3);
    assert!(!memory.is_empty());
    let q = BinaryHDVector::from_bits(&[1, 0, 0, 0]);
    let (idx, dist, copy) = memory.nearest(&q);
    assert_eq!(idx, 0);
    assert_eq!(dist, 1);
    assert_eq!(copy, a);
    let q2 = BinaryHDVector::from_bits(&[0, 0, 1, 0]);
    assert_eq!(memory.nearest(&q2).0, 1);
    let q3 = BinaryHDVector::from_bits(&[1, 0, 1, 0]);
    // Equal distance to every prototype: the first one wins.
    assert_eq!(memory.nearest(&q3).0, 0);
}

#[test]
fn empty_cleanup_memory() {
    let memory = BinaryCleanupMemory::new(Vec::new());
    assert!(memory.is_empty());
    assert_eq!(memory.len(), 0);
}

#[test]
fn selective_majority_counts_selected_only() {
    let v1 = BinaryHDVector::from_bits(&[1, 1, 0, 0]);
    let v2 = BinaryHDVector::from_bits(&[0, 0, 1, 1]);
    let v3 = BinaryHDVector::from_bits(&[1, 0, 1, 0]);
    let values = vec![v1.clone(), v2, v3];
    let r = selective_majority(&values, &[true, false, false], 4);
    assert_eq!(r, v1);
    let r2 = selective_majority(&values, &[true, false, true], 4);
    // Votes: [2, 0, 0, -2] -> ties at positions 1 and 2.
    assert_eq!(r2, majority_from_sums(&[2, 0, 0, -2], 4));
    let none = selective_majority(&values, &[false, false, false], 4);
    assert_eq!(none, majority_from_sums(&[0, 0, 0, 0], 4));
}

#[test]
fn closest_signature_first_minimum() {
    let sigs = vec![vec![0b1111u64], vec![0b0001u64], vec![0b0011u64], vec![0b0001u64]];
    assert_eq!(closest_signature(&[0b0001u64], &sigs), (1, 0));
    assert_eq!(closest_signature(&[0b0111u64], &sigs), (0, 1));
    let long = vec![vec![0u64, u64::MAX], vec![1u64]];
    // Only the shared words count.
    assert_eq!(closest_signature(&[0u64], &long), (0, 0));
}

#[test]
fn prototypes_are_kept_in_order() {
    let a = BinaryHDVector::from_bits(&[1, 0]);
    let b = BinaryHDVector::from_bits(&[0, 1]);
    let memory = BinaryCleanupMemory::new(vec![a.clone(), b.clone()]);
    assert_eq!(memory.prototypes(), &[a, b][..]);
}
