use guddalm_vsa::bsc::{majority_from_sums, BinaryHDVector};
use guddalm_vsa::stream::{BinaryBundleAccumulator, BinaryHDStreamBuffer, StreamRing};

fn hamming_similarity(a: &BinaryHDVector, b: &BinaryHDVector) -> f64 {
    1.0 - a.hamming_distance(b) as f64 / a.dim() as f64
}

#[test]
fn test_binary_bundle_accumulator() {
    let dim = 1000;
    let a = BinaryHDVector::random(dim);
    let b = BinaryHDVector::random(dim);

    let mut acc = BinaryBundleAccumulator::new(dim);
    assert_eq!(acc.count(), 0);

    acc.add(&a);
    acc.add(&b);
    assert_eq!(acc.count(), 2);

    let bundled = acc.binarize();
    let sim_a = hamming_similarity(&bundled, &a);
    let sim_b = hamming_similarity(&bundled, &b);
    assert!(sim_a > 0.0);
    assert!(sim_b > 0.0);
}

#[test]
fn test_binary_hd_stream_buffer() {
    let dim = 1000;
    let capacity = 3;

    let mut buf = BinaryHDStreamBuffer::new(dim, capacity);
    assert!(buf.is_empty());

    let v = BinaryHDVector::random(dim);
    buf.push(v.clone());
    assert_eq!(buf.len(), 1);

    let bundled = buf.majority_bundle();
    let sim = hamming_similarity(&bundled, &v);
    assert!(sim > 0.99);
}

#[test]
fn accumulator_votes_and_resets() {
    let a = BinaryHDVector::from_bits(&[1, 1, 0, 0]);
    let b = BinaryHDVector::from_bits(&[1, 0, 0, 1]);
    let c = BinaryHDVector::from_bits(&[0, 1, 0, 1]);
    let mut acc = BinaryBundleAccumulator::new(4);
    acc.add(&a);
    acc.add(&b);
    acc.add(&c);
    assert_eq!(acc.count(), 3);
    assert_eq!(acc.binarize().to_bits(), vec![1u8, 1, 0, 1]);
    acc.reset();
    assert_eq!(acc.count(), 0);
    acc.add(&c);
    assert_eq!(acc.binarize(), c);
}

#[test]
fn accumulator_weighted_votes() {
    let a = BinaryHDVector::from_bits(&[1, 0]);
    let b = BinaryHDVector::from_bits(&[0, 1]);
    let mut acc = BinaryBundleAccumulator::new(2);
    acc.add_weighted(&a, 3);
    acc.add_weighted(&b, 1);
    assert_eq!(acc.count(), 2);
    assert_eq!(acc.binarize().to_bits(), vec![1u8, 0]);
}

#[test]
fn stream_buffer_overwrites_oldest() {
    let mut buf = BinaryHDStreamBuffer::new(8, 2);
    let v1 = BinaryHDVector::from_bits(&[1, 0, 0, 0, 0, 0, 0, 0]);
    let v2 = BinaryHDVector::from_bits(&[0, 1, 0, 0, 0, 0, 0, 0]);
    let v3 = BinaryHDVector::from_bits(&[0, 0, 1, 0, 0, 0, 0, 0]);
    buf.push(v1.clone());
    buf.push(v2.clone());
    buf.push(v3.clone());
    assert_eq!(buf.len(), 2);
    assert_eq!(buf.capacity(), 2);
    assert_eq!(buf.dim(), 8);
    assert!(buf.get(0).map_or(true, |v| v != &v1));
    assert_eq!(buf.get(0), Some(&v2));
    assert_eq!(buf.get(1), Some(&v3));
    assert_eq!(buf.get(2), None);
    buf.clear();
    assert!(buf.is_empty());
}

#[test]
fn ring_keeps_latest_items_in_order() {
    let mut ring: StreamRing<u32> = StreamRing::new(3);
    assert!(ring.is_empty());
    for x in 0..5u32 {
        ring.push(x);
    }
    assert_eq!(ring.len(), 3);
    assert_eq!(ring.capacity(), 3);
    assert_eq!(ring.get(0), Some(&2));
    assert_eq!(ring.get(1), Some(&3));
    assert_eq!(ring.get(2), Some(&4));
    assert_eq!(ring.get(3), None);
    ring.clear();
    assert_eq!(ring.len(), 0);
}

#[test]
fn empty_stream_buffer_bundles_to_tie_bits() {
    let buf = BinaryHDStreamBuffer::new(10, 4);
    assert_eq!(buf.majority_bundle(), majority_from_sums(&[0i64; 10], 10));
}

#[test]
fn accumulator_counts_every_add() {
    let a = BinaryHDVector::from_bits(&[1, 0, 1]);
    let b = BinaryHDVector::from_bits(&[0, 0, 1]);
    let mut acc = BinaryBundleAccumulator::new(3);
    assert_eq!(acc.count(), 0);
    // Net votes after the five calls: bit 0: 1 - 2 + 1 - 1 - 2 = -3,
    // bit 1: -1 - 2 - 1 - 1 - 2 = -7, bit 2: 1 + 2 + 1 + 1 + 2 = 7.
    acc.add(&a);
    acc.add_weighted(&b, 2);
    acc.add(&a);
    acc.add(&b);
    acc.add_weighted(&b, 2);
    assert_eq!(acc.count(), 5);
    assert_eq!(acc.count(), 5);
    assert_eq!(acc.binarize().to_bits(), vec![0u8, 0, 1]);
}
