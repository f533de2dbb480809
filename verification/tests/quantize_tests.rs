use guddalm_vsa::quantize::{pack_levels, unpack_bit_flags, wordwise_diff_bits};

#[test]
fn test_wordwise_xnor_similarity_avx2_equivalence() {
    let mut a = [0u64; 64];
    let mut b = [0u64; 64];
    for i in 0..64 {
        a[i] = i as u64 * 123456789;
        b[i] = i as u64 * 987654321;
    }

    let fallback: u64 = a
        .iter()
        .zip(b.iter())
        .map(|(x, y)| (x ^ y).count_ones() as u64)
        .sum();
    let sim_fallback = (4096.0 - 2.0 * fallback as f64) / 4096.0;

    let diff = wordwise_diff_bits(&a, &b);
    let sim = (4096.0 - 2.0 * diff as f64) / 4096.0;
    assert!((sim_fallback - sim).abs() < 1e-10);
}

#[test]
fn diff_bits_uses_shorter_slice() {
    assert_eq!(wordwise_diff_bits(&[0b1011, u64::MAX], &[0b0001]), 2);
    assert_eq!(wordwise_diff_bits(&[], &[1, 2, 3]), 0);
    assert_eq!(wordwise_diff_bits(&[u64::MAX; 3], &[0; 3]), 192);
    assert_eq!(wordwise_diff_bits(&[7, 7], &[7, 7]), 0);
}

#[test]
fn unpack_reads_low_bits_first() {
    let flags = unpack_bit_flags(&[0b1101u64, 1u64], 66);
    assert_eq!(flags.len(), 66);
    assert_eq!(&flags[..5], &[true, false, true, true, false]);
    assert!(flags[64]);
    assert!(!flags[65]);
    assert!(unpack_bit_flags(&[], 0).is_empty());
}

#[test]
fn pack_levels_within_a_word() {
    assert_eq!(pack_levels(&[1, 2, 3], 2), vec![0b11_10_01u64]);
    assert_eq!(pack_levels(&[0xFF, 0x1], 4), vec![0x1Fu64]);
    assert_eq!(pack_levels(&[], 7), Vec::<u64>::new());
}

#[test]
fn pack_levels_across_words() {
    let packed = pack_levels(&[31u64; 13], 5);
    assert_eq!(packed, vec![u64::MAX, 1u64]);
    let packed3 = pack_levels(&[0b101u64; 22], 3);
    assert_eq!(packed3.len(), 2);
    let flags = unpack_bit_flags(&packed3, 66);
    for i in 0..66 {
        assert_eq!(flags[i], i % 3 != 1, "bit {}", i);
    }
}

#[test]
fn pack_levels_of_63_bit_fields() {
    let top = (1u64 << 62) | 1;
    let packed = pack_levels(&[top, top], 63);
    assert_eq!(packed.len(), 2);
    assert_eq!(packed[0], top | (1u64 << 63));
    assert_eq!(packed[1], 1u64 << 61);
}

#[test]
fn word_distance_of_vectors_is_hamming_distance() {
    for dim in [1usize, 63, 64, 65, 200] {
        let a = guddalm_vsa::bsc::BinaryHDVector::random(dim);
        let b = guddalm_vsa::bsc::BinaryHDVector::random(dim);
        assert_eq!(wordwise_diff_bits(a.words(), b.words()), a.hamming_distance(&b));
    }
}

#[test]
fn unpacking_a_vector_reads_its_bits() {
    let v = guddalm_vsa::bsc::BinaryHDVector::random(130);
    let flags = unpack_bit_flags(v.words(), v.dim());
    let bits: Vec<bool> = v.to_bits().iter().map(|&b| b == 1).collect();
    assert_eq!(flags, bits);
}
