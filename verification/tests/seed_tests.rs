use rand::{Rng, SeedableRng};
use guddalm_vsa::seed::{binary_from_draws, deterministic_binary_hd_vector, deterministic_seed};

#[test]
fn test_deterministic_seed_reproducibility() {
    let s1 = deterministic_seed(42, "hello");
    let s2 = deterministic_seed(42, "hello");
    assert_eq!(s1, s2);

    let s3 = deterministic_seed(42, "world");
    assert_ne!(s1, s3);
}

#[test]
fn deterministic_seed_exact_values() {
    assert_eq!(deterministic_seed(42, "hello"), 1301586664);
    assert_eq!(deterministic_seed(42, "world"), 1315743144);
    assert_eq!(deterministic_seed(7, "a"), 7 * 31 + 97);
    assert_eq!(deterministic_seed(0, ""), 0);
    assert_eq!(deterministic_seed(99, ""), 99);
}

#[test]
fn deterministic_seed_wraps() {
    let expected = u64::MAX.wrapping_mul(31).wrapping_add(b'z' as u64);
    assert_eq!(deterministic_seed(u64::MAX, "z"), expected);
}

#[test]
fn binary_from_draws_uses_top_bit() {
    let draws = [0u64, u64::MAX, 1u64 << 63, (1u64 << 63) - 1];
    let v = binary_from_draws(&draws);
    assert_eq!(v.dim(), 4);
    assert_eq!(v.to_bits(), vec![1u8, 0, 0, 1]);
    assert_eq!(v.words(), &[0b1001u64][..]);
}

#[test]
fn deterministic_binary_vector_is_reproducible() {
    let v1 = deterministic_binary_hd_vector(42, "token:hello", 1024);
    let v2 = deterministic_binary_hd_vector(42, "token:hello", 1024);
    assert_eq!(v1, v2);
    assert_eq!(v1.dim(), 1024);
    assert_eq!(v1.words().len(), 16);
    let v3 = deterministic_binary_hd_vector(42, "token:world", 1024);
    assert_ne!(v1, v3);
}

#[test]
fn seeded_bits_match_float_draws_below_one_half() {
    let base_seed: u64 = 1337;
    let key = "ip:192.168.1.1";
    let dim = 256;
    let seed = key.bytes().fold(base_seed, |acc, b| acc.wrapping_mul(31).wrapping_add(b as u64));
    let mut rng = rand::rngs::StdRng::seed_from_u64(seed);
    let expected: Vec<u8> = (0..dim).map(|_| if rng.gen::<f64>() < 0.5 { 1u8 } else { 0u8 }).collect();
    let v = deterministic_binary_hd_vector(base_seed, key, dim);
    assert_eq!(v.to_bits(), expected);
}
