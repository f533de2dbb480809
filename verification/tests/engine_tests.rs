use guddalm_vsa::vsa::VsaEngine;
use rand::Rng;

#[test]
fn test_vsa_engine_determinism() {
    let engine1 = VsaEngine::new(100);
    let engine2 = VsaEngine::new(100);
    assert_eq!(engine1.perm_forward, engine2.perm_forward);
    assert_eq!(engine1.perm_inverse, engine2.perm_inverse);
}

#[test]
fn test_vsa_engine_invertibility() {
    let engine = VsaEngine::new(256);
    let mut rng = rand::thread_rng();
    let original: Vec<f64> = (0..256)
        .map(|_| if rng.gen::<f64>() < 0.5 { 1.0 } else { -1.0 })
        .collect();

    let permuted = engine.permute(&original, 3);
    let recovered = engine.unpermute(&permuted, 3);

    let dot: f64 = original.iter().zip(recovered.iter()).map(|(a, b)| a * b).sum();
    let sim = dot / 256.0;
    assert!((sim - 1.0).abs() < 1e-9, "Unpermute must recover the exact original vector");
}

#[test]
fn test_vsa_engine_permute_data_in_place() {
    let engine = VsaEngine::new(128);
    let mut data = vec![0.0; 128];
    for i in 0..128 {
        data[i] = i as f64;
    }
    let original_data = data.clone();

    engine.permute_data(&mut data, 2);
    assert_ne!(data, original_data, "Data must be permuted");

    let recovered_data = engine.unpermute(&data, 2);

    for i in 0..128 {
        assert!((recovered_data[i] - i as f64).abs() < 1e-9);
    }
}

#[test]
fn engine_permutations_are_inverse() {
    let engine = VsaEngine::new(64);
    assert_eq!(engine.dim, 64);
    assert_eq!(engine.perm_forward.len(), 64);
    for i in 0..64 {
        assert_eq!(engine.perm_inverse[engine.perm_forward[i]], i);
        assert_eq!(engine.perm_forward[engine.perm_inverse[i]], i);
    }
}

#[test]
fn engine_permute_is_a_gather() {
    let engine = VsaEngine::new(16);
    let values: Vec<u32> = (0..16).collect();
    let once = engine.permute(&values, 1);
    for i in 0..16 {
        assert_eq!(once[engine.perm_forward[i]], values[i]);
    }
    let back = engine.unpermute(&engine.permute(&values, 5), 5);
    assert_eq!(back, values);
    let fwd = engine.permute(&engine.unpermute(&values, 4), 4);
    assert_eq!(fwd, values);
    assert_eq!(engine.permute(&values, 0), values);
}

#[test]
fn engine_permute_data_matches_permute() {
    let engine = VsaEngine::new(32);
    let values: Vec<i64> = (0..32).map(|x| x * 3 - 7).collect();
    let mut in_place = values.clone();
    engine.permute_data(&mut in_place, 3);
    assert_eq!(in_place, engine.permute(&values, 3));
}

#[test]
fn engine_of_dimension_zero_and_one() {
    let e0 = VsaEngine::new(0);
    assert!(e0.perm_forward.is_empty());
    let e1 = VsaEngine::new(1);
    assert_eq!(e1.perm_forward, vec![0usize]);
    assert_eq!(e1.perm_inverse, vec![0usize]);
}

#[test]
fn engine_steps_compose() {
    let engine = VsaEngine::new(40);
    let values: Vec<u16> = (0..40).collect();
    assert_eq!(engine.permute(&engine.permute(&values, 2), 3), engine.permute(&values, 5));
    assert_eq!(engine.unpermute(&engine.unpermute(&values, 4), 1), engine.unpermute(&values, 5));
}

#[test]
fn engine_well_formedness_check() {
    assert!(VsaEngine::new(33).is_well_formed());
    let bad = VsaEngine { perm_forward: vec![0, 0], perm_inverse: vec![0, 1], dim: 2 };
    assert!(!bad.is_well_formed());
    let short = VsaEngine { perm_forward: vec![0], perm_inverse: vec![0], dim: 2 };
    assert!(!short.is_well_formed());
    let swapped = VsaEngine { perm_forward: vec![1, 0], perm_inverse: vec![1, 0], dim: 2 };
    assert!(swapped.is_well_formed());
}
