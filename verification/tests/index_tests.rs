use guddalm_vsa::index::IndexVector;

fn similarity_to(a: &IndexVector, b: &IndexVector) -> f64 {
    let dim = a.dim() as f64;
    let d = a.inner().hamming_distance(b.inner()) as f64;
    (dim - 2.0 * d) / dim
}

#[test]
fn test_index_vector_bind_unbind_roundtrip() {
    let a = IndexVector::random(1024);
    let b = IndexVector::random(1024);
    let bound = a.bind(&b);
    let roundtrip = bound.unbind(&b);
    let sim = similarity_to(&roundtrip, &a);
    assert!((sim - 1.0).abs() < 1e-9, "XOR bind+unbind must recover exactly (sim={})", sim);
}

#[test]
fn test_index_vector_bundle_similarity() {
    let a = IndexVector::random(1024);
    let bundle = a.bundle(&a);
    let sim = similarity_to(&a, &bundle);
    assert!(sim > 0.99, "bundle(a,a) must be nearly identical (sim={})", sim);
}

#[test]
fn test_index_vector_permute_cycle() {
    let v = IndexVector::random(1024);
    let rotated = v.permute(1);
    let unrotated = rotated.permute(1023);
    assert_eq!(v, unrotated, "full-cycle rotation must recover original");
}

#[test]
fn test_index_vector_deterministic() {
    let v1 = IndexVector::from_key(42, "test:key", 4096);
    let v2 = IndexVector::from_key(42, "test:key", 4096);
    assert_eq!(v1, v2, "deterministic vectors must be identical");

    let v3 = IndexVector::from_key(42, "test:other", 4096);
    assert_ne!(v1, v3, "different keys must produce different vectors");
}

#[test]
fn test_index_vector_role_filler() {
    let role = IndexVector::from_key(42, "role:subject", 4096);
    let filler = IndexVector::from_key(42, "filler:cat", 4096);
    let composite = IndexVector::encode_role_filler(&role, &filler);
    let decoded = IndexVector::decode_role_filler(&composite, &role);
    let sim = similarity_to(&decoded, &filler);
    assert!((sim - 1.0).abs() < 1e-9, "role-filler must recover exactly (sim={})", sim);
}

#[test]
fn test_index_vector_bundle_all() {
    let vecs: Vec<IndexVector> = (0..5).map(|_| IndexVector::random(1024)).collect();
    let bundled = IndexVector::bundle_all(&vecs);
    let sim = similarity_to(&vecs[0], &bundled);
    assert!(sim > 0.0, "bundled must have non-zero sim to component (sim={})", sim);
}

#[test]
fn index_vector_wraps_and_unwraps() {
    let inner = guddalm_vsa::bsc::BinaryHDVector::from_bits(&[1, 0, 1]);
    let v = IndexVector::new(inner.clone());
    assert_eq!(v.dim(), 3);
    assert_eq!(v.inner(), &inner);
    assert_eq!(v.into_inner(), inner);
    assert_eq!(IndexVector::zero(5).inner().to_bits(), vec![0u8; 5]);
}

#[test]
fn index_vector_bind_is_unbind() {
    let a = IndexVector::from_key(1, "a", 200);
    let b = IndexVector::from_key(1, "b", 200);
    assert_eq!(a.bind(&b), a.unbind(&b));
    assert_eq!(a.bind(&b).bind(&b), a);
}

#[test]
fn index_vector_bundle_all_of_empty_and_one() {
    let empty: Vec<IndexVector> = Vec::new();
    assert_eq!(IndexVector::bundle_all(&empty).dim(), 0);
    let one = IndexVector::random(77);
    assert_eq!(IndexVector::bundle_all(&[one.clone()]), one);
}

#[test]
fn index_vector_reads_as_binary_vector() {
    let v = IndexVector::from_key(3, "k", 100);
    assert_eq!(v.words(), v.inner().words());
    assert_eq!(v.to_bits().len(), 100);
    assert_eq!(v.hamming_distance(v.inner()), 0);
}
