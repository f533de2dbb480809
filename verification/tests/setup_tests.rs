use guddalm_vsa::bsc::BinaryHDVector;
use guddalm_vsa::setup::{BscSetup, FhrrSetup, MapSetup, VsaMode, VsaSystem, VsaSystemOptions};

#[test]
fn default_dimensions() {
    assert_eq!(MapSetup::DEFAULT_DIM, 4096);
    assert_eq!(BscSetup::DEFAULT_DIM, 4096);
    assert_eq!(FhrrSetup::DEFAULT_DIM, 1024);
    assert_eq!(VsaMode::MapMode.default_dim(), 4096);
    assert_eq!(VsaMode::Bsc.default_dim(), 4096);
    assert_eq!(VsaMode::Fhrr.default_dim(), 1024);
}

#[test]
fn options_constructors() {
    let d = VsaSystemOptions::default();
    assert!(matches!(d.mode, VsaMode::MapMode));
    assert_eq!(d.dim, 4096);
    assert!(matches!(VsaSystemOptions::map(10).mode, VsaMode::MapMode));
    assert!(matches!(VsaSystemOptions::bsc(11).mode, VsaMode::Bsc));
    assert!(matches!(VsaSystemOptions::fhrr(12).mode, VsaMode::Fhrr));
    assert_eq!(VsaSystemOptions::fhrr(12).dim, 12);
    let o = VsaSystemOptions::new(VsaMode::Bsc, 77);
    assert_eq!(o.dim, 77);
}

#[test]
fn system_keeps_options() {
    for mode in [VsaMode::MapMode, VsaMode::Bsc, VsaMode::Fhrr] {
        let system = VsaSystem::new(VsaSystemOptions::new(mode, 1024));
        assert_eq!(system.dim(), 1024);
        assert_eq!(system.mode().default_dim(), mode.default_dim());
    }
}

#[test]
fn bsc_setup_default_vector_dimension() {
    let v = BinaryHDVector::random(BscSetup::DEFAULT_DIM);
    assert_eq!(v.dim(), BscSetup::DEFAULT_DIM);
    assert_eq!(v.words().len(), 64);
}
