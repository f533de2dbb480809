use guddalm_vsa::vsa_persist::{
    check_schema_version, default_store_dir, model_bin_path, store_dir_in, APP_DIRNAME, BIN_DIRNAME, BIN_FILENAME, SCHEMA_VERSION,
};

#[test]
fn model_bin_path_layout() {
    let p = model_bin_path();
    assert!(p.ends_with("guddalm/vsa_model_bins/codebook_episodic.bin"));
    assert_eq!(p.parent().unwrap(), default_store_dir().as_path());
    assert_eq!(BIN_FILENAME, "codebook_episodic.bin");
    assert_eq!(BIN_DIRNAME, "vsa_model_bins");
}

#[test]
fn only_the_current_schema_is_accepted() {
    assert_eq!(SCHEMA_VERSION, 1);
    assert_eq!(check_schema_version(1), Ok(()));
    assert_eq!(check_schema_version(0), Err(0));
    assert_eq!(check_schema_version(2), Err(2));
}

#[test]
fn store_dir_without_config_dir_is_relative() {
    let d = store_dir_in(None);
    assert_eq!(d, std::path::PathBuf::from("./guddalm/vsa_model_bins"));
    let parts: Vec<String> = d
        .components()
        .map(|c| c.as_os_str().to_string_lossy().into_owned())
        .collect();
    assert_eq!(parts, vec![".", "guddalm", "vsa_model_bins"]);
}

#[test]
fn store_dir_under_config_dir() {
    let d = store_dir_in(Some(std::path::PathBuf::from("/home/u/.config")));
    assert_eq!(d, std::path::PathBuf::from("/home/u/.config/guddalm/vsa_model_bins"));
    assert_eq!(APP_DIRNAME, "guddalm");
    assert!(default_store_dir().ends_with("guddalm/vsa_model_bins"));
}
