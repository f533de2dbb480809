use guddalm_vsa::error::GuddaError;

#[test]
fn test_error_display() {
    let e = GuddaError::DimMismatch {
        expected: 1024,
        got: 512,
    };
    assert!(e.message().contains("1024"));
    assert!(e.message().contains("512"));
}

#[test]
fn test_from_io_error() {
    let io_err = std::io::Error::new(std::io::ErrorKind::NotFound, "file missing");
    let gudda_err: GuddaError = io_err.into();
    assert!(gudda_err.message().contains("file missing"));
}

#[test]
fn test_from_string() {
    let err: GuddaError = "something went wrong".into();
    assert!(err.message().contains("something went wrong"));
}

#[test]
fn dim_mismatch_message_is_exact() {
    let e = GuddaError::DimMismatch {
        expected: 1024,
        got: 512,
    };
    assert_eq!(e.message(), "dimension mismatch: expected 1024, got 512");
}

#[test]
fn each_variant_has_its_prefix() {
    assert_eq!(
        GuddaError::Serialize("bad".to_string()).message(),
        "serialization error: bad"
    );
    assert_eq!(
        GuddaError::Config("dim".to_string()).message(),
        "configuration error: dim"
    );
    assert_eq!(GuddaError::Parse("x".to_string()).message(), "parse error: x");
    assert_eq!(GuddaError::Other("plain".to_string()).message(), "plain");
    let io = GuddaError::Io(std::io::Error::new(std::io::ErrorKind::Other, "disk"));
    assert_eq!(io.message(), "I/O error: disk");
}

#[test]
fn from_string_is_other() {
    let err: GuddaError = String::from("owned").into();
    assert!(matches!(err, GuddaError::Other(ref m) if m == "owned"));
    let err2: GuddaError = "borrowed".into();
    assert!(matches!(err2, GuddaError::Other(ref m) if m == "borrowed"));
}

#[test]
fn zero_dimensions_print_as_zero() {
    let e = GuddaError::DimMismatch { expected: 0, got: 10 };
    assert_eq!(e.message(), "dimension mismatch: expected 0, got 10");
}

#[test]
fn outside_errors_become_serialize_errors() {
    let json_err = serde_json::from_str::<u32>("not json").unwrap_err();
    let text = json_err.to_string();
    let e: GuddaError = json_err.into();
    assert_eq!(e.message(), format!("serialization error: json: {}", text));
    let bin_err = bincode::deserialize::<u64>(&[1u8, 2]).unwrap_err();
    let text = bin_err.to_string();
    let e: GuddaError = bin_err.into();
    assert!(matches!(e, GuddaError::Serialize(ref m) if *m == format!("bincode: {}", text)));
}
