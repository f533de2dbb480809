use guddalm_vsa::frame::{frame_records, unframe_records, FrameError};

#[test]
fn frame_layout_is_count_then_length_prefixed_records() {
    let bytes = frame_records(&[vec![7u8, 8], vec![]]);
    let mut expected = Vec::new();
    expected.extend_from_slice(&2u64.to_le_bytes());
    expected.extend_from_slice(&2u64.to_le_bytes());
    expected.extend_from_slice(&[7, 8]);
    expected.extend_from_slice(&0u64.to_le_bytes());
    assert_eq!(bytes, expected);
}

#[test]
fn frame_matches_bincode_u64_encoding() {
    let payloads = vec![vec![1u8, 2, 3]];
    let bytes = frame_records(&payloads);
    assert_eq!(&bytes[..8], &bincode::serialize(&1u64).unwrap()[..]);
    assert_eq!(&bytes[8..16], &bincode::serialize(&3u64).unwrap()[..]);
}

#[test]
fn unframe_reads_back_what_was_framed() {
    let payloads = vec![vec![1u8, 2, 3], vec![], vec![255u8; 300]];
    let bytes = frame_records(&payloads);
    assert_eq!(unframe_records(&bytes), Ok(payloads));
    let empty: Vec<Vec<u8>> = Vec::new();
    assert_eq!(unframe_records(&frame_records(&empty)), Ok(empty));
}

#[test]
fn unframe_ignores_trailing_bytes() {
    let payloads = vec![vec![9u8]];
    let mut bytes = frame_records(&payloads);
    bytes.extend_from_slice(&[1, 2, 3]);
    assert_eq!(unframe_records(&bytes), Ok(payloads));
}

#[test]
fn unframe_errors() {
    assert_eq!(unframe_records(&[1, 2, 3]), Err(FrameError::MissingCount));
    let mut no_len = 1u64.to_le_bytes().to_vec();
    no_len.extend_from_slice(&[0, 0, 0]);
    assert_eq!(unframe_records(&no_len), Err(FrameError::MissingLength));
    let mut short = 1u64.to_le_bytes().to_vec();
    short.extend_from_slice(&5u64.to_le_bytes());
    short.extend_from_slice(&[1, 2]);
    assert_eq!(unframe_records(&short), Err(FrameError::TruncatedPayload));
    let mut huge = 1u64.to_le_bytes().to_vec();
    huge.extend_from_slice(&u64::MAX.to_le_bytes());
    assert_eq!(unframe_records(&huge), Err(FrameError::TruncatedPayload));
    let mut many = u64::MAX.to_le_bytes().to_vec();
    many.extend_from_slice(&0u64.to_le_bytes());
    assert_eq!(unframe_records(&many), Err(FrameError::MissingLength));
}
