use gitobj::codec::{decode_object, encode_object};
use gitobj::error::StoreError;
use gitobj::kind::{parse_kind, Kind};
use gitobj::numerals::{parse_decimal, to_decimal};
use gitobj::utf8::validate_utf8;

#[test]
fn encode_frames_blob() {
    let framed = encode_object(Kind::Blob, b"hello world\n");
    assert_eq!(framed, b"blob 12\0hello world\n".to_vec());
}

#[test]
fn encode_frames_empty_payload() {
    let framed = encode_object(Kind::Blob, b"");
    assert_eq!(framed, b"blob 0\0".to_vec());
}

#[test]
fn encode_frames_other_kinds() {
    assert_eq!(encode_object(Kind::Tree, b"x"), b"tree 1\0x".to_vec());
    assert_eq!(encode_object(Kind::Commit, b"x"), b"commit 1\0x".to_vec());
    assert_eq!(encode_object(Kind::Tag, b"x"), b"tag 1\0x".to_vec());
}

#[test]
fn decode_round_trips_frame() {
    let framed = encode_object(Kind::Blob, b"abc");
    let (k, payload) = decode_object(&framed).unwrap();
    assert_eq!(k, Kind::Blob);
    assert_eq!(payload, b"abc".to_vec());
}

#[test]
fn decode_accepts_tree_header() {
    let (k, payload) = decode_object(b"tree 4\0abcd").unwrap();
    assert_eq!(k, Kind::Tree);
    assert_eq!(payload, b"abcd".to_vec());
}

#[test]
fn decode_rejects_oversized_payload() {
    assert_eq!(
        decode_object(b"blob 3\0abcd").unwrap_err(),
        StoreError::TrailingData
    );
}

#[test]
fn decode_rejects_undersized_payload() {
    assert_eq!(
        decode_object(b"blob 3\0ab").unwrap_err(),
        StoreError::InvalidSize
    );
}

#[test]
fn decode_rejects_missing_nul() {
    assert_eq!(
        decode_object(b"blob 3abc").unwrap_err(),
        StoreError::MalformedHeader
    );
}

#[test]
fn decode_rejects_missing_space() {
    assert_eq!(
        decode_object(b"blob3\0abc").unwrap_err(),
        StoreError::MalformedHeader
    );
}

#[test]
fn decode_rejects_invalid_text() {
    assert_eq!(
        decode_object(b"bl\xffb 3\0abc").unwrap_err(),
        StoreError::MalformedHeader
    );
}

#[test]
fn decode_rejects_unknown_kind() {
    assert_eq!(
        decode_object(b"blobby 3\0abc").unwrap_err(),
        StoreError::UnknownKind
    );
}

#[test]
fn decode_rejects_bad_size_token() {
    assert_eq!(
        decode_object(b"blob 12a\0abc").unwrap_err(),
        StoreError::InvalidSize
    );
    assert_eq!(
        decode_object(b"blob \0abc").unwrap_err(),
        StoreError::InvalidSize
    );
    assert_eq!(
        decode_object(b"blob 99999999999999999999999999\0abc").unwrap_err(),
        StoreError::InvalidSize
    );
}

#[test]
fn kind_registry_parses_known_names() {
    assert_eq!(parse_kind(b"blob"), Some(Kind::Blob));
    assert_eq!(parse_kind(b"tree"), Some(Kind::Tree));
    assert_eq!(parse_kind(b"commit"), Some(Kind::Commit));
    assert_eq!(parse_kind(b"tag"), Some(Kind::Tag));
    assert_eq!(parse_kind(b"Blob"), None);
    assert_eq!(parse_kind(b""), None);
}

#[test]
fn only_blob_is_supported() {
    assert!(Kind::Blob.supported());
    assert!(!Kind::Tree.supported());
    assert!(!Kind::Commit.supported());
    assert!(!Kind::Tag.supported());
}

#[test]
fn decimal_rendering_is_canonical() {
    assert_eq!(to_decimal(0), b"0".to_vec());
    assert_eq!(to_decimal(12), b"12".to_vec());
    assert_eq!(to_decimal(907), b"907".to_vec());
}

#[test]
fn decimal_parsing_matches_rendering() {
    assert_eq!(parse_decimal(b"0"), Some(0));
    assert_eq!(parse_decimal(b"12"), Some(12));
    assert_eq!(parse_decimal(b"007"), Some(7));
    assert_eq!(parse_decimal(b""), None);
    assert_eq!(parse_decimal(b"1x"), None);
    assert_eq!(parse_decimal(b"99999999999999999999999999"), None);
}

#[test]
fn utf8_validation_accepts_and_rejects() {
    assert!(validate_utf8(b"blob 12"));
    assert!(validate_utf8("héllo wörld \u{1F600}".as_bytes()));
    assert!(!validate_utf8(b"bl\xffb"));
    assert!(!validate_utf8(b"\xc3"));
    assert!(!validate_utf8(b"\xed\xa0\x80"));
}

#[test]
fn error_messages_describe_failures() {
    assert_eq!(StoreError::MalformedHeader.message(), "malformed object header");
    assert_eq!(StoreError::UnknownKind.message(), "unknown object kind");
}
