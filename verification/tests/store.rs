use std::io::Write;

use gitobj::error::StoreError;
use gitobj::kind::Kind;
use gitobj::store::{build_object, decode_stored, plan_init, put_get_round_trip, Store};

fn zlib(data: &[u8]) -> Vec<u8> {
    let mut enc = flate2::write::ZlibEncoder::new(Vec::new(), flate2::Compression::default());
    enc.write_all(data).unwrap();
    enc.finish().unwrap()
}

#[test]
fn known_blob_identifier() {
    let mut s = Store::new();
    let id = s.put(Kind::Blob, b"hello world\n", true);
    assert_eq!(id, "3b18e512dba79e4c8300dd08aeb37f8e728b8dad");
    let payload = s.get(&id).unwrap();
    assert_eq!(payload, b"hello world\n".to_vec());
}

#[test]
fn known_empty_blob_identifier() {
    let mut s = Store::new();
    let id = s.put(Kind::Blob, b"", true);
    assert_eq!(id, "e69de29bb2d1d6434b8b29ae775ad8c2e48c5391");
    assert_eq!(s.get(&id).unwrap(), Vec::<u8>::new());
}

#[test]
fn round_trip_various_payloads() {
    let cases: Vec<Vec<u8>> = vec![
        Vec::new(),
        b"a".to_vec(),
        b"hello world\n".to_vec(),
        (0u8..=255).collect(),
        vec![0u8; 1000],
        b"line one\nline two\0embedded nul\n".to_vec(),
    ];
    for payload in cases {
        let mut s = Store::new();
        let id = s.put(Kind::Blob, &payload, true);
        assert_eq!(s.get(&id).unwrap(), payload);
    }
}

#[test]
fn round_trip_function_is_identity() {
    assert_eq!(put_get_round_trip(b"xyz"), b"xyz".to_vec());
    assert_eq!(put_get_round_trip(b""), Vec::<u8>::new());
}

#[test]
fn identifier_is_deterministic() {
    let mut s = Store::new();
    let dry1 = s.put(Kind::Blob, b"same bytes", false);
    let dry2 = s.put(Kind::Blob, b"same bytes", false);
    let wet = s.put(Kind::Blob, b"same bytes", true);
    assert_eq!(dry1, dry2);
    assert_eq!(dry1, wet);
}

#[test]
fn dry_run_stores_nothing() {
    let mut s = Store::new();
    let id = s.put(Kind::Blob, b"dry", false);
    assert_eq!(s.get(&id).unwrap_err(), StoreError::ObjectNotFound);
}

#[test]
fn put_is_idempotent() {
    let mut s = Store::new();
    let id1 = s.put(Kind::Blob, b"twice", true);
    let id2 = s.put(Kind::Blob, b"twice", true);
    assert_eq!(id1, id2);
    assert_eq!(s.get(&id1).unwrap(), b"twice".to_vec());
}

#[test]
fn stored_tree_is_unsupported_on_read() {
    let mut s = Store::new();
    let id = s.put(Kind::Tree, b"entries", true);
    assert_eq!(s.get(&id).unwrap_err(), StoreError::UnsupportedKind);
}

#[test]
fn get_rejects_malformed_identifier() {
    let s = Store::new();
    assert_eq!(s.get("abc").unwrap_err(), StoreError::InvalidIdentifier);
    assert_eq!(
        s.get("3B18E512DBA79E4C8300DD08AEB37F8E728B8DAD").unwrap_err(),
        StoreError::InvalidIdentifier
    );
    assert_eq!(
        s.get("3b18e512dba79e4c8300dd08aeb37f8e728b8daz").unwrap_err(),
        StoreError::InvalidIdentifier
    );
}

#[test]
fn get_reports_absent_object() {
    let s = Store::new();
    assert_eq!(
        s.get("a94a8fe5ccb19ba61c4c0873d391e987982fbbd3").unwrap_err(),
        StoreError::ObjectNotFound
    );
}

#[test]
fn built_object_matches_store_layout() {
    let b = build_object(Kind::Blob, b"hello world\n");
    assert_eq!(b.id, "3b18e512dba79e4c8300dd08aeb37f8e728b8dad");
    assert_eq!(b.dir, "3b");
    assert_eq!(b.file, "18e512dba79e4c8300dd08aeb37f8e728b8dad");
    assert_eq!(decode_stored(&b.bytes).unwrap(), b"hello world\n".to_vec());
}

#[test]
fn built_bytes_are_the_compressed_frame() {
    let b = build_object(Kind::Blob, b"abc");
    assert_eq!(b.bytes, zlib(b"blob 3\0abc"));
}

#[test]
fn decode_stored_round_trips_external_compression() {
    let compressed = zlib(b"blob 5\0hello");
    assert_eq!(decode_stored(&compressed).unwrap(), b"hello".to_vec());
}

#[test]
fn decode_stored_rejects_unsupported_kind() {
    let compressed = zlib(b"tree 4\0abcd");
    assert_eq!(
        decode_stored(&compressed).unwrap_err(),
        StoreError::UnsupportedKind
    );
}

#[test]
fn decode_stored_detects_truncated_stream() {
    let mut compressed = zlib(b"blob 26\0some reasonably long text\n");
    compressed.truncate(compressed.len() - 5);
    assert_eq!(
        decode_stored(&compressed).unwrap_err(),
        StoreError::TruncatedStream
    );
}

#[test]
fn decode_stored_detects_corrupt_stream() {
    let garbage = vec![0x12u8, 0x34, 0x56, 0x78, 0x9a];
    assert_eq!(
        decode_stored(&garbage).unwrap_err(),
        StoreError::CorruptStream
    );
}

#[test]
fn decode_stored_propagates_frame_errors() {
    assert_eq!(
        decode_stored(&zlib(b"blob 3\0abcd")).unwrap_err(),
        StoreError::TrailingData
    );
    assert_eq!(
        decode_stored(&zlib(b"blob 3\0ab")).unwrap_err(),
        StoreError::InvalidSize
    );
    assert_eq!(
        decode_stored(&zlib(b"what 3\0abc")).unwrap_err(),
        StoreError::UnknownKind
    );
}

#[test]
fn init_plan_creates_fixed_skeleton() {
    let layout = plan_init(false).unwrap();
    assert_eq!(layout.root, ".git");
    assert_eq!(layout.objects_dir, ".git/objects");
    assert_eq!(layout.refs_dir, ".git/refs");
    assert_eq!(layout.head_file, ".git/HEAD");
    assert_eq!(layout.head_contents, "ref: refs/heads/main\n");
}

#[test]
fn init_on_existing_root_always_fails_the_same_way() {
    assert_eq!(plan_init(true).unwrap_err(), StoreError::AlreadyInitialized);
    assert_eq!(plan_init(true).unwrap_err(), StoreError::AlreadyInitialized);
    let first = plan_init(false).unwrap();
    let second = plan_init(false).unwrap();
    assert_eq!(first.root, second.root);
    assert_eq!(first.objects_dir, second.objects_dir);
    assert_eq!(first.refs_dir, second.refs_dir);
    assert_eq!(first.head_file, second.head_file);
    assert_eq!(first.head_contents, second.head_contents);
}
