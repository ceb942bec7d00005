use objstore::codec::{object_bytes, parse_object, push_decimal};
use objstore::digest::hash_object;
use objstore::error::StoreError;
use objstore::locator::{is_valid_digest, locate};
use objstore::store::{read_stored, should_store};
use objstore::zlib::{compress_object, decode_object, inflate_object};

const HELLO_DIGEST: &str = "b6fc4c620b67d95f953a5c1c1230aaab5db5a1b0";

#[test]
fn hello_digest() {
    assert_eq!(hash_object(b"hello"), HELLO_DIGEST);
}

#[test]
fn empty_blob_digest() {
    assert_eq!(hash_object(b""), "e69de29bb2d1d6434b8b29ae775ad8c2e48c5391");
}

#[test]
fn digest_is_deterministic() {
    let data = b"some file content\n".to_vec();
    assert_eq!(hash_object(&data), hash_object(&data.clone()));
}

#[test]
fn digest_changes_with_one_byte() {
    assert_ne!(hash_object(b"hello"), hash_object(b"hellp"));
    assert_ne!(hash_object(b"hello"), hash_object(b"Hello"));
}

#[test]
fn hello_object_bytes() {
    assert_eq!(object_bytes(b"hello"), b"blob 5\0hello".to_vec());
}

#[test]
fn empty_object_bytes() {
    assert_eq!(object_bytes(b""), b"blob 0\0".to_vec());
}

#[test]
fn header_of_longer_payload() {
    let payload = vec![7u8; 1234];
    let raw = object_bytes(&payload);
    assert_eq!(&raw[..10], b"blob 1234\0");
    assert_eq!(raw.len(), 10 + 1234);
    assert_eq!(&raw[10..], &payload[..]);
}

#[test]
fn decimal_digits() {
    let mut out = b"x".to_vec();
    push_decimal(0, &mut out);
    assert_eq!(out, b"x0".to_vec());
    let mut out = Vec::new();
    push_decimal(9071, &mut out);
    assert_eq!(out, b"9071".to_vec());
}

#[test]
fn stored_hello_inflates_to_framed_bytes() {
    let stored = compress_object(b"hello").unwrap();
    assert_ne!(stored, b"blob 5\0hello".to_vec());
    assert_eq!(inflate_object(&stored).unwrap(), b"blob 5\0hello".to_vec());
}

#[test]
fn read_back_hello() {
    let stored = compress_object(b"hello").unwrap();
    assert_eq!(decode_object(&stored).unwrap(), b"hello".to_vec());
    assert_eq!(read_stored(Some(stored)).unwrap(), b"hello".to_vec());
}

#[test]
fn round_trip_empty_and_binary() {
    let empty = compress_object(b"").unwrap();
    assert_eq!(decode_object(&empty).unwrap(), Vec::<u8>::new());
    let binary: Vec<u8> = (0..=255u8).chain(0..=255u8).collect();
    let stored = compress_object(&binary).unwrap();
    assert_eq!(decode_object(&stored).unwrap(), binary);
}

#[test]
fn missing_object_is_not_found() {
    assert_eq!(read_stored(None), Err(StoreError::ObjectNotFound));
}

#[test]
fn garbage_does_not_inflate() {
    assert_eq!(decode_object(b"not a zlib stream"), Err(StoreError::CorruptObject));
    assert_eq!(inflate_object(b""), Err(StoreError::CorruptObject));
}

#[test]
fn truncated_stream_is_corrupt() {
    let stored = compress_object(b"hello hello hello").unwrap();
    let cut = &stored[..stored.len() / 2];
    assert_eq!(decode_object(cut), Err(StoreError::CorruptObject));
}

#[test]
fn parse_takes_declared_length() {
    assert_eq!(parse_object(b"blob 2\0abc").unwrap(), b"ab".to_vec());
    assert_eq!(parse_object(b"blob 05\0hello").unwrap(), b"hello".to_vec());
    assert_eq!(parse_object(b"blob 0\0").unwrap(), Vec::<u8>::new());
}

#[test]
fn parse_rejects_malformed_headers() {
    let cases: [&[u8]; 9] = [
        b"blob 5 hello",
        b"tree 3\0abc",
        b"blob5\0hello",
        b"blob \0",
        b"blob 1a\0ab",
        b"blob -1\0a",
        b"blob 5\0hel",
        b"blob 99999999999999999999999\0x",
        b"",
    ];
    for c in cases.iter() {
        assert_eq!(parse_object(c), Err(StoreError::CorruptObject));
    }
}

#[test]
fn corrupt_header_inside_valid_stream() {
    let stored = compress_object(b"abc").unwrap();
    let mut raw = inflate_object(&stored).unwrap();
    raw.truncate(raw.len() - 1);
    assert_eq!(parse_object(&raw), Err(StoreError::CorruptObject));
}

#[test]
fn hello_path() {
    assert_eq!(
        locate(".git/objects", HELLO_DIGEST).unwrap(),
        ".git/objects/b6/fc4c620b67d95f953a5c1c1230aaab5db5a1b0"
    );
}

#[test]
fn path_splits_two_and_thirty_eight() {
    let d = "abcd".repeat(10);
    let p = locate("objects", &d).unwrap();
    assert_eq!(p, format!("objects/ab/{}", &d[2..]));
    assert_eq!(p.len(), "objects/".len() + 2 + 1 + 38);
}

#[test]
fn uppercase_digest_is_accepted() {
    let d = "ABCDEF0123".repeat(4);
    assert_eq!(locate("o", &d).unwrap(), format!("o/AB/{}", &d[2..]));
}

#[test]
fn invalid_digests() {
    assert_eq!(locate("o", "abc"), Err(StoreError::InvalidDigest));
    assert_eq!(locate("o", ""), Err(StoreError::InvalidDigest));
    let long = "a".repeat(41);
    assert_eq!(locate("o", &long), Err(StoreError::InvalidDigest));
    let bad = format!("{}g", "a".repeat(39));
    assert_eq!(locate("o", &bad), Err(StoreError::InvalidDigest));
    let accented = format!("{}é", "a".repeat(39));
    assert!(!is_valid_digest(&accented));
    assert_eq!(locate("o", &accented), Err(StoreError::InvalidDigest));
}

#[test]
fn every_digest_can_be_located() {
    for p in [&b""[..], b"hello", b"\0\0\0"] {
        let d = hash_object(p);
        assert!(is_valid_digest(&d));
        assert!(locate("objects", &d).is_ok());
    }
}

#[test]
fn store_only_when_persisting_a_new_object() {
    assert!(should_store(true, false));
    assert!(!should_store(true, true));
    assert!(!should_store(false, false));
    assert!(!should_store(false, true));
}
