use std::io::{Read, Write};

use blobstore::{
    decode_object, encode_object, hash_object, header, parse_object, HashWriter, Kind,
    ObjectError, ObjectId,
};

fn zlib(data: &[u8]) -> Vec<u8> {
    let mut e = flate2::write::ZlibEncoder::new(Vec::new(), flate2::Compression::default());
    e.write_all(data).unwrap();
    e.finish().unwrap()
}

fn unzlib(data: &[u8]) -> Vec<u8> {
    let mut out = Vec::new();
    flate2::read::ZlibDecoder::new(data).read_to_end(&mut out).unwrap();
    out
}

const HELLO_ID: &str = "ce013625030ba8dba906f756967f9e9ca394464a";

#[test]
fn header_of_hello() {
    assert_eq!(header(Kind::Blob, 6), b"blob 6\0".to_vec());
    assert_eq!(header(Kind::Blob, 0), b"blob 0\0".to_vec());
    assert_eq!(header(Kind::Blob, 1234567), b"blob 1234567\0".to_vec());
}

#[test]
fn hello_digest() {
    let id = hash_object(Kind::Blob, b"hello\n");
    assert_eq!(id.as_bytes(), HELLO_ID.as_bytes());
    assert!(id.as_bytes().starts_with(b"ce013625030ba8dba906f756967f9e9ca394464"));
}

#[test]
fn empty_blob_digest() {
    let id = hash_object(Kind::Blob, b"");
    assert_eq!(id.as_bytes(), b"e69de29bb2d1d6434b8b29ae775ad8c2e48c5391");
}

#[test]
fn hello_encode_then_decode() {
    let e = encode_object(Kind::Blob, b"hello\n").unwrap();
    assert_eq!(e.id.as_bytes(), HELLO_ID.as_bytes());
    assert_eq!(unzlib(&e.compressed), b"blob 6\0hello\n".to_vec());
    let (kind, content) = decode_object(&e.compressed).unwrap();
    assert_eq!(kind, Kind::Blob);
    assert_eq!(content, b"hello\n".to_vec());
}

#[test]
fn round_trip_binary_content() {
    let content: Vec<u8> = (0..3000u32).map(|i| (i * 7 % 256) as u8).collect();
    let e = encode_object(Kind::Blob, &content).unwrap();
    let (kind, back) = decode_object(&e.compressed).unwrap();
    assert_eq!(kind, Kind::Blob);
    assert_eq!(back, content);
}

#[test]
fn encoding_is_deterministic() {
    let a = encode_object(Kind::Blob, b"same bytes").unwrap();
    let b = encode_object(Kind::Blob, b"same bytes").unwrap();
    assert_eq!(a.id, b.id);
    assert_eq!(a.compressed, b.compressed);
    let c = encode_object(Kind::Blob, b"other bytes").unwrap();
    assert_ne!(a.id, c.id);
}

#[test]
fn decoded_size_matches_content() {
    let e = encode_object(Kind::Blob, b"abcdefghij").unwrap();
    let raw = unzlib(&e.compressed);
    assert!(raw.starts_with(b"blob 10\0"));
    assert_eq!(raw.len(), 8 + 10);
}

#[test]
fn no_nul_is_corrupt() {
    assert_eq!(decode_object(&zlib(b"blob 5 hello")), Err(ObjectError::CorruptObject));
    assert_eq!(parse_object(b""), Err(ObjectError::CorruptObject));
}

#[test]
fn truncated_object() {
    assert_eq!(decode_object(&zlib(b"blob 10\0abcde")), Err(ObjectError::TruncatedObject));
}

#[test]
fn trailing_data() {
    assert_eq!(decode_object(&zlib(b"blob 3\0abcd")), Err(ObjectError::TrailingData));
    assert_eq!(parse_object(b"blob 3\0abc"), Ok((Kind::Blob, b"abc".to_vec())));
}

#[test]
fn unknown_kind_keeps_token() {
    assert_eq!(
        parse_object(b"tree 0\0"),
        Err(ObjectError::UnknownKind(b"tree".to_vec()))
    );
}

#[test]
fn header_without_space_is_corrupt() {
    assert_eq!(parse_object(b"blob5\0hello"), Err(ObjectError::CorruptObject));
}

#[test]
fn bad_sizes_are_corrupt() {
    assert_eq!(parse_object(b"blob \0"), Err(ObjectError::CorruptObject));
    assert_eq!(parse_object(b"blob +3\0abc"), Err(ObjectError::CorruptObject));
    assert_eq!(parse_object(b"blob 3x\0abc"), Err(ObjectError::CorruptObject));
    assert_eq!(
        parse_object(b"blob 99999999999999999999999\0abc"),
        Err(ObjectError::CorruptObject)
    );
}

#[test]
fn garbage_stream_is_io_error() {
    assert_eq!(decode_object(b"not zlib at all"), Err(ObjectError::Io));
}

#[test]
fn object_id_paths() {
    let id = ObjectId::parse(HELLO_ID).unwrap();
    assert_eq!(id.dir_name(), b"ce".to_vec());
    assert_eq!(id.file_name(), b"013625030ba8dba906f756967f9e9ca394464a".to_vec());
    let upper = ObjectId::parse("CE013625030BA8DBA906F756967F9E9CA394464A").unwrap();
    assert_eq!(upper.dir_name(), b"CE".to_vec());
}

#[test]
fn invalid_digests_are_rejected() {
    assert_eq!(ObjectId::parse(""), Err(ObjectError::InvalidDigest));
    assert_eq!(
        ObjectId::parse("ce013625030ba8dba906f756967f9e9ca394464"),
        Err(ObjectError::InvalidDigest)
    );
    assert_eq!(
        ObjectId::parse("ce013625030ba8dba906f756967f9e9ca394464aa"),
        Err(ObjectError::InvalidDigest)
    );
    assert_eq!(
        ObjectId::parse("ce013625030ba8dba906f756967f9e9ca394464g"),
        Err(ObjectError::InvalidDigest)
    );
}

#[test]
fn from_digest_renders_lowercase_hex() {
    let raw: Vec<u8> = (0..20u8).map(|i| i * 13).collect();
    let id = ObjectId::from_digest(&raw);
    assert_eq!(id.as_bytes(), b"000d1a2734414e5b6875828f9ca9b6c3d0ddeaf7");
}

#[test]
fn hash_writer_hashes_only_accepted_bytes() {
    let mut w = HashWriter::new(Vec::<u8>::new());
    w.record(b"blob 6\0hello\nEXTRA", 13);
    let (_, digest) = w.finalize();
    let id = ObjectId::from_digest(&digest);
    assert_eq!(id.as_bytes(), HELLO_ID.as_bytes());
}

#[test]
fn hash_writer_forwards_and_hashes_whole_writes() {
    let mut w = HashWriter::new(Vec::<u8>::new());
    assert_eq!(w.write(b"blob 6\0"), 7);
    assert_eq!(w.write(b"hello\n"), 6);
    assert_eq!(w.get_ref(), &b"blob 6\0hello\n".to_vec());
    let (sink, digest) = w.finalize();
    assert_eq!(sink, b"blob 6\0hello\n".to_vec());
    assert_eq!(ObjectId::from_digest(&digest).as_bytes(), HELLO_ID.as_bytes());
}
