use vstd::prelude::*;

use std::io::{Read, Write};

use crate::error::ObjectError;
use crate::framing::{decoded_as, header, object_bytes, parse_object, parse_spec, Kind};
use crate::hashing::{sha1_of, HashWriter};
use crate::object_id::{hex_lower, ObjectId};

verus! {

/// The zlib stream that flate2 produces at its best compression level.
pub uninterp spec fn zlib_best(data: Seq<u8>) -> Seq<u8>;

/// What flate2's zlib decoder yields when a stream is read to its end:
/// `None` where it reports an error.
pub uninterp spec fn inflated(data: Seq<u8>) -> Option<Seq<u8>>;

/// Relies on flate2::write::ZlibEncoder with Compression::best(), writing
/// into a `Vec`: the finished zlib stream of the input. With the in-memory
/// sink neither `write_all` nor `finish` reports an error.
#[verifier::external_body]
fn deflate_best(data: &[u8]) -> (r: Option<Vec<u8>>)
    ensures
        r is Some,
        match r {
            Some(v) => v@ == zlib_best(data@),
            None => true,
        },
{
    let mut encoder = flate2::write::ZlibEncoder::new(Vec::new(), flate2::Compression::best());
    match encoder.write_all(data) {
        Ok(()) => encoder.finish().ok(),
        Err(_) => None,
    }
}

/// Relies on flate2::read::ZlibDecoder, read to the end: the result depends
/// on the input alone, and a zlib stream decompresses to the bytes it was
/// made from. A decoder error comes back as `None`.
#[verifier::external_body]
fn inflate(data: &[u8]) -> (r: Option<Vec<u8>>)
    ensures
        match r {
            Some(v) => inflated(data@) == Some(v@),
            None => inflated(data@) is None,
        },
        forall|x: Seq<u8>|
            #[trigger] zlib_best(x) == data@ ==> match r {
                Some(v) => v@ == x,
                None => false,
            },
{
    let mut out = Vec::new();
    match flate2::read::ZlibDecoder::new(data).read_to_end(&mut out) {
        Ok(_) => Some(out),
        Err(_) => None,
    }
}

/// The digest text of an object: lowercase hex of the SHA-1 of its framing.
pub open spec fn object_digest(k: Kind, content: Seq<u8>) -> Seq<u8> {
    hex_lower(sha1_of(object_bytes(k, content)))
}

/// An object ready to be stored: its id and its compressed framing.
pub struct EncodedObject {
    pub id: ObjectId,
    pub compressed: Vec<u8>,
}

/// Frames `content` and hashes the framing as it is written.
fn frame_and_hash(kind: Kind, content: &[u8]) -> (r: (Vec<u8>, ObjectId))
    ensures
        r.0@ == object_bytes(kind, content@),
        r.1@ == object_digest(kind, content@),
        r.1.wf(),
{
    let head = header(kind, content.len());
    let mut w = HashWriter::new(Vec::new());
    w.write(head.as_slice());
    w.write(content);
    let (raw, digest) = w.finalize();
    (raw, ObjectId::from_digest(digest.as_slice()))
}

/// The id an object of `kind` with `content` gets, without storing it.
pub fn hash_object(kind: Kind, content: &[u8]) -> (r: ObjectId)
    ensures
        r@ == object_digest(kind, content@),
        r.wf(),
{
    let (_, id) = frame_and_hash(kind, content);
    id
}

/// Frames, hashes and compresses an object. Everything happens in memory,
/// so it always succeeds.
pub fn encode_object(kind: Kind, content: &[u8]) -> (r: Result<EncodedObject, ObjectError>)
    ensures
        r is Ok,
        match r {
            Ok(e) => e.id@ == object_digest(kind, content@) && e.id.wf() && e.compressed@
                == zlib_best(object_bytes(kind, content@)),
            Err(err) => err == ObjectError::Io,
        },
{
    let (raw, id) = frame_and_hash(kind, content);
    match deflate_best(raw.as_slice()) {
        Some(compressed) => Ok(EncodedObject { id, compressed }),
        None => Err(ObjectError::Io),
    }
}

/// Decompresses stored bytes and decodes the object they hold. A stream
/// that does not decompress is an I/O error; what decompresses is decoded as
/// [`parse_object`] decodes it.
pub fn decode_object(compressed: &[u8]) -> (r: Result<(Kind, Vec<u8>), ObjectError>)
    ensures
        match inflated(compressed@) {
            None => r == Err::<(Kind, Vec<u8>), ObjectError>(ObjectError::Io),
            Some(x) => decoded_as(r, parse_spec(x)),
        },
        forall|x: Seq<u8>| #[trigger] zlib_best(x) == compressed@ ==> decoded_as(r, parse_spec(x)),
{
    match inflate(compressed) {
        Some(raw) => {
            let r = parse_object(raw.as_slice());
            assert(decoded_as(r, parse_spec(raw@)));
            r
        },
        None => Err(ObjectError::Io),
    }
}

/// Decoding the compressed bytes of an encoded object gives back its kind
/// and content.
pub proof fn lemma_decode_after_encode(
    k: Kind,
    content: Seq<u8>,
    compressed: Seq<u8>,
    r: Result<(Kind, Vec<u8>), ObjectError>,
)
    requires
        content.len() <= usize::MAX,
        compressed == zlib_best(object_bytes(k, content)),
        forall|x: Seq<u8>| #[trigger] zlib_best(x) == compressed ==> decoded_as(r, parse_spec(x)),
    ensures
        r matches Ok((k2, c)) && k2 == k && c@ == content,
{
    crate::framing::lemma_round_trip(k, content);
    assert(decoded_as(r, parse_spec(object_bytes(k, content))));
}

/// Encoding the same kind and content twice gives the same id and the same
/// compressed bytes.
pub proof fn lemma_encode_deterministic(k: Kind, c1: Seq<u8>, c2: Seq<u8>)
    requires
        c1 == c2,
    ensures
        object_digest(k, c1) == object_digest(k, c2),
        zlib_best(object_bytes(k, c1)) == zlib_best(object_bytes(k, c2)),
{
}

} // verus!
