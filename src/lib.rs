//! A small content-addressable object store: objects are framed as
//! `<kind> <size>\0<content>`, named by the SHA-1 digest of that framing and
//! kept compressed with zlib.

mod bytes;
mod codec;
mod error;
mod framing;
mod hashing;
mod object_id;

pub use error::{ErrorView, ObjectError};
pub use object_id::{
    hex_digit, hex_lower, is_digest_text, is_hex_char, lemma_path_identifies, ObjectId,
};
pub use framing::{
    decimal, decoded_as, digits_value, first_index, header, header_bytes, is_digit, is_first,
    kind_of_token, kind_token, lemma_declared_too_long, lemma_extra_bytes, lemma_parse_framed,
    lemma_round_trip, object_bytes, parse_object, parse_spec, size_of_token, Kind,
};
pub use codec::{
    decode_object, encode_object, hash_object, inflated, lemma_decode_after_encode,
    lemma_encode_deterministic, object_digest, zlib_best, EncodedObject,
};
pub use hashing::{sha1_of, HashWriter};
