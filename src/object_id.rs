use vstd::prelude::*;

use vstd::string::StringSliceAdditionalSpecFns;

use crate::bytes::copy_range;
use crate::error::ObjectError;

verus! {

/// The lowercase ASCII hex digit of a nibble.
pub open spec fn hex_digit(v: u8) -> u8 {
    if v < 10 {
        (48 + v) as u8
    } else {
        (87 + v) as u8
    }
}

/// Two lowercase hex digits per byte, high nibble first.
pub open spec fn hex_lower(b: Seq<u8>) -> Seq<u8>
    decreases b.len(),
{
    if b.len() == 0 {
        Seq::empty()
    } else {
        hex_lower(b.drop_last()) + seq![hex_digit(b.last() / 16), hex_digit(b.last() % 16)]
    }
}

/// An ASCII hexadecimal digit, in either case.
pub open spec fn is_hex_char(c: u8) -> bool {
    (48 <= c <= 57) || (97 <= c <= 102) || (65 <= c <= 70)
}

/// Exactly 40 hexadecimal characters: the text of a SHA-1 digest.
pub open spec fn is_digest_text(t: Seq<u8>) -> bool {
    t.len() == 40 && forall|i: int| 0 <= i < t.len() ==> is_hex_char(#[trigger] t[i])
}

proof fn lemma_hex_lower(b: Seq<u8>)
    ensures
        hex_lower(b).len() == 2 * b.len(),
        forall|i: int| 0 <= i < hex_lower(b).len() ==> is_hex_char(#[trigger] hex_lower(b)[i]),
    decreases b.len(),
{
    if b.len() > 0 {
        lemma_hex_lower(b.drop_last());
        let p = hex_lower(b.drop_last());
        let q = seq![hex_digit(b.last() / 16), hex_digit(b.last() % 16)];
        assert forall|i: int| 0 <= i < hex_lower(b).len() implies is_hex_char(
            #[trigger] hex_lower(b)[i],
        ) by {
            if i >= p.len() {
                assert(hex_lower(b)[i] == q[i - p.len()]);
            } else {
                assert(hex_lower(b)[i] == p[i]);
            }
        }
    }
}

/// Two digests with the same subdirectory and file name are the same
/// digest: stored objects never share a path.
pub proof fn lemma_path_identifies(a: Seq<u8>, b: Seq<u8>)
    requires
        is_digest_text(a),
        is_digest_text(b),
        a.subrange(0, 2) == b.subrange(0, 2),
        a.subrange(2, 40) == b.subrange(2, 40),
    ensures
        a == b,
{
    assert(a =~= a.subrange(0, 2) + a.subrange(2, 40));
    assert(b =~= b.subrange(0, 2) + b.subrange(2, 40));
}

/// Relies on hex::encode: two lowercase digits per byte, high nibble first.
#[verifier::external_body]
fn encode_hex(b: &[u8]) -> (r: Vec<u8>)
    ensures
        r@ == hex_lower(b@),
{
    hex::encode(b).into_bytes()
}

/// The name of a stored object: a validated 40-character hex digest.
#[derive(Debug, Clone, PartialEq, Eq)]
pub struct ObjectId {
    hex: Vec<u8>,
}

impl View for ObjectId {
    type V = Seq<u8>;

    closed spec fn view(&self) -> Seq<u8> {
        self.hex@
    }
}

impl ObjectId {
    /// Every id holds exactly 40 hex characters.
    pub closed spec fn wf(&self) -> bool {
        is_digest_text(self@)
    }

    /// Checks that `text` is exactly 40 hexadecimal characters.
    pub fn parse(text: &str) -> (r: Result<ObjectId, ObjectError>)
        ensures
            match r {
                Ok(id) => is_digest_text(text.spec_bytes()) && id@ == text.spec_bytes() && id.wf(),
                Err(e) => !is_digest_text(text.spec_bytes()) && e == ObjectError::InvalidDigest,
            },
    {
        let b = text.as_bytes();
        if b.len() != 40 {
            return Err(ObjectError::InvalidDigest);
        }
        let mut i: usize = 0;
        while i < b.len()
            invariant
                b@ == text.spec_bytes(),
                b@.len() == 40,
                i <= b@.len(),
                forall|j: int| 0 <= j < i ==> is_hex_char(#[trigger] b@[j]),
            decreases b.len() - i,
        {
            let c = b[i];
            if !((48 <= c && c <= 57) || (97 <= c && c <= 102) || (65 <= c && c <= 70)) {
                assert(!is_hex_char(b@[i as int]));
                return Err(ObjectError::InvalidDigest);
            }
            i = i + 1;
        }
        let hex = copy_range(b, 0, 40);
        assert(hex@ =~= b@);
        Ok(ObjectId { hex })
    }

    /// The id of a raw 20-byte SHA-1 digest, rendered in lowercase hex.
    pub fn from_digest(raw: &[u8]) -> (r: ObjectId)
        requires
            raw@.len() == 20,
        ensures
            r@ == hex_lower(raw@),
            r.wf(),
    {
        let hex = encode_hex(raw);
        proof {
            lemma_hex_lower(raw@);
        }
        ObjectId { hex }
    }

    /// The digest text itself.
    pub fn as_bytes(&self) -> (r: &[u8])
        ensures
            r@ == self@,
    {
        self.hex.as_slice()
    }

    /// The subdirectory of the stored object: the first two characters.
    pub fn dir_name(&self) -> (r: Vec<u8>)
        requires
            self.wf(),
        ensures
            r@ == self@.subrange(0, 2),
    {
        copy_range(self.hex.as_slice(), 0, 2)
    }

    /// The file name of the stored object: the remaining 38 characters.
    pub fn file_name(&self) -> (r: Vec<u8>)
        requires
            self.wf(),
        ensures
            r@ == self@.subrange(2, 40),
    {
        copy_range(self.hex.as_slice(), 2, 40)
    }
}

} // verus!
