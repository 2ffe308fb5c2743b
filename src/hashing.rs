use vstd::prelude::*;

use sha1::Digest;

verus! {

/// The SHA-1 digest of a byte sequence.
pub uninterp spec fn sha1_of(data: Seq<u8>) -> Seq<u8>;

/// Relies on sha1::Sha1 through digest::Digest::digest: the 20-byte SHA-1 of
/// the input.
#[verifier::external_body]
fn sha1_digest(data: &[u8]) -> (r: Vec<u8>)
    ensures
        r@ == sha1_of(data@),
        r@.len() == 20,
{
    sha1::Sha1::digest(data).to_vec()
}

/// A sink wrapper that feeds every byte the inner sink accepts into a
/// running digest, in order and exactly once.
pub struct HashWriter<W> {
    writer: W,
    hashed: Vec<u8>,
}

impl<W> HashWriter<W> {
    /// The inner sink.
    pub closed spec fn sink(&self) -> W {
        self.writer
    }

    /// The bytes the digest has taken in so far.
    pub closed spec fn hashed(&self) -> Seq<u8> {
        self.hashed@
    }

    /// A writer over `writer` that has hashed nothing yet.
    pub fn new(writer: W) -> (r: HashWriter<W>)
        ensures
            r.sink() == writer,
            r.hashed() == Seq::<u8>::empty(),
    {
        HashWriter { writer, hashed: Vec::new() }
    }

    /// Hashes the first `accepted` bytes of `buf`: the ones the inner sink
    /// took from a write of `buf`.
    pub fn record(&mut self, buf: &[u8], accepted: usize)
        requires
            accepted <= buf@.len(),
        ensures
            final(self).hashed() == old(self).hashed() + buf@.subrange(0, accepted as int),
            final(self).sink() == old(self).sink(),
    {
        let ghost before = self.hashed@;
        let ghost sink = self.writer;
        let mut i: usize = 0;
        while i < accepted
            invariant
                self.writer == sink,
                i <= accepted <= buf@.len(),
                self.hashed@ == before + buf@.subrange(0, i as int),
            decreases accepted - i,
        {
            self.hashed.push(buf[i]);
            i = i + 1;
            assert(self.hashed@ =~= before + buf@.subrange(0, i as int));
        }
    }

    /// The inner sink.
    pub fn get_ref(&self) -> (r: &W)
        ensures
            *r == self.sink(),
    {
        &self.writer
    }

    /// Ends hashing: gives back the inner sink and the digest of all the
    /// bytes it accepted.
    pub fn finalize(self) -> (r: (W, Vec<u8>))
        ensures
            r.0 == self.sink(),
            r.1@ == sha1_of(self.hashed()),
            r.1@.len() == 20,
    {
        let digest = sha1_digest(self.hashed.as_slice());
        (self.writer, digest)
    }
}

impl HashWriter<Vec<u8>> {
    /// Writes all of `buf` into the in-memory sink, which accepts every byte.
    pub fn write(&mut self, buf: &[u8]) -> (n: usize)
        ensures
            n == buf@.len(),
            final(self).sink()@ == old(self).sink()@ + buf@,
            final(self).hashed() == old(self).hashed() + buf@,
    {
        let ghost before = self.writer@;
        let ghost taken = self.hashed@;
        let mut i: usize = 0;
        while i < buf.len()
            invariant
                self.hashed@ == taken,
                i <= buf@.len(),
                self.writer@ == before + buf@.subrange(0, i as int),
            decreases buf.len() - i,
        {
            self.writer.push(buf[i]);
            i = i + 1;
            assert(self.writer@ =~= before + buf@.subrange(0, i as int));
        }
        assert(buf@.subrange(0, buf@.len() as int) =~= buf@);
        self.record(buf, buf.len());
        buf.len()
    }
}

} // verus!
