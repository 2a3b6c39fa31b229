use crate::hex::{hex_of, lemma_hex_len, to_hex};
use crate::index::{is_digest, lemma_hex_chars};
use sha2::Digest;
use vstd::prelude::*;

verus! {

/// The bytes an accumulator has absorbed since it was made or last reset.
pub uninterp spec fn absorbed(h: StreamHasher) -> Seq<u8>;

/// The SHA-256 digest of a byte sequence.
pub uninterp spec fn sha256_of(data: Seq<u8>) -> Seq<u8>;

/// The fingerprint of a file's content: its SHA-256 digest in lowercase hex.
pub open spec fn digest_hex(content: Seq<u8>) -> Seq<char> {
    hex_of(sha256_of(content))
}

/// The bytes of a sequence of chunks, in order.
pub open spec fn flatten(chunks: Seq<Seq<u8>>) -> Seq<u8>
    decreases chunks.len(),
{
    if chunks.len() == 0 {
        Seq::empty()
    } else {
        flatten(chunks.drop_last()) + chunks.last()
    }
}

/// An incremental SHA-256 accumulator, fed one chunk at a time, so that a
/// file never has to fit in memory. Each worker owns one. sha2's `Sha256`
/// is an alias of nested generic wrappers that cannot be declared as an
/// outside type, so it is held here opaquely and described by `absorbed`.
#[verifier::external_body]
pub struct StreamHasher {
    inner: sha2::Sha256,
}

/// Relies on sha2's `Sha256::new`: a new accumulator has absorbed nothing.
#[verifier::external_body]
fn sha256_new() -> (r: StreamHasher)
    ensures
        absorbed(r) == Seq::<u8>::empty(),
{
    StreamHasher { inner: sha2::Sha256::new() }
}

/// Relies on sha2's `Digest::update`: the chunk is appended to the input.
#[verifier::external_body]
fn sha256_update(h: &mut StreamHasher, chunk: &[u8])
    ensures
        absorbed(*final(h)) == absorbed(*old(h)) + chunk@,
{
    h.inner.update(chunk)
}

/// Relies on sha2's `Digest::finalize_reset`: the 32-byte digest of all input
/// so far, after which the accumulator is back in its initial state.
#[verifier::external_body]
fn sha256_finalize_reset(h: &mut StreamHasher) -> (r: Vec<u8>)
    ensures
        r@ == sha256_of(absorbed(*old(h))),
        r@.len() == 32,
        absorbed(*final(h)) == Seq::<u8>::empty(),
{
    h.inner.finalize_reset().to_vec()
}

impl StreamHasher {
    pub fn new() -> (r: StreamHasher)
        ensures
            absorbed(r) == Seq::<u8>::empty(),
    {
        sha256_new()
    }

    /// Feeds the next chunk of content.
    pub fn absorb(&mut self, chunk: &[u8])
        ensures
            absorbed(*final(self)) == absorbed(*old(self)) + chunk@,
    {
        sha256_update(self, chunk)
    }

    /// The fingerprint of everything absorbed; the accumulator is reset, so it
    /// can hash the next file with nothing carried over.
    pub fn finish(&mut self) -> (r: String)
        ensures
            r@ == digest_hex(absorbed(*old(self))),
            is_digest(r@),
            absorbed(*final(self)) == Seq::<u8>::empty(),
    {
        let bytes = sha256_finalize_reset(self);
        proof {
            lemma_hex_len(bytes@);
            lemma_hex_chars(bytes@);
        }
        to_hex(bytes.as_slice())
    }
}

/// Hashes content given as a sequence of chunks with an accumulator that
/// starts and ends empty.
pub fn digest_chunks(h: &mut StreamHasher, chunks: &Vec<Vec<u8>>) -> (r: String)
    requires
        absorbed(*old(h)) == Seq::<u8>::empty(),
    ensures
        r@ == digest_hex(flatten(chunks@.map_values(|c: Vec<u8>| c@))),
        is_digest(r@),
        absorbed(*final(h)) == Seq::<u8>::empty(),
{
    let ghost cs = chunks@.map_values(|c: Vec<u8>| c@);
    let mut i: usize = 0;
    while i < chunks.len()
        invariant
            i <= chunks.len(),
            cs == chunks@.map_values(|c: Vec<u8>| c@),
            absorbed(*h) == flatten(cs.subrange(0, i as int)),
        decreases chunks.len() - i,
    {
        h.absorb(chunks[i].as_slice());
        proof {
            let p = cs.subrange(0, i + 1);
            assert(p.drop_last() =~= cs.subrange(0, i as int));
            assert(p.last() == chunks@[i as int]@);
        }
        i = i + 1;
    }
    assert(cs.subrange(0, cs.len() as int) =~= cs);
    h.finish()
}

/// Hashing is deterministic: two hashings whose chunks spell the same bytes,
/// each started on a new or reset accumulator, give the same fingerprint,
/// however the content was cut into chunks.
pub proof fn law_rehash_same_digest(a: Seq<Seq<u8>>, b: Seq<Seq<u8>>)
    requires
        flatten(a) == flatten(b),
    ensures
        digest_hex(flatten(a)) == digest_hex(flatten(b)),
{
}

} // verus!
