use vstd::prelude::*;

verus! {

/// The incremental hasher of the `blake3` crate, held opaque.
#[verifier::external_type_specification]
#[verifier::external_body]
pub struct ExHasher(blake3::Hasher);

/// The bytes a BLAKE3 hasher has taken in since it was made.
pub uninterp spec fn hashed_input(h: blake3::Hasher) -> Seq<u8>;

/// The 32-byte BLAKE3 digest of a byte sequence.
pub uninterp spec fn blake3_digest(data: Seq<u8>) -> Seq<u8>;

/// Relies on `blake3::Hasher::new`: a fresh hasher for the plain hash
/// function, with no input taken yet.
#[verifier::external_body]
fn new_hasher() -> (r: blake3::Hasher)
    ensures
        hashed_input(r) == Seq::<u8>::empty(),
{
    blake3::Hasher::new()
}

/// Relies on `blake3::Hasher::update`: the input is appended to what the
/// hasher has taken in (any number of calls, any split of the input).
#[verifier::external_body]
fn hasher_update(h: &mut blake3::Hasher, data: &[u8])
    ensures
        hashed_input(*final(h)) == hashed_input(*old(h)) + data@,
{
    h.update(data);
}

/// Relies on `blake3::Hasher::finalize` and `blake3::Hash::as_bytes`: the
/// 32-byte digest of everything taken in, the same as `blake3::hash` of it.
#[verifier::external_body]
fn hasher_finalize(h: &blake3::Hasher) -> (r: [u8; 32])
    ensures
        r@ == blake3_digest(hashed_input(*h)),
{
    *h.finalize().as_bytes()
}

/// A streaming content hasher: the digest depends on the bytes fed in alone,
/// never on how they were split, nor on a file's name, place or metadata.
pub struct ContentHasher {
    inner: blake3::Hasher,
}

impl ContentHasher {
    /// The bytes fed in so far.
    pub closed spec fn input(&self) -> Seq<u8> {
        hashed_input(self.inner)
    }

    pub fn new() -> (r: ContentHasher)
        ensures
            r.input() == Seq::<u8>::empty(),
    {
        ContentHasher { inner: new_hasher() }
    }

    pub fn update(&mut self, chunk: &[u8])
        ensures
            final(self).input() == old(self).input() + chunk@,
    {
        hasher_update(&mut self.inner, chunk);
    }

    pub fn finalize(&self) -> (r: [u8; 32])
        ensures
            r@ == blake3_digest(self.input()),
    {
        hasher_finalize(&self.inner)
    }
}

/// The digest of a byte buffer held whole.
pub fn hash_bytes(data: &[u8]) -> (r: [u8; 32])
    ensures
        r@ == blake3_digest(data@),
{
    let mut h = ContentHasher::new();
    h.update(data);
    assert(h.input() =~= data@);
    h.finalize()
}

} // verus!
