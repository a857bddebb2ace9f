//! Content hashing: streams file bytes through the 64-bit xxHash primitive
//! in bounded chunks, so a file is never loaded into memory whole.
//!
//! The digest itself is computed by the `twox_hash` crate; this module pins
//! down its behaviour: the digest is a function of the byte stream alone.

use vstd::prelude::*;

verus! {

#[verifier::external_type_specification]
#[verifier::external_body]
pub struct ExXxHash64(twox_hash::XxHash64);

/// The 64-bit xxHash digest, at seed 0, of a byte sequence.
pub uninterp spec fn xxh64(bytes: Seq<u8>) -> u64;

/// The bytes a hasher has consumed so far, oldest first.
pub uninterp spec fn consumed(h: twox_hash::XxHash64) -> Seq<u8>;

/// Relies on `twox_hash::XxHash64::with_seed`: a freshly seeded hasher has
/// consumed no bytes.
#[verifier::external_body]
fn hasher_with_seed_zero() -> (h: twox_hash::XxHash64)
    ensures
        consumed(h) == Seq::<u8>::empty(),
{
    twox_hash::XxHash64::with_seed(0)
}

/// Relies on the `core::hash::Hasher` impl of `twox_hash::XxHash64`: `write`
/// appends the given bytes to the stream being digested. The hasher tracks
/// the stream length in a `u64`, so the total is kept under that bound.
#[verifier::external_body]
fn hasher_write(h: &mut twox_hash::XxHash64, data: &[u8])
    requires
        consumed(*old(h)).len() + data@.len() <= u64::MAX,
    ensures
        consumed(*final(h)) == consumed(*old(h)) + data@,
{
    core::hash::Hasher::write(h, data)
}

/// Relies on the `core::hash::Hasher` impl of `twox_hash::XxHash64`:
/// `finish` returns the digest of everything written, a deterministic
/// function of the seed and the consumed bytes alone.
#[verifier::external_body]
fn hasher_finish(h: &twox_hash::XxHash64) -> (r: u64)
    ensures
        r == xxh64(consumed(*h)),
{
    core::hash::Hasher::finish(h)
}

/// Streams content through the hash primitive chunk by chunk and produces
/// the 64-bit digest of everything fed so far.
pub struct StreamHasher {
    inner: twox_hash::XxHash64,
}

impl StreamHasher {
    /// All bytes fed to this hasher so far, oldest first.
    pub closed spec fn fed(&self) -> Seq<u8> {
        consumed(self.inner)
    }

    /// A fresh hasher that has seen no bytes.
    pub fn new() -> (h: StreamHasher)
        ensures
            h.fed() == Seq::<u8>::empty(),
    {
        StreamHasher { inner: hasher_with_seed_zero() }
    }

    /// Feed one chunk of content, appending it to the digested stream.
    pub fn update(&mut self, chunk: &[u8])
        requires
            old(self).fed().len() + chunk@.len() <= u64::MAX,
        ensures
            final(self).fed() == old(self).fed() + chunk@,
    {
        hasher_write(&mut self.inner, chunk);
    }

    /// The digest of every byte fed so far.
    pub fn digest(&self) -> (r: u64)
        ensures
            r == xxh64(self.fed()),
    {
        hasher_finish(&self.inner)
    }
}

/// The digest of a byte slice taken in one step. Equal to feeding the same
/// bytes chunk by chunk, since both digest the same stream.
pub fn digest_of_bytes(data: &[u8]) -> (r: u64)
    requires
        data@.len() <= u64::MAX,
    ensures
        r == xxh64(data@),
{
    let mut h = StreamHasher::new();
    h.update(data);
    h.digest()
}

} // verus!
