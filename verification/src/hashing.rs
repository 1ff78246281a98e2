//! The identifier hasher: a record's identity is the 32-byte BLAKE2b digest of
//! its canonical byte encoding, so identical content always yields the same
//! identifier.

use vstd::prelude::*;

verus! {

/// The digest of a byte sequence under BLAKE2b with a 32-byte output.
///
/// The digest is a pure function of the input bytes; no short statement of its
/// value exists, so contracts speak of it only through this name.
pub uninterp spec fn blake2b_256_of(bytes: Seq<u8>) -> Seq<u8>;

/// A 32-byte content address: the identity of a post or comment record.
#[derive(Clone, Copy, PartialEq, Eq, Debug)]
pub struct Digest {
    pub bytes: [u8; 32],
}

impl View for Digest {
    type V = Seq<u8>;

    open spec fn view(&self) -> Seq<u8> {
        self.bytes@
    }
}

impl Digest {
    /// Wraps 32 raw bytes as a content address.
    pub fn new(bytes: [u8; 32]) -> (r: Digest)
        ensures
            r@ == bytes@,
    {
        Digest { bytes }
    }
}

/// Relies on `blake2b_simd::Params`: with `hash_length(32)` the hash of `bytes`
/// is a 32-byte BLAKE2b digest, a function of the input bytes alone.
#[verifier::external_body]
pub fn blake2b_256(bytes: &Vec<u8>) -> (r: Digest)
    ensures
        r@ == blake2b_256_of(bytes@),
{
    let hash = blake2b_simd::Params::new().hash_length(32).hash(bytes.as_slice());
    let mut out = [0u8; 32];
    out.copy_from_slice(hash.as_bytes());
    Digest { bytes: out }
}

/// Compares two content addresses byte by byte.
pub fn digest_eq(a: &Digest, b: &Digest) -> (r: bool)
    ensures
        r == (a@ == b@),
{
    let mut i: usize = 0;
    while i < 32
        invariant
            i <= 32,
            forall|j: int| 0 <= j < i ==> a.bytes@[j] == b.bytes@[j],
        decreases 32 - i,
    {
        if a.bytes[i] != b.bytes[i] {
            return false;
        }
        i += 1;
    }
    proof {
        assert(a@ =~= b@);
    }
    true
}

} // verus!
