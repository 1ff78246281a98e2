//! Canonical byte encoding of records.
//!
//! The digest of this encoding is a record's identity, so the layout is fixed:
//! fields in declaration order, the author as eight little-endian bytes, each
//! byte string preceded by its length as eight little-endian bytes, and a
//! content address as its 32 raw bytes.

use vstd::arithmetic::div_mod::lemma_div_denominator;
use vstd::prelude::*;

use crate::hashing::Digest;

verus! {

/// `256^i`.
pub open spec fn pow256(i: nat) -> nat
    decreases i,
{
    if i == 0 {
        1
    } else {
        256 * pow256((i - 1) as nat)
    }
}

pub proof fn lemma_pow256_pos(i: nat)
    ensures
        pow256(i) > 0,
    decreases i,
{
    if i > 0 {
        lemma_pow256_pos((i - 1) as nat);
    }
}

/// Byte `i` of the eight-byte little-endian encoding of `v`.
pub open spec fn u64_le_byte(v: u64, i: int) -> u8 {
    (((v as nat) / pow256(i as nat)) % 256) as u8
}

/// The eight-byte little-endian encoding of `v`.
pub open spec fn u64_le_bytes(v: u64) -> Seq<u8> {
    Seq::new(8, |i: int| u64_le_byte(v, i))
}

/// The canonical encoding of a post record: author, then the length-prefixed
/// message bytes.
pub open spec fn spec_encode_post(author: u64, message: Seq<u8>) -> Seq<u8> {
    u64_le_bytes(author) + u64_le_bytes(message.len() as u64) + message
}

/// The canonical encoding of a comment record: author, then the
/// length-prefixed text bytes, then the commented post's content address.
pub open spec fn spec_encode_comment(author: u64, text: Seq<u8>, post_id: Seq<u8>) -> Seq<u8> {
    u64_le_bytes(author) + u64_le_bytes(text.len() as u64) + text + post_id
}

/// Encodes `v` as eight little-endian bytes.
pub fn encode_u64_le(v: u64) -> (r: Vec<u8>)
    ensures
        r@ == u64_le_bytes(v),
{
    let mut out: Vec<u8> = Vec::new();
    let mut rem: u64 = v;
    let mut i: usize = 0;
    proof {
        assert(pow256(0) == 1);
        assert((v as nat) / 1 == v as nat);
    }
    while i < 8
        invariant
            i <= 8,
            out@.len() == i,
            rem as nat == (v as nat) / pow256(i as nat),
            forall|j: int| 0 <= j < i ==> out@[j] == u64_le_byte(v, j),
        decreases 8 - i,
    {
        proof {
            lemma_pow256_pos(i as nat);
        }
        out.push((rem % 256) as u8);
        proof {
            lemma_div_denominator(v as int, pow256(i as nat) as int, 256);
        }
        rem = rem / 256;
        i += 1;
    }
    proof {
        assert(out@ =~= u64_le_bytes(v));
    }
    out
}

/// Appends all of `src` to `dst`.
pub fn append_bytes(dst: &mut Vec<u8>, src: &Vec<u8>)
    ensures
        final(dst)@ == old(dst)@ + src@,
{
    let mut i: usize = 0;
    while i < src.len()
        invariant
            i <= src@.len(),
            dst@ == old(dst)@ + src@.subrange(0, i as int),
        decreases src@.len() - i,
    {
        dst.push(src[i]);
        i += 1;
        proof {
            assert(dst@ =~= old(dst)@ + src@.subrange(0, i as int));
        }
    }
    proof {
        assert(old(dst)@ + src@.subrange(0, src@.len() as int) =~= old(dst)@ + src@);
    }
}

/// Appends the 32 bytes of a content address to `dst`.
pub fn append_digest(dst: &mut Vec<u8>, d: &Digest)
    ensures
        final(dst)@ == old(dst)@ + d@,
{
    let mut i: usize = 0;
    while i < 32
        invariant
            i <= 32,
            dst@ == old(dst)@ + d@.subrange(0, i as int),
        decreases 32 - i,
    {
        dst.push(d.bytes[i]);
        i += 1;
        proof {
            assert(dst@ =~= old(dst)@ + d@.subrange(0, i as int));
        }
    }
    proof {
        assert(old(dst)@ + d@.subrange(0, 32) =~= old(dst)@ + d@);
    }
}

/// Produces the canonical encoding of a post record.
pub fn encode_post(author: u64, message: &Vec<u8>) -> (r: Vec<u8>)
    ensures
        r@ == spec_encode_post(author, message@),
{
    let mut out = encode_u64_le(author);
    let len_bytes = encode_u64_le(message.len() as u64);
    append_bytes(&mut out, &len_bytes);
    append_bytes(&mut out, message);
    out
}

/// Produces the canonical encoding of a comment record.
pub fn encode_comment(author: u64, text: &Vec<u8>, post_id: &Digest) -> (r: Vec<u8>)
    ensures
        r@ == spec_encode_comment(author, text@, post_id@),
{
    let mut out = encode_u64_le(author);
    let len_bytes = encode_u64_le(text.len() as u64);
    append_bytes(&mut out, &len_bytes);
    append_bytes(&mut out, text);
    append_digest(&mut out, post_id);
    out
}

} // verus!
