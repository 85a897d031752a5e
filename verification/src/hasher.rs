//! The hash primitives the scheme draws on, behind a small uniform interface.

use vstd::prelude::*;

use blake2::digest::{Update, VariableOutput};

verus! {

/// The digest primitives available to the scheme: a variable-output blake2b
/// fixed at 32 bytes, and the two SHA3 widths used by the named presets.
#[derive(Clone, Copy, Debug, PartialEq, Eq, Structural)]
pub enum Hasher {
    Blake2b,
    Sha3_224,
    Sha3_256,
}

pub uninterp spec fn blake2b_256_of(data: Seq<u8>) -> Seq<u8>;

pub uninterp spec fn sha3_224_of(data: Seq<u8>) -> Seq<u8>;

pub uninterp spec fn sha3_256_of(data: Seq<u8>) -> Seq<u8>;

/// The byte length of every digest the primitive produces.
pub open spec fn hash_output_size(h: Hasher) -> nat {
    match h {
        Hasher::Blake2b => 32,
        Hasher::Sha3_224 => 28,
        Hasher::Sha3_256 => 32,
    }
}

/// The digest of `data` under the chosen primitive.
pub open spec fn digest_of(h: Hasher, data: Seq<u8>) -> Seq<u8> {
    match h {
        Hasher::Blake2b => blake2b_256_of(data),
        Hasher::Sha3_224 => sha3_224_of(data),
        Hasher::Sha3_256 => sha3_256_of(data),
    }
}

/// The first `k` bytes of `s`, as a sequence of length `k` whatever `s` is.
pub open spec fn prefix_bytes(s: Seq<u8>, k: nat) -> Seq<u8> {
    Seq::new(k, |i: int| s[i])
}

/// The digest of `data` under `h`, truncated to its first `k` bytes.
pub open spec fn truncated_digest(h: Hasher, data: Seq<u8>, k: nat) -> Seq<u8> {
    prefix_bytes(digest_of(h, data), k)
}

/// Relies on blake2::Blake2bVar with a 32-byte output: `new(32)` accepts any
/// size up to 64 bytes, `finalize_variable` fills a buffer of exactly the
/// chosen size, and the digest depends on the written bytes alone.
#[verifier::external_body]
fn blake2b_digest(data: &[u8]) -> (r: Vec<u8>)
    ensures
        r@ == blake2b_256_of(data@),
        r@.len() == 32,
{
    let mut hasher = blake2::Blake2bVar::new(32).expect("32 is within blake2b's output limit");
    hasher.update(data);
    let mut out = vec![0u8; 32];
    hasher.finalize_variable(&mut out).expect("the buffer length matches the chosen output size");
    out
}

/// Relies on sha3::Sha3_224 through Digest::digest: a 28-byte digest of the
/// input bytes alone.
#[verifier::external_body]
fn sha3_224_digest(data: &[u8]) -> (r: Vec<u8>)
    ensures
        r@ == sha3_224_of(data@),
        r@.len() == 28,
{
    <sha3::Sha3_224 as sha3::Digest>::digest(data).to_vec()
}

/// Relies on sha3::Sha3_256 through Digest::digest: a 32-byte digest of the
/// input bytes alone.
#[verifier::external_body]
fn sha3_256_digest(data: &[u8]) -> (r: Vec<u8>)
    ensures
        r@ == sha3_256_of(data@),
        r@.len() == 32,
{
    <sha3::Sha3_256 as sha3::Digest>::digest(data).to_vec()
}

/// The byte length of every digest the primitive produces.
pub fn hash_size(h: Hasher) -> (r: usize)
    ensures
        r == hash_output_size(h),
{
    match h {
        Hasher::Blake2b => 32,
        Hasher::Sha3_224 => 28,
        Hasher::Sha3_256 => 32,
    }
}

/// Computes the digest of `data` under the chosen primitive.
pub fn hash_digest(h: Hasher, data: &[u8]) -> (r: Vec<u8>)
    ensures
        r@ == digest_of(h, data@),
        r@.len() == hash_output_size(h),
{
    match h {
        Hasher::Blake2b => blake2b_digest(data),
        Hasher::Sha3_224 => sha3_224_digest(data),
        Hasher::Sha3_256 => sha3_256_digest(data),
    }
}

/// The first `k` bytes of `src`, as a fresh vector.
pub fn prefix_vec(src: &[u8], k: usize) -> (r: Vec<u8>)
    requires
        k <= src@.len(),
    ensures
        r@ == prefix_bytes(src@, k as nat),
{
    let mut out: Vec<u8> = Vec::new();
    let mut i: usize = 0;
    assert(out@ =~= prefix_bytes(src@, 0));
    while i < k
        invariant
            i <= k <= src@.len(),
            out@ == prefix_bytes(src@, i as nat),
        decreases k - i,
    {
        out.push(src[i]);
        assert(out@ =~= prefix_bytes(src@, (i + 1) as nat));
        i = i + 1;
    }
    out
}

} // verus!
