//! Named security levels, the one-byte tags that identify them on the wire,
//! and the signature dispatchers that select a preset from that tag.

use vstd::prelude::*;

use crate::hasher::{hash_output_size, Hasher};
use crate::params::{checksum_chain_count, verify_result, Params, WotsError};

verus! {

/// The named parameter presets. `Custom` is reachable only through the
/// explicit `(n, m)` constructor and never appears on the wire.
#[derive(Debug, Clone, Copy, PartialEq, Eq, Structural)]
pub enum ParamsEncoding {
    Level0,
    Level1,
    Level2,
    Level3,
    Consensus,
    Custom,
}

/// The one-byte tag that each preset writes at the head of a signature.
pub open spec fn encoding_byte(e: ParamsEncoding) -> u8 {
    match e {
        ParamsEncoding::Level0 => 0,
        ParamsEncoding::Level1 => 1,
        ParamsEncoding::Level2 => 2,
        ParamsEncoding::Level3 => 3,
        ParamsEncoding::Consensus => 4,
        ParamsEncoding::Custom => 5,
    }
}

/// The preset a tag byte names; every byte five or above reads as `Custom`.
pub open spec fn encoding_of_byte(b: u8) -> ParamsEncoding {
    if b == 0 {
        ParamsEncoding::Level0
    } else if b == 1 {
        ParamsEncoding::Level1
    } else if b == 2 {
        ParamsEncoding::Level2
    } else if b == 3 {
        ParamsEncoding::Level3
    } else if b == 4 {
        ParamsEncoding::Consensus
    } else {
        ParamsEncoding::Custom
    }
}

/// The chain-point width `n` each named preset fixes.
pub open spec fn preset_n(e: ParamsEncoding) -> int {
    match e {
        ParamsEncoding::Level0 => 20,
        ParamsEncoding::Level1 => 24,
        ParamsEncoding::Level2 => 28,
        ParamsEncoding::Level3 => 32,
        ParamsEncoding::Consensus => 32,
        ParamsEncoding::Custom => 0,
    }
}

/// The message-digest width `m` each named preset fixes.
pub open spec fn preset_m(e: ParamsEncoding) -> int {
    match e {
        ParamsEncoding::Level0 => 24,
        ParamsEncoding::Level1 => 24,
        ParamsEncoding::Level2 => 24,
        ParamsEncoding::Level3 => 24,
        ParamsEncoding::Consensus => 32,
        ParamsEncoding::Custom => 0,
    }
}

impl From<u8> for ParamsEncoding {
    fn from(item: u8) -> (r: Self) {
        match item {
            0 => ParamsEncoding::Level0,
            1 => ParamsEncoding::Level1,
            2 => ParamsEncoding::Level2,
            3 => ParamsEncoding::Level3,
            4 => ParamsEncoding::Consensus,
            _ => ParamsEncoding::Custom,
        }
    }
}

impl vstd::std_specs::convert::FromSpecImpl<u8> for ParamsEncoding {
    open spec fn obeys_from_spec() -> bool {
        true
    }

    open spec fn from_spec(item: u8) -> Self {
        encoding_of_byte(item)
    }
}

impl<'a> From<&'a ParamsEncoding> for u8 {
    fn from(item: &'a ParamsEncoding) -> (r: Self) {
        match item {
            ParamsEncoding::Level0 => 0,
            ParamsEncoding::Level1 => 1,
            ParamsEncoding::Level2 => 2,
            ParamsEncoding::Level3 => 3,
            ParamsEncoding::Consensus => 4,
            ParamsEncoding::Custom => 5,
        }
    }
}

impl<'a> vstd::std_specs::convert::FromSpecImpl<&'a ParamsEncoding> for u8 {
    open spec fn obeys_from_spec() -> bool {
        true
    }

    open spec fn from_spec(item: &'a ParamsEncoding) -> Self {
        encoding_byte(*item)
    }
}

/// The parameter tuple a named preset builds over the given hash primitives.
pub open spec fn preset_tuple(e: ParamsEncoding, prf_hash: Hasher, msg_hash: Hasher) -> Params {
    Params {
        n: preset_n(e) as usize,
        m: preset_m(e) as usize,
        total: (preset_m(e) + checksum_chain_count(preset_m(e))) as usize,
        encoding: e,
        prf_hash,
        msg_hash,
    }
}

/// The fully fixed tuple each wire tag selects in the dispatchers: blake2b
/// drives the chains, SHA3-224 hashes messages for the four levels and
/// SHA3-256 for consensus.
pub open spec fn preset_params(e: ParamsEncoding) -> Params {
    preset_tuple(
        e,
        Hasher::Blake2b,
        if e == ParamsEncoding::Consensus {
            Hasher::Sha3_256
        } else {
            Hasher::Sha3_224
        },
    )
}

/// The weakest named preset: 20-byte chain points.
pub fn level_0_params(prf_hash: Hasher, msg_hash: Hasher) -> (r: Params)
    requires
        hash_output_size(prf_hash) >= preset_n(ParamsEncoding::Level0),
        hash_output_size(msg_hash) >= preset_m(ParamsEncoding::Level0),
    ensures
        r == preset_tuple(ParamsEncoding::Level0, prf_hash, msg_hash),
        r.wf(),
{
    Params::new(prf_hash, msg_hash, ParamsEncoding::Level0).unwrap()
}

/// The second named preset: 24-byte chain points.
pub fn level_1_params(prf_hash: Hasher, msg_hash: Hasher) -> (r: Params)
    requires
        hash_output_size(prf_hash) >= preset_n(ParamsEncoding::Level1),
        hash_output_size(msg_hash) >= preset_m(ParamsEncoding::Level1),
    ensures
        r == preset_tuple(ParamsEncoding::Level1, prf_hash, msg_hash),
        r.wf(),
{
    Params::new(prf_hash, msg_hash, ParamsEncoding::Level1).unwrap()
}

/// The third named preset: 28-byte chain points.
pub fn level_2_params(prf_hash: Hasher, msg_hash: Hasher) -> (r: Params)
    requires
        hash_output_size(prf_hash) >= preset_n(ParamsEncoding::Level2),
        hash_output_size(msg_hash) >= preset_m(ParamsEncoding::Level2),
    ensures
        r == preset_tuple(ParamsEncoding::Level2, prf_hash, msg_hash),
        r.wf(),
{
    Params::new(prf_hash, msg_hash, ParamsEncoding::Level2).unwrap()
}

/// The strongest level preset: 32-byte chain points.
pub fn level_3_params(prf_hash: Hasher, msg_hash: Hasher) -> (r: Params)
    requires
        hash_output_size(prf_hash) >= preset_n(ParamsEncoding::Level3),
        hash_output_size(msg_hash) >= preset_m(ParamsEncoding::Level3),
    ensures
        r == preset_tuple(ParamsEncoding::Level3, prf_hash, msg_hash),
        r.wf(),
{
    Params::new(prf_hash, msg_hash, ParamsEncoding::Level3).unwrap()
}

/// The consensus preset: 32-byte chain points and a 32-byte message digest.
pub fn consensus_params(prf_hash: Hasher, msg_hash: Hasher) -> (r: Params)
    requires
        hash_output_size(prf_hash) >= preset_n(ParamsEncoding::Consensus),
        hash_output_size(msg_hash) >= preset_m(ParamsEncoding::Consensus),
    ensures
        r == preset_tuple(ParamsEncoding::Consensus, prf_hash, msg_hash),
        r.wf(),
{
    Params::new(prf_hash, msg_hash, ParamsEncoding::Consensus).unwrap()
}

/// The verdict of the tag-dispatched verifier: the preset named by the
/// signature's first byte, applied to the rest of the signature. An unknown
/// tag is rejected, and so is the consensus tag when it is not allowed.
pub open spec fn dispatch_verify(
    msg: Seq<u8>,
    signature: Seq<u8>,
    public_key: Seq<u8>,
    allow_consensus: bool,
) -> Result<(), WotsError> {
    let e = encoding_of_byte(signature[0]);
    if e == ParamsEncoding::Custom {
        Err(WotsError::InvalidParamsEncodingType)
    } else if e == ParamsEncoding::Consensus && !allow_consensus {
        Err(WotsError::InvalidParamsEncodingType)
    } else {
        verify_result(preset_params(e), msg, signature.skip(1), public_key)
    }
}

/// Verifies a signature under whichever preset its tag byte names; all five
/// known tags are accepted.
pub fn verify(msg: &[u8], signature: &[u8], public_key: &[u8]) -> (r: Result<(), WotsError>)
    requires
        signature@.len() >= 1,
    ensures
        r == dispatch_verify(msg@, signature@, public_key@, true),
{
    let rest = vstd::slice::slice_subrange(signature, 1, signature.len());
    proof {
        assert(rest@ =~= signature@.skip(1));
    }
    match ParamsEncoding::from(signature[0]) {
        ParamsEncoding::Level0 => level_0_params(Hasher::Blake2b, Hasher::Sha3_224).verify(
            msg,
            rest,
            public_key,
        ),
        ParamsEncoding::Level1 => level_1_params(Hasher::Blake2b, Hasher::Sha3_224).verify(
            msg,
            rest,
            public_key,
        ),
        ParamsEncoding::Level2 => level_2_params(Hasher::Blake2b, Hasher::Sha3_224).verify(
            msg,
            rest,
            public_key,
        ),
        ParamsEncoding::Level3 => level_3_params(Hasher::Blake2b, Hasher::Sha3_224).verify(
            msg,
            rest,
            public_key,
        ),
        ParamsEncoding::Consensus => consensus_params(Hasher::Blake2b, Hasher::Sha3_256).verify(
            msg,
            rest,
            public_key,
        ),
        _ => Err(WotsError::InvalidParamsEncodingType),
    }
}

/// Verifies a signature as `verify` does, but refuses consensus-tagged
/// signatures even when they would otherwise check out.
pub fn verify_no_consensus(msg: &[u8], signature: &[u8], public_key: &[u8]) -> (r: Result<
    (),
    WotsError,
>)
    requires
        signature@.len() >= 1,
    ensures
        r == dispatch_verify(msg@, signature@, public_key@, false),
{
    let rest = vstd::slice::slice_subrange(signature, 1, signature.len());
    proof {
        assert(rest@ =~= signature@.skip(1));
    }
    match ParamsEncoding::from(signature[0]) {
        ParamsEncoding::Level0 => level_0_params(Hasher::Blake2b, Hasher::Sha3_224).verify(
            msg,
            rest,
            public_key,
        ),
        ParamsEncoding::Level1 => level_1_params(Hasher::Blake2b, Hasher::Sha3_224).verify(
            msg,
            rest,
            public_key,
        ),
        ParamsEncoding::Level2 => level_2_params(Hasher::Blake2b, Hasher::Sha3_224).verify(
            msg,
            rest,
            public_key,
        ),
        ParamsEncoding::Level3 => level_3_params(Hasher::Blake2b, Hasher::Sha3_224).verify(
            msg,
            rest,
            public_key,
        ),
        _ => Err(WotsError::InvalidParamsEncodingType),
    }
}

} // verus!
