//! Key material: the seed-derived secret chains, the aggregated public key,
//! and signing with or without a precomputed chain table.

use vstd::prelude::*;

use rand::RngCore;

use crate::hasher::{hash_digest, prefix_vec, truncated_digest};
use crate::params::{
    append_bytes, chain_at_step, ladders_value, lemma_outputs_upto_len, lemma_outputs_upto_segment,
    lemma_row_upto_len, lemma_row_upto_segment, lemma_sign_verify_roundtrip, outputs_upto, segment,
    step_vector, table_row, verify_result, walked_chain, ComputeLaddersMode, Params, WotsError,
    MAX_MSG_SIZE, SEED_SIZE, W,
};
use crate::security::{dispatch_verify, encoding_byte, encoding_of_byte, preset_params, ParamsEncoding};

verus! {

/// Byte length of every public key the aggregator produces.
pub const PK_SIZE: usize = 32;

/// Cell `i` of the derived secret key: the truncated PRF digest of the master
/// seed and the chain index.
pub open spec fn secret_key_cell(p: Params, seed: Seq<u8>, i: int) -> Seq<u8> {
    truncated_digest(p.prf_hash, seed + seq![i as u8], p.n as nat)
}

/// The first `count` cells of the derived secret key.
pub open spec fn secret_key_upto(p: Params, seed: Seq<u8>, count: int) -> Seq<u8>
    decreases count,
{
    if count <= 0 {
        Seq::empty()
    } else {
        secret_key_upto(p, seed, count - 1) + secret_key_cell(p, seed, count - 1)
    }
}

/// The whole derived secret key: a pure function of the master seed; the
/// public seed plays no part in it.
pub open spec fn secret_key_seq(p: Params, seed: Seq<u8>) -> Seq<u8> {
    secret_key_upto(p, seed, p.total as int)
}

/// The public key a secret key aggregates to under a public seed.
pub open spec fn public_key_seq(p: Params, p_seed: Seq<u8>, sk: Seq<u8>) -> Seq<u8> {
    ladders_value(p, p_seed, None, sk, ComputeLaddersMode::ComputePublicKey)
}

/// The raw chain outputs a signature carries for a message.
pub open spec fn signature_body(p: Params, p_seed: Seq<u8>, sk: Seq<u8>, msg: Seq<u8>) -> Seq<u8> {
    ladders_value(p, p_seed, Some(msg), sk, ComputeLaddersMode::Sign)
}

/// A full signature: the tag byte, the public seed, then the chain outputs.
pub open spec fn signature_envelope(p: Params, p_seed: Seq<u8>, sk: Seq<u8>, msg: Seq<u8>) -> Seq<
    u8,
> {
    seq![encoding_byte(p.encoding)] + p_seed + signature_body(p, p_seed, sk, msg)
}

/// The derived secret key fills exactly `count` cells.
pub proof fn lemma_secret_key_upto_len(p: Params, seed: Seq<u8>, count: int)
    requires
        0 <= count,
    ensures
        secret_key_upto(p, seed, count).len() == count * p.n,
    decreases count,
{
    if count == 0 {
        assert(count * p.n == 0) by (nonlinear_arith)
            requires
                count == 0,
        ;
    } else {
        lemma_secret_key_upto_len(p, seed, count - 1);
        assert((count - 1) * p.n + p.n == count * p.n) by (nonlinear_arith);
    }
}

/// A one-time key: both seeds, the derived secret chains, the aggregated
/// public key, and optionally the precomputed chain table.
#[derive(Clone)]
pub struct Key {
    /// Private master seed; it never leaves the key.
    pub seed: Vec<u8>,
    /// Public seed; it appears in every signature.
    pub p_seed: Vec<u8>,
    /// The precomputed chain table, present once `generate` has run.
    pub chains: Option<Vec<Vec<u8>>>,
    /// The derived secret chain origins.
    pub secret_key: Vec<u8>,
    /// The 32-byte aggregated public key.
    pub public_key: Vec<u8>,
    /// The parameter tuple the key signs under.
    pub params: Params,
}

impl Key {
    /// What construction establishes and every operation preserves: both
    /// seeds are 32 bytes, the secret key is derived from the master seed,
    /// the public key aggregates it, and any chain table matches it row by
    /// row.
    pub open spec fn wf(self) -> bool {
        &&& self.params.wf()
        &&& self.seed@.len() == SEED_SIZE
        &&& self.p_seed@.len() == SEED_SIZE
        &&& self.secret_key@ == secret_key_seq(self.params, self.seed@)
        &&& self.secret_key@.len() == self.params.n * self.params.total
        &&& self.public_key@ == public_key_seq(self.params, self.p_seed@, self.secret_key@)
        &&& match self.chains {
            Some(chains) => chains@.len() == W && (forall|k: int|
                0 <= k < W ==> (#[trigger] chains@[k])@ == table_row(
                    self.params,
                    self.p_seed@,
                    self.secret_key@,
                    k,
                )),
            None => true,
        }
    }

    /// Derives a key pair from the two given 32-byte seeds.
    ///
    /// This is secure only if `seed` is uniformly random and stays secret:
    /// anyone who can guess it can derive the same key.
    pub fn from_seed(params: Params, seed: Vec<u8>, p_seed: Vec<u8>) -> (r: Result<Key, WotsError>)
        requires
            params.wf(),
            seed@.len() == SEED_SIZE,
            p_seed@.len() == SEED_SIZE,
        ensures
            match r {
                Ok(key) => {
                    &&& key.wf()
                    &&& key.params == params
                    &&& key.seed@ == seed@
                    &&& key.p_seed@ == p_seed@
                    &&& key.chains is None
                    &&& key.secret_key@ == secret_key_seq(params, seed@)
                    &&& key.public_key@ == public_key_seq(params, p_seed@, key.secret_key@)
                },
                Err(_) => false,
            },
    {
        let sk = calculate_secret_key(&params, seed.as_slice());
        let public_key = match calculate_public_key(&params, p_seed.as_slice(), sk.as_slice()) {
            Ok(pk) => pk,
            Err(e) => {
                proof {
                    assert(false);
                }
                return Err(e);
            },
        };
        Ok(Key { seed, p_seed, chains: None, secret_key: sk, public_key, params })
    }

    /// Samples both seeds from the operating system and derives a key pair.
    pub fn new(params: Params) -> (r: Result<Key, WotsError>)
        requires
            params.wf(),
        ensures
            match r {
                Ok(key) => key.wf() && key.params == params && key.chains is None,
                Err(_) => false,
            },
    {
        let seed = random_seed();
        let p_seed = random_seed();
        Self::from_seed(params, seed, p_seed)
    }

    /// Precomputes the full chain table; nothing else about the key changes,
    /// and a second call leaves the key exactly as it was.
    pub fn generate(&mut self) -> (r: Result<(), WotsError>)
        requires
            old(self).wf(),
        ensures
            r is Ok,
            final(self).wf(),
            final(self).params == old(self).params,
            final(self).seed == old(self).seed,
            final(self).p_seed == old(self).p_seed,
            final(self).secret_key == old(self).secret_key,
            final(self).public_key == old(self).public_key,
            final(self).chains is Some,
            old(self).chains is Some ==> *final(self) == *old(self),
    {
        if self.chains.is_some() {
            return Ok(());
        }
        let res = self.params.compute_ladders(
            self.p_seed.as_slice(),
            None,
            self.secret_key.as_slice(),
            ComputeLaddersMode::Generate,
        );
        match res {
            Ok(out) => {
                self.chains = Some(out.1);
                Ok(())
            },
            Err(e) => {
                proof {
                    assert(false);
                }
                Err(e)
            },
        }
    }

    /// Signs a message of at most `MAX_MSG_SIZE` bytes. The signature is a
    /// pure function of the parameters, the public seed, the secret key and
    /// the message: the precomputed table only makes it faster.
    pub fn sign(&self, msg: &[u8]) -> (r: Result<Vec<u8>, WotsError>)
        requires
            self.wf(),
        ensures
            match r {
                Ok(sig) => {
                    &&& msg@.len() <= MAX_MSG_SIZE
                    &&& sig@ == signature_envelope(
                        self.params,
                        self.p_seed@,
                        self.secret_key@,
                        msg@,
                    )
                    &&& sig@.len() == 1 + SEED_SIZE + self.params.n * self.params.total
                    &&& sig@[0] == encoding_byte(self.params.encoding)
                    &&& sig@.subrange(1, 1 + SEED_SIZE as int) == self.p_seed@
                },
                Err(e) => e == WotsError::InvalidMessageSize && msg@.len() > MAX_MSG_SIZE,
            },
    {
        if msg.len() > MAX_MSG_SIZE {
            return Err(WotsError::InvalidMessageSize);
        }
        if self.chains.is_some() {
            let r = self.fast_sign(msg);
            proof {
                lemma_envelope_layout(self.params, self.p_seed@, self.secret_key@, msg@);
            }
            return r;
        }
        let res = self.params.compute_ladders(
            self.p_seed.as_slice(),
            Some(vstd::slice::slice_to_vec(msg)),
            self.secret_key.as_slice(),
            ComputeLaddersMode::Sign,
        );
        match res {
            Ok(out) => {
                proof {
                    lemma_outputs_upto_len(
                        self.params,
                        self.p_seed@,
                        self.secret_key@,
                        step_vector(self.params, msg@),
                        ComputeLaddersMode::Sign,
                        self.params.total as int,
                    );
                    assert(self.params.total * self.params.n == self.params.n * self.params.total)
                        by (nonlinear_arith);
                    lemma_envelope_layout(self.params, self.p_seed@, self.secret_key@, msg@);
                }
                Ok(self.build_signature(out.0.as_slice()))
            },
            Err(e) => {
                proof {
                    assert(false);
                }
                Err(e)
            },
        }
    }

    /// Signs by reading each chain value straight out of the precomputed
    /// table instead of walking the chains.
    fn fast_sign(&self, msg: &[u8]) -> (r: Result<Vec<u8>, WotsError>)
        requires
            self.wf(),
            self.chains is Some,
            msg@.len() <= MAX_MSG_SIZE,
        ensures
            match r {
                Ok(sig) => sig@ == signature_envelope(
                    self.params,
                    self.p_seed@,
                    self.secret_key@,
                    msg@,
                ) && sig@.len() == 1 + SEED_SIZE + self.params.n * self.params.total,
                Err(_) => false,
            },
    {
        let data = self.params.msg_hash_and_compute_checksum(msg);
        let ghost d = step_vector(self.params, msg@);
        let chains = match &self.chains {
            Some(chains) => chains,
            None => {
                proof {
                    assert(false);
                }
                return Err(WotsError::ChainsNotSet);
            },
        };
        proof {
            assert(self.params.n * self.params.total <= 32 * 256 && self.params.total
                * self.params.n == self.params.n * self.params.total) by (nonlinear_arith)
                requires
                    self.params.n <= 32,
                    self.params.total <= 256,
            ;
            assert(crate::hasher::hash_output_size(self.params.prf_hash) <= 32);
        }
        let mut sig: Vec<u8> = Vec::new();
        let mut i: usize = 0;
        proof {
            assert(sig@ =~= outputs_upto(
                self.params,
                self.p_seed@,
                self.secret_key@,
                d,
                ComputeLaddersMode::Sign,
                0,
            ));
        }
        while i < self.params.total
            invariant
                self.wf(),
                self.chains is Some,
                chains == self.chains->Some_0,
                i <= self.params.total,
                self.params.n * self.params.total <= 8192,
                data@ == d,
                data@.len() == self.params.total,
                sig@ == outputs_upto(
                    self.params,
                    self.p_seed@,
                    self.secret_key@,
                    d,
                    ComputeLaddersMode::Sign,
                    i as int,
                ),
            decreases self.params.total - i,
        {
            proof {
                assert((i + 1) * self.params.n <= self.params.total * self.params.n && 0 <= i
                    * self.params.n && i * self.params.n + self.params.n == (i + 1)
                    * self.params.n && self.params.total * self.params.n == self.params.n
                    * self.params.total) by (nonlinear_arith)
                    requires
                        0 <= i,
                        i + 1 <= self.params.total,
                        self.params.n >= 0,
                        self.params.total >= 0,
                ;
                lemma_row_upto_len(
                    self.params,
                    self.p_seed@,
                    self.secret_key@,
                    d[i as int] as int,
                    self.params.total as int,
                );
                lemma_row_upto_segment(
                    self.params,
                    self.p_seed@,
                    self.secret_key@,
                    d[i as int] as int,
                    self.params.total as int,
                    i as int,
                );
            }
            let step: u8 = data[i];
            let row = &chains[step as usize];
            let start = i * self.params.n;
            let end = (i + 1) * self.params.n;
            let cell = vstd::slice::slice_subrange(row.as_slice(), start, end);
            proof {
                assert(row@ == table_row(
                    self.params,
                    self.p_seed@,
                    self.secret_key@,
                    d[i as int] as int,
                ));
                assert(cell@ == segment(row@, self.params.n as nat, i as int));
                assert(cell@ == chain_at_step(
                    self.params,
                    self.p_seed@,
                    self.secret_key@,
                    i as int,
                    d[i as int] as int,
                ));
                assert(cell@ == walked_chain(
                    self.params,
                    self.p_seed@,
                    self.secret_key@,
                    d,
                    ComputeLaddersMode::Sign,
                    i as int,
                ));
            }
            append_bytes(&mut sig, cell);
            proof {
                assert(sig@ == outputs_upto(
                    self.params,
                    self.p_seed@,
                    self.secret_key@,
                    d,
                    ComputeLaddersMode::Sign,
                    i + 1,
                ));
            }
            i = i + 1;
        }
        proof {
            lemma_outputs_upto_len(
                self.params,
                self.p_seed@,
                self.secret_key@,
                d,
                ComputeLaddersMode::Sign,
                self.params.total as int,
            );
        }
        Ok(self.build_signature(sig.as_slice()))
    }

    /// Frames raw chain outputs as a wire signature: the tag byte, the
    /// public seed, then the outputs.
    fn build_signature(&self, sig: &[u8]) -> (r: Vec<u8>)
        ensures
            r@ == seq![encoding_byte(self.params.encoding)] + self.p_seed@ + sig@,
            r@.len() == 1 + self.p_seed@.len() + sig@.len(),
    {
        let encoding: u8 = u8::from(self.params.get_encoding());
        let mut out: Vec<u8> = Vec::new();
        out.push(encoding);
        append_bytes(&mut out, self.p_seed.as_slice());
        append_bytes(&mut out, sig);
        proof {
            assert(out@ =~= seq![encoding_byte(self.params.encoding)] + self.p_seed@ + sig@);
        }
        out
    }
}

/// Relies on rand::rngs::OsRng::fill_bytes: fills the buffer from the
/// operating system's randomness source. Nothing is promised of the bytes
/// beyond their number.
#[verifier::external_body]
fn random_seed() -> (r: Vec<u8>)
    ensures
        r@.len() == SEED_SIZE,
{
    let mut seed = [0u8; 32];
    rand::rngs::OsRng.fill_bytes(&mut seed);
    seed.to_vec()
}

/// Derives the secret chain origins from the master seed: one truncated PRF
/// digest of `seed ++ [i]` per chain.
fn calculate_secret_key(params: &Params, seed: &[u8]) -> (r: Vec<u8>)
    requires
        params.wf(),
    ensures
        r@ == secret_key_seq(*params, seed@),
        r@.len() == params.n * params.total,
{
    let mut sks: Vec<u8> = Vec::new();
    let mut i: usize = 0;
    proof {
        assert(sks@ =~= secret_key_upto(*params, seed@, 0));
    }
    while i < params.total
        invariant
            params.wf(),
            i <= params.total,
            sks@ == secret_key_upto(*params, seed@, i as int),
        decreases params.total - i,
    {
        let mut data: Vec<u8> = Vec::new();
        append_bytes(&mut data, seed);
        data.push(i as u8);
        proof {
            assert(data@ =~= seed@ + seq![(i as int) as u8]);
        }
        let buf = hash_digest(params.prf_hash, data.as_slice());
        let cell = prefix_vec(buf.as_slice(), params.n);
        proof {
            assert(cell@ == secret_key_cell(*params, seed@, i as int));
        }
        append_bytes(&mut sks, cell.as_slice());
        proof {
            assert(sks@ == secret_key_upto(*params, seed@, i + 1));
        }
        i = i + 1;
    }
    proof {
        lemma_secret_key_upto_len(*params, seed@, params.total as int);
        assert(params.total * params.n == params.n * params.total) by (nonlinear_arith);
    }
    sks
}

/// Aggregates the public key from the secret chain origins.
fn calculate_public_key(params: &Params, p_seed: &[u8], secret_key: &[u8]) -> (r: Result<
    Vec<u8>,
    WotsError,
>)
    requires
        params.wf(),
        p_seed@.len() == SEED_SIZE,
        secret_key@.len() >= params.n * params.total,
    ensures
        match r {
            Ok(pk) => pk@ == public_key_seq(*params, p_seed@, secret_key@),
            Err(_) => false,
        },
{
    let res = params.compute_ladders(
        p_seed,
        None,
        secret_key,
        ComputeLaddersMode::ComputePublicKey,
    );
    match res {
        Ok(out) => Ok(out.0),
        Err(e) => {
            proof {
                assert(false);
            }
            Err(e)
        },
    }
}

/// A signature's envelope is fixed: the tag byte first, the public seed at
/// offsets one through thirty-two, and the chain outputs after them, for a
/// total of `1 + 32 + n * total` bytes.
pub proof fn lemma_envelope_layout(p: Params, p_seed: Seq<u8>, sk: Seq<u8>, msg: Seq<u8>)
    requires
        p.wf(),
        p_seed.len() == SEED_SIZE,
        sk.len() == p.n * p.total,
    ensures
        ({
            let sig = signature_envelope(p, p_seed, sk, msg);
            &&& sig.len() == 1 + SEED_SIZE + p.n * p.total
            &&& sig[0] == encoding_byte(p.encoding)
            &&& sig.subrange(1, 1 + SEED_SIZE as int) == p_seed
        }),
{
    lemma_outputs_upto_len(
        p,
        p_seed,
        sk,
        step_vector(p, msg),
        ComputeLaddersMode::Sign,
        p.total as int,
    );
    assert(p.total * p.n == p.n * p.total) by (nonlinear_arith);
    let sig = signature_envelope(p, p_seed, sk, msg);
    assert(sig.subrange(1, 1 + SEED_SIZE as int) =~= p_seed);
}

/// A fresh signature from a well-formed key verifies against the key's own
/// public key, for every message the signer accepts.
pub proof fn lemma_key_roundtrip(key: Key, msg: Seq<u8>)
    requires
        key.wf(),
        msg.len() <= MAX_MSG_SIZE,
    ensures
        verify_result(
            key.params,
            msg,
            signature_envelope(key.params, key.p_seed@, key.secret_key@, msg).skip(1),
            key.public_key@,
        ) == Ok::<(), WotsError>(()),
{
    let envelope = signature_envelope(key.params, key.p_seed@, key.secret_key@, msg);
    assert(envelope.skip(1) =~= key.p_seed@ + signature_body(
        key.params,
        key.p_seed@,
        key.secret_key@,
        msg,
    ));
    lemma_sign_verify_roundtrip(key.params, key.p_seed@, key.secret_key@, msg);
}

/// A fresh signature from a key built over a dispatcher preset also verifies
/// through the tag dispatcher itself, which reads the preset back from the
/// signature's first byte.
pub proof fn lemma_dispatch_roundtrip(key: Key, msg: Seq<u8>, allow_consensus: bool)
    requires
        key.wf(),
        msg.len() <= MAX_MSG_SIZE,
        key.params == preset_params(key.params.encoding),
        key.params.encoding != ParamsEncoding::Custom,
        key.params.encoding == ParamsEncoding::Consensus ==> allow_consensus,
    ensures
        dispatch_verify(
            msg,
            signature_envelope(key.params, key.p_seed@, key.secret_key@, msg),
            key.public_key@,
            allow_consensus,
        ) == Ok::<(), WotsError>(()),
{
    let envelope = signature_envelope(key.params, key.p_seed@, key.secret_key@, msg);
    assert(envelope[0] == encoding_byte(key.params.encoding));
    assert(encoding_of_byte(envelope[0]) == key.params.encoding);
    lemma_key_roundtrip(key, msg);
}

/// Precomputing the chain table never changes what is signed: two
/// well-formed keys over the same parameters and seeds produce bitwise equal
/// signatures for every message, whether or not either carries a table.
pub proof fn lemma_precompute_preserves_signature(k1: Key, k2: Key, msg: Seq<u8>)
    requires
        k1.wf(),
        k2.wf(),
        k1.params == k2.params,
        k1.seed@ == k2.seed@,
        k1.p_seed@ == k2.p_seed@,
    ensures
        signature_envelope(k1.params, k1.p_seed@, k1.secret_key@, msg) == signature_envelope(
            k2.params,
            k2.p_seed@,
            k2.secret_key@,
            msg,
        ),
{
    assert(k1.secret_key@ == k2.secret_key@);
}

/// Every cell of a signature made from a precomputed table is read straight
/// out of the table: cell `i` of the body equals cell `i` of row `d[i]`,
/// where `d` is the message's step vector.
pub proof fn lemma_signature_cells_from_table(key: Key, msg: Seq<u8>, i: int)
    requires
        key.wf(),
        key.chains is Some,
        0 <= i < key.params.total,
    ensures
        ({
            let d = step_vector(key.params, msg);
            segment(
                signature_body(key.params, key.p_seed@, key.secret_key@, msg),
                key.params.n as nat,
                i,
            ) == segment(key.chains->Some_0@[d[i] as int]@, key.params.n as nat, i)
        }),
{
    let d = step_vector(key.params, msg);
    let p = key.params;
    lemma_outputs_upto_segment(
        p,
        key.p_seed@,
        key.secret_key@,
        d,
        ComputeLaddersMode::Sign,
        p.total as int,
        i,
    );
    lemma_row_upto_segment(
        p,
        key.p_seed@,
        key.secret_key@,
        d[i] as int,
        p.total as int,
        i,
    );
    assert(key.chains->Some_0@[d[i] as int]@ == table_row(p, key.p_seed@, key.secret_key@, d[i] as int));
}

} // verus!
