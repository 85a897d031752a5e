//! Parameter tuples and the chain-ladder engine: the deterministic walk over
//! `total` tweaked hash chains that produces public keys, signatures and
//! precomputed chain tables.

use vstd::prelude::*;

use crate::hasher::{
    hash_digest, hash_output_size, hash_size, prefix_bytes, prefix_vec, sha3_256_of,
    truncated_digest, Hasher,
};
use crate::keys::PK_SIZE;
use crate::security::{preset_m, preset_n, ParamsEncoding};

verus! {

/// Winternitz base: the number of reachable points on one chain.
pub const W: usize = 256;

/// Byte length of the secret and public seeds.
pub const SEED_SIZE: usize = 32;

/// Longest message (before hashing) that may be signed.
pub const MAX_MSG_SIZE: usize = 254;

/// Everything that can go wrong across construction, signing and verifying.
#[derive(Debug, Clone, Copy, PartialEq, Eq, Structural)]
pub enum WotsError {
    InvalidMValue,
    CustomNotSupported,
    InvalidHasher,
    InvalidSeedSize,
    InvalidMessageSize,
    InvalidPointsSize,
    MustProvideMessage,
    ChainsNotSet,
    InvalidPublicKeySize,
    InvalidSignatureSize,
    InvalidSignature,
    InvalidParamsEncodingType,
    NoMessageExpected,
    ExpectedMessage,
}

/// What the ladder engine is asked to produce.
#[derive(Debug, Clone, Copy, PartialEq, Eq, Structural)]
pub enum ComputeLaddersMode {
    Generate,
    Sign,
    Verify,
    ComputePublicKey,
}

/// A validated parameter tuple: chain point width `n`, truncated message
/// digest width `m`, the resulting chain count `total`, and the wire tag.
#[derive(Debug, Clone, Copy)]
pub struct Params {
    /// Security parameter: byte width of one chain point.
    pub n: usize,
    /// Byte width of the truncated message digest.
    pub m: usize,
    /// Number of parallel chains: `m` message chains plus the checksum chains.
    pub total: usize,
    /// The wire tag this tuple signs under.
    pub encoding: ParamsEncoding,
    /// The pseudorandom-function hash that drives every chain step.
    pub prf_hash: Hasher,
    /// The hash applied to the message before signing.
    pub msg_hash: Hasher,
}

/// How many chains carry the checksum: one when the digest is a single byte,
/// two otherwise.
pub open spec fn checksum_chain_count(m: int) -> int {
    if m == 1 {
        1
    } else {
        2
    }
}

impl Params {
    /// The validity that both constructors establish and every operation
    /// relies on.
    pub open spec fn wf(self) -> bool {
        &&& 1 <= self.m <= MAX_MSG_SIZE
        &&& self.n <= hash_output_size(self.prf_hash)
        &&& self.m <= hash_output_size(self.msg_hash)
        &&& self.total == self.m + checksum_chain_count(self.m as int)
    }
}

/// The bytewise XOR of two sequences, cut to the shorter length.
pub open spec fn xor_bytes(a: Seq<u8>, b: Seq<u8>) -> Seq<u8> {
    Seq::new(if a.len() <= b.len() { a.len() } else { b.len() }, |i: int| a[i] ^ b[i])
}

/// Mask `j` (0-indexed): the first `n` bytes of `PRFH(p_seed ++ [j + 1])`.
pub open spec fn mask_at(prf: Hasher, n: nat, p_seed: Seq<u8>, j: int) -> Seq<u8> {
    truncated_digest(prf, p_seed + seq![(j + 1) as u8], n)
}

/// All `W - 1` per-step masks derived from the public seed.
pub open spec fn mask_seq(prf: Hasher, n: nat, p_seed: Seq<u8>) -> Seq<Seq<u8>> {
    Seq::new(255, |j: int| mask_at(prf, n, p_seed, j))
}

/// One tweaked chain step at index `j`: hash the seed, the step tag `j + 1`
/// and the masked value, and keep the first `n` bytes.
pub open spec fn chain_step(
    prf: Hasher,
    n: nat,
    p_seed: Seq<u8>,
    masks: Seq<Seq<u8>>,
    value: Seq<u8>,
    j: int,
) -> Seq<u8> {
    truncated_digest(prf, p_seed + seq![(j + 1) as u8] + xor_bytes(value, masks[j]), n)
}

/// The chain value at step `end`, given its value at step `begin`.
pub open spec fn chain_from(
    prf: Hasher,
    n: nat,
    p_seed: Seq<u8>,
    masks: Seq<Seq<u8>>,
    value: Seq<u8>,
    begin: int,
    end: int,
) -> Seq<u8>
    decreases end - begin,
{
    if begin >= end {
        value
    } else {
        chain_from(prf, n, p_seed, masks, chain_step(prf, n, p_seed, masks, value, begin), begin + 1, end)
    }
}

/// The sum of the bytes of `s`, as an unbounded integer.
pub open spec fn sum_bytes(s: Seq<u8>) -> int
    decreases s.len(),
{
    if s.len() == 0 {
        0
    } else {
        sum_bytes(s.drop_last()) + s.last()
    }
}

/// The Winternitz checksum of a hashed message: the distance
/// `(W - 1) * len - sum` as one byte when the digest has a single byte, and
/// as two big-endian bytes otherwise.
pub open spec fn checksum_bytes(s: Seq<u8>) -> Seq<u8> {
    let sum = 255 * s.len() - sum_bytes(s);
    if s.len() == 1 {
        seq![sum as u8]
    } else {
        seq![(sum / 256) as u8, (sum % 256) as u8]
    }
}

/// The numeric value the checksum bytes encode.
pub open spec fn checksum_value(c: Seq<u8>) -> int {
    if c.len() == 1 {
        c[0] as int
    } else {
        256 * (c[0] as int) + c[1] as int
    }
}

/// The `total`-byte step vector for a message: the truncated message digest
/// followed by its checksum.
pub open spec fn step_vector(p: Params, msg: Seq<u8>) -> Seq<u8> {
    let hashed = truncated_digest(p.msg_hash, msg, p.m as nat);
    hashed + checksum_bytes(hashed)
}

/// The step vector the ladder walks: the message's when one is given, all
/// zeroes otherwise.
pub open spec fn ladder_steps(p: Params, maybe_msg: Option<Seq<u8>>) -> Seq<u8> {
    match maybe_msg {
        Some(msg) => step_vector(p, msg),
        None => Seq::new(p.total as nat, |i: int| 0u8),
    }
}

/// Where chain `i` starts: signing walks up from the origin, every other mode
/// starts at the step the vector selects.
pub open spec fn chain_begin(mode: ComputeLaddersMode, d: Seq<u8>, i: int) -> int {
    if mode == ComputeLaddersMode::Sign {
        0
    } else {
        d[i] as int
    }
}

/// Where chain `i` stops: signing stops at the selected step, every other
/// mode walks through to the chain tail.
pub open spec fn chain_end(mode: ComputeLaddersMode, d: Seq<u8>, i: int) -> int {
    if mode == ComputeLaddersMode::Sign {
        d[i] as int
    } else {
        255
    }
}

/// Segment `i` of a flat byte string laid out in `n`-byte cells.
pub open spec fn segment(s: Seq<u8>, n: nat, i: int) -> Seq<u8> {
    s.subrange(i * n, (i + 1) * n)
}

/// Whether the XOR of all bits of `v` is one.
pub open spec fn byte_parity(v: u8) -> bool {
    ((v >> 7) ^ (v >> 6) ^ (v >> 5) ^ (v >> 4) ^ (v >> 3) ^ (v >> 2) ^ (v >> 1) ^ v) & 1 == 1
}

/// Whether an odd number of bits is set across all of `s`.
pub open spec fn bytes_parity(s: Seq<u8>) -> bool
    decreases s.len(),
{
    if s.len() == 0 {
        false
    } else {
        bytes_parity(s.drop_last()) != byte_parity(s.last())
    }
}

/// The value of chain `i` after the walk that `mode` and the step vector `d`
/// prescribe, starting from its cell of `points`.
pub open spec fn walked_chain(
    p: Params,
    p_seed: Seq<u8>,
    points: Seq<u8>,
    d: Seq<u8>,
    mode: ComputeLaddersMode,
    i: int,
) -> Seq<u8> {
    chain_from(
        p.prf_hash,
        p.n as nat,
        p_seed,
        mask_seq(p.prf_hash, p.n as nat, p_seed),
        segment(points, p.n as nat, i),
        chain_begin(mode, d, i),
        chain_end(mode, d, i),
    )
}

/// The first `count` chain outputs, concatenated in chain order.
pub open spec fn outputs_upto(
    p: Params,
    p_seed: Seq<u8>,
    points: Seq<u8>,
    d: Seq<u8>,
    mode: ComputeLaddersMode,
    count: int,
) -> Seq<u8>
    decreases count,
{
    if count <= 0 {
        Seq::empty()
    } else {
        outputs_upto(p, p_seed, points, d, mode, count - 1) + walked_chain(
            p,
            p_seed,
            points,
            d,
            mode,
            count - 1,
        )
    }
}

/// All chain outputs, concatenated in chain order.
pub open spec fn ladder_outputs(
    p: Params,
    p_seed: Seq<u8>,
    points: Seq<u8>,
    d: Seq<u8>,
    mode: ComputeLaddersMode,
) -> Seq<u8> {
    outputs_upto(p, p_seed, points, d, mode, p.total as int)
}

/// The concatenation of those chain outputs whose bit parity is one; only
/// they feed the public-key tweak.
pub open spec fn parity_filtered(outputs: Seq<u8>, n: nat, count: int) -> Seq<u8>
    decreases count,
{
    if count <= 0 {
        Seq::empty()
    } else {
        parity_filtered(outputs, n, count - 1) + if bytes_parity(segment(outputs, n, count - 1)) {
            segment(outputs, n, count - 1)
        } else {
            Seq::empty()
        }
    }
}

/// The 32-byte aggregated public key: SHA3-256 over the public seed, the
/// parity-selected tweak and all chain outputs.
pub open spec fn aggregate_key(p: Params, p_seed: Seq<u8>, outputs: Seq<u8>) -> Seq<u8> {
    let tweak = prefix_bytes(sha3_256_of(parity_filtered(outputs, p.n as nat, p.total as int)), 32);
    prefix_bytes(sha3_256_of(p_seed + tweak + outputs), 32)
}

/// What the ladder walk returns: the raw outputs when signing, the aggregated
/// public key in every other mode.
pub open spec fn ladders_value(
    p: Params,
    p_seed: Seq<u8>,
    maybe_msg: Option<Seq<u8>>,
    points: Seq<u8>,
    mode: ComputeLaddersMode,
) -> Seq<u8> {
    let d = ladder_steps(p, maybe_msg);
    let outs = ladder_outputs(p, p_seed, points, d, mode);
    if mode == ComputeLaddersMode::Sign {
        outs
    } else {
        aggregate_key(p, p_seed, outs)
    }
}

/// The value of chain `i` at step `k`, starting from its cell of `points`.
pub open spec fn chain_at_step(p: Params, p_seed: Seq<u8>, points: Seq<u8>, i: int, k: int) -> Seq<
    u8,
> {
    chain_from(
        p.prf_hash,
        p.n as nat,
        p_seed,
        mask_seq(p.prf_hash, p.n as nat, p_seed),
        segment(points, p.n as nat, i),
        0,
        k,
    )
}

/// The first `count` cells of row `k` of the precomputed chain table.
pub open spec fn row_upto(p: Params, p_seed: Seq<u8>, points: Seq<u8>, k: int, count: int) -> Seq<
    u8,
>
    decreases count,
{
    if count <= 0 {
        Seq::empty()
    } else {
        row_upto(p, p_seed, points, k, count - 1) + chain_at_step(p, p_seed, points, count - 1, k)
    }
}

/// Row `k` of the precomputed chain table: every chain's value at step `k`.
pub open spec fn table_row(p: Params, p_seed: Seq<u8>, points: Seq<u8>, k: int) -> Seq<u8> {
    row_upto(p, p_seed, points, k, p.total as int)
}

/// The error, if any, that the ladder walk reports for these arguments, in
/// the order the checks are made.
pub open spec fn ladders_error(
    p: Params,
    p_seed: Seq<u8>,
    maybe_msg: Option<Seq<u8>>,
    points: Seq<u8>,
    mode: ComputeLaddersMode,
) -> Option<WotsError> {
    if p_seed.len() != SEED_SIZE {
        Some(WotsError::InvalidSeedSize)
    } else if points.len() < p.n * p.total {
        Some(WotsError::InvalidPointsSize)
    } else if mode == ComputeLaddersMode::Sign && maybe_msg is None {
        Some(WotsError::MustProvideMessage)
    } else if maybe_msg is Some && mode != ComputeLaddersMode::Sign && mode
        != ComputeLaddersMode::Verify {
        Some(WotsError::NoMessageExpected)
    } else if maybe_msg is None && mode != ComputeLaddersMode::Generate && mode
        != ComputeLaddersMode::ComputePublicKey {
        Some(WotsError::ExpectedMessage)
    } else {
        None
    }
}

/// The view of an optional byte vector as an optional byte sequence.
pub open spec fn opt_bytes(m: Option<Vec<u8>>) -> Option<Seq<u8>> {
    match m {
        Some(v) => Some(v@),
        None => None,
    }
}

/// Appends all of `src` to `dst`.
pub fn append_bytes(dst: &mut Vec<u8>, src: &[u8])
    ensures
        final(dst)@ == old(dst)@ + src@,
{
    let mut i: usize = 0;
    assert(dst@ =~= old(dst)@ + src@.take(0));
    while i < src.len()
        invariant
            i <= src@.len(),
            dst@ == old(dst)@ + src@.take(i as int),
        decreases src@.len() - i,
    {
        dst.push(src[i]);
        assert(dst@ =~= old(dst)@ + src@.take(i + 1));
        i = i + 1;
    }
    assert(dst@ =~= old(dst)@ + src@);
}

/// A vector of `len` zero bytes.
pub fn zero_bytes(len: usize) -> (r: Vec<u8>)
    ensures
        r@ == Seq::new(len as nat, |i: int| 0u8),
{
    let mut out: Vec<u8> = Vec::new();
    let mut i: usize = 0;
    assert(out@ =~= Seq::new(0, |i: int| 0u8));
    while i < len
        invariant
            i <= len,
            out@ == Seq::new(i as nat, |j: int| 0u8),
        decreases len - i,
    {
        out.push(0u8);
        assert(out@ =~= Seq::new((i + 1) as nat, |j: int| 0u8));
        i = i + 1;
    }
    out
}

/// Whether two byte strings hold the same bytes.
pub fn bytes_equal(a: &[u8], b: &[u8]) -> (r: bool)
    ensures
        r <==> a@ == b@,
{
    if a.len() != b.len() {
        assert(a@.len() != b@.len());
        return false;
    }
    let mut i: usize = 0;
    while i < a.len()
        invariant
            i <= a@.len(),
            a@.len() == b@.len(),
            forall|j: int| 0 <= j < i ==> a@[j] == b@[j],
        decreases a@.len() - i,
    {
        if a[i] != b[i] {
            return false;
        }
        i = i + 1;
    }
    assert(a@ =~= b@);
    true
}

/// The Winternitz checksum of the hashed message `msg`.
pub fn checksum(msg: &[u8]) -> (r: Vec<u8>)
    requires
        msg@.len() <= MAX_MSG_SIZE,
    ensures
        r@ == checksum_bytes(msg@),
{
    proof {
        lemma_sum_bytes_bounds(msg@);
    }
    let mut sum: u16 = 255u16 * (msg.len() as u16);
    let mut i: usize = 0;
    while i < msg.len()
        invariant
            i <= msg@.len(),
            msg@.len() <= MAX_MSG_SIZE,
            sum == 255 * msg@.len() - sum_bytes(msg@.take(i as int)),
            0 <= sum_bytes(msg@.take(i as int)) <= 255 * i,
        decreases msg@.len() - i,
    {
        proof {
            lemma_sum_bytes_bounds(msg@.take(i + 1));
            assert(msg@.take(i + 1).drop_last() =~= msg@.take(i as int));
            assert(sum_bytes(msg@.take(i + 1)) == sum_bytes(msg@.take(i as int)) + msg@[i as int]);
        }
        sum = sum - (msg[i] as u16);
        i = i + 1;
    }
    proof {
        assert(msg@.take(msg@.len() as int) =~= msg@);
    }
    if msg.len() == 1 {
        let mut out: Vec<u8> = Vec::new();
        out.push(sum as u8);
        assert(out@ =~= checksum_bytes(msg@));
        return out;
    }
    let upper: u8 = ((sum & 0xff00) >> 8) as u8;
    let lower: u8 = sum as u8;
    proof {
        assert(((sum & 0xff00) >> 8) as u8 == sum / 256 && sum as u8 == sum % 256) by (bit_vector);
    }
    let mut out: Vec<u8> = Vec::new();
    out.push(upper);
    out.push(lower);
    assert(out@ =~= checksum_bytes(msg@));
    out
}

/// The byte sum of any string stays between zero and 255 per byte.
pub proof fn lemma_sum_bytes_bounds(s: Seq<u8>)
    ensures
        0 <= sum_bytes(s) <= 255 * s.len(),
    decreases s.len(),
{
    if s.len() > 0 {
        lemma_sum_bytes_bounds(s.drop_last());
    }
}

/// The checksum completes the byte sum of the hashed message to the fixed
/// target `(W - 1) * len`: their total never varies with the message.
pub proof fn lemma_checksum_complements(s: Seq<u8>)
    requires
        1 <= s.len() <= MAX_MSG_SIZE,
    ensures
        sum_bytes(s) + checksum_value(checksum_bytes(s)) == 255 * s.len(),
{
    lemma_sum_bytes_bounds(s);
    let sum = 255 * s.len() - sum_bytes(s);
    if s.len() != 1 {
        assert(checksum_value(checksum_bytes(s)) == 256 * (sum / 256) + sum % 256);
    }
}

/// The element views of a sequence of byte vectors.
pub open spec fn seq_bytes(s: Seq<Vec<u8>>) -> Seq<Seq<u8>> {
    Seq::new(s.len(), |i: int| s[i]@)
}

/// A chain value always keeps the cell width `n` of its starting value.
pub proof fn lemma_chain_from_len(
    prf: Hasher,
    n: nat,
    p_seed: Seq<u8>,
    masks: Seq<Seq<u8>>,
    value: Seq<u8>,
    begin: int,
    end: int,
)
    requires
        value.len() == n,
    ensures
        chain_from(prf, n, p_seed, masks, value, begin, end).len() == n,
    decreases end - begin,
{
    if begin < end {
        lemma_chain_from_len(
            prf,
            n,
            p_seed,
            masks,
            chain_step(prf, n, p_seed, masks, value, begin),
            begin + 1,
            end,
        );
    }
}

/// Walking a chain to step `b` and on to step `c` is the single walk to `c`.
pub proof fn lemma_chain_compose(
    prf: Hasher,
    n: nat,
    p_seed: Seq<u8>,
    masks: Seq<Seq<u8>>,
    value: Seq<u8>,
    a: int,
    b: int,
    c: int,
)
    requires
        a <= b <= c,
    ensures
        chain_from(prf, n, p_seed, masks, chain_from(prf, n, p_seed, masks, value, a, b), b, c)
            == chain_from(prf, n, p_seed, masks, value, a, c),
    decreases b - a,
{
    if a < b {
        lemma_chain_compose(
            prf,
            n,
            p_seed,
            masks,
            chain_step(prf, n, p_seed, masks, value, a),
            a + 1,
            b,
            c,
        );
    }
}

/// One more step at the top of a walk applies `chain_step` to its result.
pub proof fn lemma_chain_extend(
    prf: Hasher,
    n: nat,
    p_seed: Seq<u8>,
    masks: Seq<Seq<u8>>,
    value: Seq<u8>,
    a: int,
    b: int,
)
    requires
        a <= b,
    ensures
        chain_from(prf, n, p_seed, masks, value, a, b + 1) == chain_step(
            prf,
            n,
            p_seed,
            masks,
            chain_from(prf, n, p_seed, masks, value, a, b),
            b,
        ),
{
    lemma_chain_compose(prf, n, p_seed, masks, value, a, b, b + 1);
    let at_b = chain_from(prf, n, p_seed, masks, value, a, b);
    let stepped = chain_step(prf, n, p_seed, masks, at_b, b);
    assert(chain_from(prf, n, p_seed, masks, stepped, b + 1, b + 1) == stepped);
    assert(chain_from(prf, n, p_seed, masks, at_b, b, b + 1) == stepped);
}

impl Params {
    /// Builds the validated tuple a named preset fixes; `Custom` is refused
    /// here and only reachable through `new_from_values`.
    pub fn new(prf_hash: Hasher, msg_hash: Hasher, encoding: ParamsEncoding) -> (r: Result<
        Params,
        WotsError,
    >)
        ensures
            match r {
                Ok(p) => {
                    &&& encoding != ParamsEncoding::Custom
                    &&& hash_output_size(prf_hash) >= preset_n(encoding)
                    &&& hash_output_size(msg_hash) >= preset_m(encoding)
                    &&& p == (Params {
                        n: preset_n(encoding) as usize,
                        m: preset_m(encoding) as usize,
                        total: (preset_m(encoding) + checksum_chain_count(preset_m(encoding))) as usize,
                        encoding,
                        prf_hash,
                        msg_hash,
                    })
                    &&& p.wf()
                },
                Err(e) => if encoding == ParamsEncoding::Custom {
                    e == WotsError::CustomNotSupported
                } else if hash_output_size(prf_hash) < preset_n(encoding) || hash_output_size(
                    msg_hash,
                ) < preset_m(encoding) {
                    e == WotsError::InvalidHasher
                } else {
                    false
                },
            },
    {
        let n: usize;
        let m: usize;
        match encoding {
            ParamsEncoding::Level0 => {
                n = 20;
                m = 24;
            },
            ParamsEncoding::Level1 => {
                n = 24;
                m = 24;
            },
            ParamsEncoding::Level2 => {
                n = 28;
                m = 24;
            },
            ParamsEncoding::Level3 => {
                n = 32;
                m = 24;
            },
            ParamsEncoding::Consensus => {
                n = 32;
                m = 32;
            },
            ParamsEncoding::Custom => {
                return Err(WotsError::CustomNotSupported);
            },
        }
        if !(1 <= m && m <= MAX_MSG_SIZE) {
            return Err(WotsError::InvalidMValue);
        }
        if hash_size(prf_hash) < n || hash_size(msg_hash) < m {
            return Err(WotsError::InvalidHasher);
        }
        let mut checksum_ladders: usize = 2;
        if m == 1 {
            checksum_ladders = 1;
        }
        Ok(
            Params {
                n,
                m,
                total: m + checksum_ladders,
                encoding,
                prf_hash,
                msg_hash,
            },
        )
    }

    /// Builds a `Custom` tuple from an explicit `(n, m)` pair.
    pub fn new_from_values(prf_hash: Hasher, msg_hash: Hasher, n: usize, m: usize) -> (r: Result<
        Params,
        WotsError,
    >)
        ensures
            match r {
                Ok(p) => {
                    &&& 1 <= m <= MAX_MSG_SIZE
                    &&& hash_output_size(prf_hash) >= n
                    &&& hash_output_size(msg_hash) >= m
                    &&& p == (Params {
                        n,
                        m,
                        total: (m + checksum_chain_count(m as int)) as usize,
                        encoding: ParamsEncoding::Custom,
                        prf_hash,
                        msg_hash,
                    })
                    &&& p.wf()
                },
                Err(e) => if !(1 <= m <= MAX_MSG_SIZE) {
                    e == WotsError::InvalidMValue
                } else if hash_output_size(prf_hash) < n || hash_output_size(msg_hash) < m {
                    e == WotsError::InvalidHasher
                } else {
                    false
                },
            },
    {
        if !(1 <= m && m <= MAX_MSG_SIZE) {
            return Err(WotsError::InvalidMValue);
        }
        if hash_size(prf_hash) < n || hash_size(msg_hash) < m {
            return Err(WotsError::InvalidHasher);
        }
        let mut checksum_ladders: usize = 2;
        if m == 1 {
            checksum_ladders = 1;
        }
        Ok(
            Params {
                n,
                m,
                total: m + checksum_ladders,
                encoding: ParamsEncoding::Custom,
                prf_hash,
                msg_hash,
            },
        )
    }

    /// Hashes the message and appends the Winternitz checksum: the full
    /// `total`-byte step vector for signing and verifying.
    pub fn msg_hash_and_compute_checksum(&self, msg: &[u8]) -> (r: Vec<u8>)
        requires
            self.wf(),
        ensures
            r@ == step_vector(*self, msg@),
            r@.len() == self.total,
    {
        let buf = hash_digest(self.msg_hash, msg);
        let mut hashed = prefix_vec(buf.as_slice(), self.m);
        let cs = checksum(hashed.as_slice());
        proof {
            assert(hashed@ == truncated_digest(self.msg_hash, msg@, self.m as nat));
            assert(cs@.len() == checksum_chain_count(self.m as int));
        }
        append_bytes(&mut hashed, cs.as_slice());
        hashed
    }

    /// One tweaked chain step: hash the seed, the tag `j + 1` and the masked
    /// value, and keep the first `n` bytes.
    fn chain_one_step(&self, p_seed: &[u8], value: &Vec<u8>, mask: &Vec<u8>, j: u8) -> (r: Vec<u8>)
        requires
            self.wf(),
            value@.len() == self.n,
            mask@.len() == self.n,
            j <= 254,
        ensures
            r@ == truncated_digest(
                self.prf_hash,
                p_seed@ + seq![(j + 1) as u8] + xor_bytes(value@, mask@),
                self.n as nat,
            ),
            r@.len() == self.n,
    {
        let mut preimage: Vec<u8> = Vec::new();
        let mut b: usize = 0;
        assert(preimage@ =~= xor_bytes(value@, mask@).take(0));
        while b < self.n
            invariant
                b <= self.n,
                value@.len() == self.n,
                mask@.len() == self.n,
                preimage@ == xor_bytes(value@, mask@).take(b as int),
            decreases self.n - b,
        {
            preimage.push(value[b] ^ mask[b]);
            assert(preimage@ =~= xor_bytes(value@, mask@).take(b + 1));
            b = b + 1;
        }
        assert(preimage@ =~= xor_bytes(value@, mask@));
        let mut data: Vec<u8> = Vec::new();
        append_bytes(&mut data, p_seed);
        data.push(j + 1);
        append_bytes(&mut data, preimage.as_slice());
        proof {
            assert(data@ =~= p_seed@ + seq![(j + 1) as u8] + xor_bytes(value@, mask@));
        }
        let buf = hash_digest(self.prf_hash, data.as_slice());
        prefix_vec(buf.as_slice(), self.n)
    }

    /// Walks one chain from its value at step `range.0` to its value at step
    /// `range.1`, one tweaked step at a time.
    pub fn compute_chain(
        &self,
        p_seed: &[u8],
        input: &[u8],
        random_elements: &Vec<Vec<u8>>,
        range: (u8, u8),
    ) -> (r: Vec<u8>)
        requires
            self.wf(),
            input@.len() == self.n,
            range.0 <= range.1,
            random_elements@.len() >= range.1,
            forall|j: int|
                range.0 <= j < range.1 ==> (#[trigger] random_elements@[j])@.len() == self.n,
        ensures
            r@ == chain_from(
                self.prf_hash,
                self.n as nat,
                p_seed@,
                seq_bytes(random_elements@),
                input@,
                range.0 as int,
                range.1 as int,
            ),
            r@.len() == self.n,
    {
        let ghost masks = seq_bytes(random_elements@);
        let mut curr: Vec<u8> = prefix_vec(input, self.n);
        proof {
            assert(curr@ =~= input@);
        }
        let mut j: u8 = range.0;
        while j < range.1
            invariant
                self.wf(),
                range.0 <= j <= range.1,
                range.1 <= random_elements@.len(),
                forall|j2: int|
                    range.0 <= j2 < range.1 ==> (#[trigger] random_elements@[j2])@.len() == self.n,
                masks == seq_bytes(random_elements@),
                curr@ == chain_from(
                    self.prf_hash,
                    self.n as nat,
                    p_seed@,
                    masks,
                    input@,
                    range.0 as int,
                    j as int,
                ),
                curr@.len() == self.n,
            decreases range.1 - j,
        {
            let next = self.chain_one_step(p_seed, &curr, &random_elements[j as usize], j);
            proof {
                assert(masks[j as int] == random_elements@[j as int]@);
                assert(next@ == chain_step(
                    self.prf_hash,
                    self.n as nat,
                    p_seed@,
                    masks,
                    curr@,
                    j as int,
                ));
                lemma_chain_extend(
                    self.prf_hash,
                    self.n as nat,
                    p_seed@,
                    masks,
                    input@,
                    range.0 as int,
                    j as int,
                );
            }
            curr = next;
            j = j + 1;
        }
        curr
    }

    /// Walks one chain from the origin to its tail, recording the value at
    /// every step along the way.
    fn compute_chain_steps(&self, p_seed: &[u8], input: &[u8], random_elements: &Vec<Vec<u8>>) -> (r:
        (Vec<u8>, Vec<Vec<u8>>))
        requires
            self.wf(),
            input@.len() == self.n,
            random_elements@.len() == 255,
            forall|j: int| 0 <= j < 255 ==> (#[trigger] random_elements@[j])@.len() == self.n,
        ensures
            r.0@ == chain_from(
                self.prf_hash,
                self.n as nat,
                p_seed@,
                seq_bytes(random_elements@),
                input@,
                0,
                255,
            ),
            r.0@.len() == self.n,
            r.1@.len() == 256,
            forall|k: int|
                0 <= k < 256 ==> (#[trigger] r.1@[k])@ == chain_from(
                    self.prf_hash,
                    self.n as nat,
                    p_seed@,
                    seq_bytes(random_elements@),
                    input@,
                    0,
                    k,
                ) && r.1@[k]@.len() == self.n,
    {
        let ghost masks = seq_bytes(random_elements@);
        let mut curr: Vec<u8> = prefix_vec(input, self.n);
        proof {
            assert(curr@ =~= input@);
        }
        let mut steps: Vec<Vec<u8>> = Vec::new();
        steps.push(prefix_vec(input, self.n));
        proof {
            assert(steps@[0]@ =~= input@);
        }
        let mut j: u8 = 0;
        while j < 255
            invariant
                self.wf(),
                j <= 255,
                random_elements@.len() == 255,
                forall|j2: int|
                    0 <= j2 < 255 ==> (#[trigger] random_elements@[j2])@.len() == self.n,
                masks == seq_bytes(random_elements@),
                curr@ == chain_from(
                    self.prf_hash,
                    self.n as nat,
                    p_seed@,
                    masks,
                    input@,
                    0,
                    j as int,
                ),
                curr@.len() == self.n,
                steps@.len() == j + 1,
                forall|k: int|
                    0 <= k <= j ==> (#[trigger] steps@[k])@ == chain_from(
                        self.prf_hash,
                        self.n as nat,
                        p_seed@,
                        masks,
                        input@,
                        0,
                        k,
                    ) && steps@[k]@.len() == self.n,
            decreases 255 - j,
        {
            let next = self.chain_one_step(p_seed, &curr, &random_elements[j as usize], j);
            proof {
                assert(masks[j as int] == random_elements@[j as int]@);
                assert(next@ == chain_step(
                    self.prf_hash,
                    self.n as nat,
                    p_seed@,
                    masks,
                    curr@,
                    j as int,
                ));
                lemma_chain_extend(
                    self.prf_hash,
                    self.n as nat,
                    p_seed@,
                    masks,
                    input@,
                    0,
                    j as int,
                );
            }
            curr = next;
            let snapshot = prefix_vec(curr.as_slice(), self.n);
            proof {
                assert(snapshot@ =~= curr@);
            }
            steps.push(snapshot);
            j = j + 1;
        }
        (curr, steps)
    }

    /// Walks all `total` chains as `mode` prescribes and aggregates the
    /// tails: the raw outputs when signing, the 32-byte public key otherwise,
    /// together with the full chain table when generating.
    pub fn compute_ladders(
        &self,
        p_seed: &[u8],
        maybe_msg: Option<Vec<u8>>,
        points: &[u8],
        mode: ComputeLaddersMode,
    ) -> (r: Result<(Vec<u8>, Vec<Vec<u8>>), WotsError>)
        requires
            self.wf(),
        ensures
            match r {
                Ok(out) => {
                    &&& ladders_error(*self, p_seed@, opt_bytes(maybe_msg), points@, mode)
                        is None
                    &&& out.0@ == ladders_value(
                        *self,
                        p_seed@,
                        opt_bytes(maybe_msg),
                        points@,
                        mode,
                    )
                    &&& out.1@.len() == W
                    &&& mode == ComputeLaddersMode::Generate ==> forall|k: int|
                        0 <= k < W ==> (#[trigger] out.1@[k])@ == table_row(
                            *self,
                            p_seed@,
                            points@,
                            k,
                        )
                    &&& mode != ComputeLaddersMode::Generate ==> forall|k: int|
                        0 <= k < W ==> (#[trigger] out.1@[k])@ == Seq::new(
                            (self.n * self.total) as nat,
                            |b: int| 0u8,
                        )
                },
                Err(e) => ladders_error(*self, p_seed@, opt_bytes(maybe_msg), points@, mode)
                    == Some(e),
            },
    {
        let ghost msg_view = opt_bytes(maybe_msg);
        proof {
            assert(hash_output_size(self.prf_hash) <= 32);
            assert(self.n * self.total <= 32 * 256) by (nonlinear_arith)
                requires
                    self.n <= 32,
                    self.total <= 256,
            ;
        }
        if p_seed.len() != SEED_SIZE {
            return Err(WotsError::InvalidSeedSize);
        }
        if points.len() < self.n * self.total {
            return Err(WotsError::InvalidPointsSize);
        }
        if mode == ComputeLaddersMode::Sign && maybe_msg.is_none() {
            return Err(WotsError::MustProvideMessage);
        }
        let start: Vec<u8>;
        match maybe_msg {
            Some(msg) => {
                if mode != ComputeLaddersMode::Sign && mode != ComputeLaddersMode::Verify {
                    return Err(WotsError::NoMessageExpected);
                }
                start = self.msg_hash_and_compute_checksum(msg.as_slice());
            },
            None => {
                if mode != ComputeLaddersMode::Generate && mode
                    != ComputeLaddersMode::ComputePublicKey {
                    return Err(WotsError::ExpectedMessage);
                }
                start = zero_bytes(self.total);
            },
        }
        let ghost d = ladder_steps(*self, msg_view);
        proof {
            assert(start@ == d);
            assert(d.len() == self.total);
            assert(ladders_error(*self, p_seed@, msg_view, points@, mode) is None);
        }
        let random_elements = compute_random_elements(self.prf_hash, self.n, p_seed);
        let ghost masks = seq_bytes(random_elements@);
        proof {
            assert(masks =~= mask_seq(self.prf_hash, self.n as nat, p_seed@));
        }
        let mut chain_outs: Vec<Vec<u8>> = Vec::new();
        let mut steps_table: Vec<Vec<Vec<u8>>> = Vec::new();
        let mut i: usize = 0;
        while i < self.total
            invariant
                self.wf(),
                i <= self.total,
                self.n * self.total <= 8192,
                p_seed@.len() == SEED_SIZE,
                points@.len() >= self.n * self.total,
                d.len() == self.total,
                start@ == d,
                mode == ComputeLaddersMode::Generate ==> d == Seq::new(
                    self.total as nat,
                    |b: int| 0u8,
                ),
                masks == mask_seq(self.prf_hash, self.n as nat, p_seed@),
                masks == seq_bytes(random_elements@),
                random_elements@.len() == 255,
                forall|j: int|
                    0 <= j < 255 ==> (#[trigger] random_elements@[j])@.len() == self.n,
                chain_outs@.len() == i,
                forall|j: int|
                    0 <= j < i ==> (#[trigger] chain_outs@[j])@ == walked_chain(
                        *self,
                        p_seed@,
                        points@,
                        d,
                        mode,
                        j,
                    ) && chain_outs@[j]@.len() == self.n,
                mode == ComputeLaddersMode::Generate ==> steps_table@.len() == i,
                mode != ComputeLaddersMode::Generate ==> steps_table@.len() == 0,
                forall|j: int, k: int|
                    0 <= j < steps_table@.len() && 0 <= k < 256 ==> (#[trigger] steps_table@[j]@[k])@
                        == chain_at_step(*self, p_seed@, points@, j, k),
                forall|j: int| 0 <= j < steps_table@.len() ==> (#[trigger] steps_table@[j])@.len() == 256,
            decreases self.total - i,
        {
            proof {
                assert((i + 1) * self.n <= self.total * self.n && self.total * self.n == self.n
                    * self.total && 0 <= i * self.n && i * self.n + self.n == (i + 1) * self.n)
                    by (nonlinear_arith)
                    requires
                        0 <= i,
                        i + 1 <= self.total,
                        self.n >= 0,
                        self.total >= 0,
                ;
            }
            let from = i * self.n;
            let to = (i + 1) * self.n;
            let value_slice = vstd::slice::slice_subrange(points, from, to);
            proof {
                assert(value_slice@ == segment(points@, self.n as nat, i as int));
            }
            let begin: u8;
            let end: u8;
            if mode == ComputeLaddersMode::Sign {
                begin = 0;
                end = start[i];
            } else {
                begin = start[i];
                end = 255;
            }
            proof {
                assert(begin as int == chain_begin(mode, d, i as int));
                assert(end as int == chain_end(mode, d, i as int));
            }
            if mode == ComputeLaddersMode::Generate {
                let (value, steps) = self.compute_chain_steps(p_seed, value_slice, &random_elements);
                proof {
                    assert(d[i as int] == 0);
                    assert(value@ == walked_chain(*self, p_seed@, points@, d, mode, i as int));
                    assert(forall|k: int|
                        0 <= k < 256 ==> (#[trigger] steps@[k])@ == chain_at_step(
                            *self,
                            p_seed@,
                            points@,
                            i as int,
                            k,
                        ));
                }
                chain_outs.push(value);
                steps_table.push(steps);
            } else {
                let value = self.compute_chain(p_seed, value_slice, &random_elements, (begin, end));
                proof {
                    assert(value@ == walked_chain(*self, p_seed@, points@, d, mode, i as int));
                }
                chain_outs.push(value);
            }
            i = i + 1;
        }
        let mut outputs: Vec<u8> = Vec::new();
        let mut i2: usize = 0;
        proof {
            assert(outputs@ =~= outputs_upto(*self, p_seed@, points@, d, mode, 0));
        }
        while i2 < self.total
            invariant
                self.wf(),
                i2 <= self.total,
                chain_outs@.len() == self.total,
                forall|j: int|
                    0 <= j < self.total ==> (#[trigger] chain_outs@[j])@ == walked_chain(
                        *self,
                        p_seed@,
                        points@,
                        d,
                        mode,
                        j,
                    ) && chain_outs@[j]@.len() == self.n,
                outputs@ == outputs_upto(*self, p_seed@, points@, d, mode, i2 as int),
            decreases self.total - i2,
        {
            append_bytes(&mut outputs, chain_outs[i2].as_slice());
            proof {
                assert(outputs@ == outputs_upto(*self, p_seed@, points@, d, mode, i2 + 1));
            }
            i2 = i2 + 1;
        }
        proof {
            assert(outputs@ == ladder_outputs(*self, p_seed@, points@, d, mode));
        }
        if mode == ComputeLaddersMode::Sign {
            let chains = zero_table(self.n * self.total);
            return Ok((outputs, chains));
        }
        let mut tweak_input: Vec<u8> = Vec::new();
        let mut i3: usize = 0;
        proof {
            assert(tweak_input@ =~= parity_filtered(outputs@, self.n as nat, 0));
        }
        while i3 < self.total
            invariant
                self.wf(),
                i3 <= self.total,
                points@.len() >= self.n * self.total,
                chain_outs@.len() == self.total,
                forall|j: int|
                    0 <= j < self.total ==> (#[trigger] chain_outs@[j])@ == walked_chain(
                        *self,
                        p_seed@,
                        points@,
                        d,
                        mode,
                        j,
                    ) && chain_outs@[j]@.len() == self.n,
                outputs@ == outputs_upto(*self, p_seed@, points@, d, mode, self.total as int),
                tweak_input@ == parity_filtered(outputs@, self.n as nat, i3 as int),
            decreases self.total - i3,
        {
            proof {
                lemma_outputs_upto_segment(
                    *self,
                    p_seed@,
                    points@,
                    d,
                    mode,
                    self.total as int,
                    i3 as int,
                );
                assert(segment(outputs@, self.n as nat, i3 as int) == chain_outs@[i3 as int]@);
            }
            let is_odd = parity(chain_outs[i3].as_slice());
            if is_odd {
                append_bytes(&mut tweak_input, chain_outs[i3].as_slice());
            }
            proof {
                assert(tweak_input@ =~= parity_filtered(outputs@, self.n as nat, i3 + 1));
            }
            i3 = i3 + 1;
        }
        let tweak = hash_digest(Hasher::Sha3_256, tweak_input.as_slice());
        let mut fin: Vec<u8> = Vec::new();
        append_bytes(&mut fin, p_seed);
        append_bytes(&mut fin, tweak.as_slice());
        append_bytes(&mut fin, outputs.as_slice());
        let result = hash_digest(Hasher::Sha3_256, fin.as_slice());
        proof {
            let tweak_spec = prefix_bytes(
                sha3_256_of(parity_filtered(outputs@, self.n as nat, self.total as int)),
                32,
            );
            assert(tweak@ =~= tweak_spec);
            assert(fin@ =~= p_seed@ + tweak_spec + outputs@);
            assert(result@ =~= aggregate_key(*self, p_seed@, outputs@));
            assert(result@ == ladders_value(*self, p_seed@, msg_view, points@, mode));
        }
        if mode == ComputeLaddersMode::Generate {
            let mut chains: Vec<Vec<u8>> = Vec::new();
            let mut k: usize = 0;
            while k < W
                invariant
                    self.wf(),
                    k <= 256,
                    points@.len() >= self.n * self.total,
                    steps_table@.len() == self.total,
                    forall|j: int, kk: int|
                        0 <= j < self.total && 0 <= kk < 256 ==> (
                        #[trigger] steps_table@[j]@[kk])@ == chain_at_step(
                            *self,
                            p_seed@,
                            points@,
                            j,
                            kk,
                        ),
                    forall|j: int|
                        0 <= j < self.total ==> (#[trigger] steps_table@[j])@.len() == 256,
                    chains@.len() == k,
                    forall|kk: int|
                        0 <= kk < k ==> (#[trigger] chains@[kk])@ == table_row(
                            *self,
                            p_seed@,
                            points@,
                            kk,
                        ),
                decreases 256 - k,
            {
                let mut row: Vec<u8> = Vec::new();
                let mut i4: usize = 0;
                proof {
                    assert(row@ =~= row_upto(*self, p_seed@, points@, k as int, 0));
                }
                while i4 < self.total
                    invariant
                        self.wf(),
                        i4 <= self.total,
                        k < 256,
                        points@.len() >= self.n * self.total,
                        steps_table@.len() == self.total,
                        forall|j: int, kk: int|
                            0 <= j < self.total && 0 <= kk < 256 ==> (
                            #[trigger] steps_table@[j]@[kk])@ == chain_at_step(
                                *self,
                                p_seed@,
                                points@,
                                j,
                                kk,
                            ),
                        forall|j: int|
                            0 <= j < self.total ==> (#[trigger] steps_table@[j])@.len() == 256,
                        row@ == row_upto(*self, p_seed@, points@, k as int, i4 as int),
                    decreases self.total - i4,
                {
                    append_bytes(&mut row, steps_table[i4][k].as_slice());
                    proof {
                        assert(row@ == row_upto(*self, p_seed@, points@, k as int, i4 + 1));
                    }
                    i4 = i4 + 1;
                }
                chains.push(row);
                k = k + 1;
            }
            return Ok((result, chains));
        }
        let chains = zero_table(self.n * self.total);
        Ok((result, chains))
    }

    /// The wire tag this tuple signs under.
    pub fn get_encoding(&self) -> (r: &ParamsEncoding)
        ensures
            *r == self.encoding,
    {
        &self.encoding
    }

    /// Recomputes the public key a signature commits to, walking each chain
    /// cell the complement of the signer's steps.
    pub fn decode(&self, msg: &[u8], signature: &[u8]) -> (r: Result<Vec<u8>, WotsError>)
        requires
            self.wf(),
        ensures
            match r {
                Ok(pk) => decode_result(*self, msg@, signature@) == Ok::<Seq<u8>, WotsError>(pk@),
                Err(e) => decode_result(*self, msg@, signature@) == Err::<Seq<u8>, WotsError>(e),
            },
    {
        proof {
            assert(hash_output_size(self.prf_hash) <= 32);
            assert(self.total * self.n <= 256 * 32 && self.total * self.n == self.n * self.total)
                by (nonlinear_arith)
                requires
                    self.n <= 32,
                    self.total <= 256,
            ;
        }
        if signature.len() != (self.total * self.n) + SEED_SIZE {
            return Err(WotsError::InvalidSignatureSize);
        }
        let seed_part = vstd::slice::slice_subrange(signature, 0, SEED_SIZE);
        let points_part = vstd::slice::slice_subrange(signature, SEED_SIZE, signature.len());
        let res = self.compute_ladders(
            seed_part,
            Some(vstd::slice::slice_to_vec(msg)),
            points_part,
            ComputeLaddersMode::Verify,
        );
        match res {
            Ok(out) => {
                proof {
                    assert(seed_part@ =~= signature@.take(SEED_SIZE as int));
                    assert(points_part@ =~= signature@.skip(SEED_SIZE as int));
                }
                Ok(out.0)
            },
            Err(e) => {
                proof {
                    assert(false);
                }
                Err(e)
            },
        }
    }

    /// Recomputes the public key from the signature and compares it to the
    /// expected one, byte for byte.
    pub fn verify(&self, msg: &[u8], signature: &[u8], public_key: &[u8]) -> (r: Result<
        (),
        WotsError,
    >)
        requires
            self.wf(),
        ensures
            r == verify_result(*self, msg@, signature@, public_key@),
    {
        if public_key.len() != PK_SIZE {
            return Err(WotsError::InvalidPublicKeySize);
        }
        let pk = match self.decode(msg, signature) {
            Ok(pk) => pk,
            Err(e) => {
                return Err(e);
            },
        };
        if !bytes_equal(public_key, pk.as_slice()) {
            return Err(WotsError::InvalidSignature);
        }
        Ok(())
    }
}

/// The public key a well-sized signature decodes to under `p`: the seed is
/// its first 32 bytes, the chain cells are the rest.
pub open spec fn decode_value(p: Params, msg: Seq<u8>, signature: Seq<u8>) -> Seq<u8> {
    ladders_value(
        p,
        signature.take(SEED_SIZE as int),
        Some(msg),
        signature.skip(SEED_SIZE as int),
        ComputeLaddersMode::Verify,
    )
}

/// What decoding returns for each input: only the signature length is ever
/// rejected.
pub open spec fn decode_result(p: Params, msg: Seq<u8>, signature: Seq<u8>) -> Result<
    Seq<u8>,
    WotsError,
> {
    if signature.len() != p.total * p.n + SEED_SIZE {
        Err(WotsError::InvalidSignatureSize)
    } else {
        Ok(decode_value(p, msg, signature))
    }
}

/// What verification returns for each input: a size error for a malformed
/// key or signature, success exactly when the recomputed key matches.
pub open spec fn verify_result(
    p: Params,
    msg: Seq<u8>,
    signature: Seq<u8>,
    public_key: Seq<u8>,
) -> Result<(), WotsError> {
    if public_key.len() != PK_SIZE {
        Err(WotsError::InvalidPublicKeySize)
    } else if signature.len() != p.total * p.n + SEED_SIZE {
        Err(WotsError::InvalidSignatureSize)
    } else if public_key == decode_value(p, msg, signature) {
        Ok(())
    } else {
        Err(WotsError::InvalidSignature)
    }
}

/// In every mode but signing the chains walk the same range, so the outputs
/// agree whatever the mode is used for.
proof fn lemma_nonsign_outputs_agree(
    p: Params,
    p_seed: Seq<u8>,
    points: Seq<u8>,
    d: Seq<u8>,
    m1: ComputeLaddersMode,
    m2: ComputeLaddersMode,
    count: int,
)
    requires
        m1 != ComputeLaddersMode::Sign,
        m2 != ComputeLaddersMode::Sign,
    ensures
        outputs_upto(p, p_seed, points, d, m1, count) == outputs_upto(p, p_seed, points, d, m2, count),
    decreases count,
{
    if count > 0 {
        lemma_nonsign_outputs_agree(p, p_seed, points, d, m1, m2, count - 1);
    }
}

/// Generating the chain table aggregates to exactly the same public key as
/// the direct public-key walk.
pub proof fn lemma_generate_matches_public_key(p: Params, p_seed: Seq<u8>, points: Seq<u8>)
    ensures
        ladders_value(p, p_seed, None, points, ComputeLaddersMode::Generate) == ladders_value(
            p,
            p_seed,
            None,
            points,
            ComputeLaddersMode::ComputePublicKey,
        ),
{
    lemma_nonsign_outputs_agree(
        p,
        p_seed,
        points,
        ladder_steps(p, None),
        ComputeLaddersMode::Generate,
        ComputeLaddersMode::ComputePublicKey,
        p.total as int,
    );
}

/// Chain by chain, the verifier's walk over a fresh signature lands on the
/// same tails as the public-key walk over the secret chains.
proof fn lemma_verify_outputs_match(
    p: Params,
    p_seed: Seq<u8>,
    sk: Seq<u8>,
    msg: Seq<u8>,
    count: int,
)
    requires
        p.wf(),
        sk.len() == p.n * p.total,
        0 <= count <= p.total,
    ensures
        outputs_upto(
            p,
            p_seed,
            ladder_outputs(p, p_seed, sk, step_vector(p, msg), ComputeLaddersMode::Sign),
            step_vector(p, msg),
            ComputeLaddersMode::Verify,
            count,
        ) == outputs_upto(
            p,
            p_seed,
            sk,
            Seq::new(p.total as nat, |b: int| 0u8),
            ComputeLaddersMode::ComputePublicKey,
            count,
        ),
    decreases count,
{
    if count > 0 {
        lemma_verify_outputs_match(p, p_seed, sk, msg, count - 1);
        let i = count - 1;
        let d = step_vector(p, msg);
        let body = ladder_outputs(p, p_seed, sk, d, ComputeLaddersMode::Sign);
        let masks = mask_seq(p.prf_hash, p.n as nat, p_seed);
        let zeros = Seq::new(p.total as nat, |b: int| 0u8);
        assert(d.len() == p.total);
        lemma_outputs_upto_segment(p, p_seed, sk, d, ComputeLaddersMode::Sign, p.total as int, i);
        assert(segment(body, p.n as nat, i) == walked_chain(
            p,
            p_seed,
            sk,
            d,
            ComputeLaddersMode::Sign,
            i,
        ));
        lemma_chain_compose(
            p.prf_hash,
            p.n as nat,
            p_seed,
            masks,
            segment(sk, p.n as nat, i),
            0,
            d[i] as int,
            255,
        );
        assert(walked_chain(p, p_seed, body, d, ComputeLaddersMode::Verify, i) == walked_chain(
            p,
            p_seed,
            sk,
            zeros,
            ComputeLaddersMode::ComputePublicKey,
            i,
        ));
    }
}

/// Verifying a freshly signed message against the matching public key always
/// succeeds, for every message the signer accepts.
pub proof fn lemma_sign_verify_roundtrip(p: Params, p_seed: Seq<u8>, sk: Seq<u8>, msg: Seq<u8>)
    requires
        p.wf(),
        p_seed.len() == SEED_SIZE,
        sk.len() == p.n * p.total,
        msg.len() <= MAX_MSG_SIZE,
    ensures
        verify_result(
            p,
            msg,
            p_seed + ladders_value(p, p_seed, Some(msg), sk, ComputeLaddersMode::Sign),
            ladders_value(p, p_seed, None, sk, ComputeLaddersMode::ComputePublicKey),
        ) == Ok::<(), WotsError>(()),
{
    let d = step_vector(p, msg);
    let zeros = Seq::new(p.total as nat, |i: int| 0u8);
    let body = ladder_outputs(p, p_seed, sk, d, ComputeLaddersMode::Sign);
    let sig = p_seed + body;
    let pk = ladders_value(p, p_seed, None, sk, ComputeLaddersMode::ComputePublicKey);
    lemma_outputs_upto_len(p, p_seed, sk, d, ComputeLaddersMode::Sign, p.total as int);
    assert(p.total * p.n == p.n * p.total) by (nonlinear_arith);
    assert(sig.len() == p.total * p.n + SEED_SIZE);
    assert(pk.len() == PK_SIZE);
    assert(sig.take(SEED_SIZE as int) =~= p_seed);
    assert(sig.skip(SEED_SIZE as int) =~= body);
    lemma_verify_outputs_match(p, p_seed, sk, msg, p.total as int);
    assert(ladder_outputs(p, p_seed, body, d, ComputeLaddersMode::Verify) == ladder_outputs(
        p,
        p_seed,
        sk,
        zeros,
        ComputeLaddersMode::ComputePublicKey,
    ));
    assert(decode_value(p, msg, sig) == pk);
    assert(verify_result(p, msg, sig, pk) == Ok::<(), WotsError>(()));
}

/// All `W - 1` per-step masks, each the truncated PRF digest of the public
/// seed and the step tag.
fn compute_random_elements(prf_hash: Hasher, n: usize, p_seed: &[u8]) -> (r: Vec<Vec<u8>>)
    requires
        n <= hash_output_size(prf_hash),
    ensures
        r@.len() == 255,
        forall|j: int|
            0 <= j < 255 ==> (#[trigger] r@[j])@ == mask_at(prf_hash, n as nat, p_seed@, j)
                && r@[j]@.len() == n,
{
    let mut out: Vec<Vec<u8>> = Vec::new();
    let mut i: usize = 0;
    while i < W - 1
        invariant
            i <= 255,
            n <= hash_output_size(prf_hash),
            out@.len() == i,
            forall|j: int|
                0 <= j < i ==> (#[trigger] out@[j])@ == mask_at(prf_hash, n as nat, p_seed@, j)
                    && out@[j]@.len() == n,
        decreases 255 - i,
    {
        let mut data: Vec<u8> = Vec::new();
        append_bytes(&mut data, p_seed);
        data.push((i + 1) as u8);
        proof {
            assert(data@ =~= p_seed@ + seq![(i + 1) as u8]);
        }
        let buf = hash_digest(prf_hash, data.as_slice());
        let elem = prefix_vec(buf.as_slice(), n);
        out.push(elem);
        i = i + 1;
    }
    out
}

/// Whether an odd number of bits is set in `value`.
fn parity(value: &[u8]) -> (r: bool)
    ensures
        r == bytes_parity(value@),
{
    let mut odd: bool = false;
    let mut i: usize = 0;
    assert(value@.take(0) =~= Seq::<u8>::empty());
    while i < value.len()
        invariant
            i <= value@.len(),
            odd == bytes_parity(value@.take(i as int)),
        decreases value@.len() - i,
    {
        let mut v: u8 = value[i];
        let b0: u8 = v;
        v = v ^ (v >> 4);
        v = v ^ (v >> 2);
        v = v ^ (v >> 1);
        let bit: bool = (v & 1) == 1;
        proof {
            assert(((((b0 ^ (b0 >> 4)) ^ ((b0 ^ (b0 >> 4)) >> 2)) ^ (((b0 ^ (b0 >> 4)) ^ ((b0 ^ (
            b0 >> 4)) >> 2)) >> 1)) & 1 == 1) == (((b0 >> 7) ^ (b0 >> 6) ^ (b0 >> 5) ^ (b0 >> 4) ^ (
            b0 >> 3) ^ (b0 >> 2) ^ (b0 >> 1) ^ b0) & 1 == 1)) by (bit_vector);
            assert(value@.take(i + 1).drop_last() =~= value@.take(i as int));
            assert(value@.take(i + 1).last() == value@[i as int]);
        }
        odd = if bit {
            !odd
        } else {
            odd
        };
        i = i + 1;
    }
    proof {
        assert(value@.take(value@.len() as int) =~= value@);
    }
    odd
}

/// A cell of an in-bounds flat layout has exactly the cell width.
pub proof fn lemma_segment_len(s: Seq<u8>, n: nat, i: int)
    requires
        0 <= i,
        (i + 1) * n <= s.len(),
    ensures
        segment(s, n, i).len() == n,
{
    assert(0 <= i * n && i * n + n == (i + 1) * n) by (nonlinear_arith)
        requires
            i >= 0,
            n >= 0,
    ;
}

/// Every chain output keeps the cell width `n`.
pub proof fn lemma_walked_chain_len(
    p: Params,
    p_seed: Seq<u8>,
    points: Seq<u8>,
    d: Seq<u8>,
    mode: ComputeLaddersMode,
    i: int,
)
    requires
        p.wf(),
        points.len() >= p.n * p.total,
        0 <= i < p.total,
    ensures
        walked_chain(p, p_seed, points, d, mode, i).len() == p.n,
{
    assert((i + 1) * p.n <= p.total * p.n && p.total * p.n == p.n * p.total) by (nonlinear_arith)
        requires
            i + 1 <= p.total,
            p.n >= 0,
            p.total >= 0,
    ;
    lemma_segment_len(points, p.n as nat, i);
    lemma_chain_from_len(
        p.prf_hash,
        p.n as nat,
        p_seed,
        mask_seq(p.prf_hash, p.n as nat, p_seed),
        segment(points, p.n as nat, i),
        chain_begin(mode, d, i),
        chain_end(mode, d, i),
    );
}

/// The concatenated outputs of the first `count` chains fill `count` cells.
pub proof fn lemma_outputs_upto_len(
    p: Params,
    p_seed: Seq<u8>,
    points: Seq<u8>,
    d: Seq<u8>,
    mode: ComputeLaddersMode,
    count: int,
)
    requires
        p.wf(),
        points.len() >= p.n * p.total,
        0 <= count <= p.total,
    ensures
        outputs_upto(p, p_seed, points, d, mode, count).len() == count * p.n,
    decreases count,
{
    if count == 0 {
        assert(count * p.n == 0) by (nonlinear_arith)
            requires
                count == 0,
        ;
    } else {
        lemma_outputs_upto_len(p, p_seed, points, d, mode, count - 1);
        lemma_walked_chain_len(p, p_seed, points, d, mode, count - 1);
        assert((count - 1) * p.n + p.n == count * p.n) by (nonlinear_arith);
    }
}

/// Cell `i` of the concatenated chain outputs is chain `i`'s output.
pub proof fn lemma_outputs_upto_segment(
    p: Params,
    p_seed: Seq<u8>,
    points: Seq<u8>,
    d: Seq<u8>,
    mode: ComputeLaddersMode,
    count: int,
    i: int,
)
    requires
        p.wf(),
        points.len() >= p.n * p.total,
        0 <= i < count <= p.total,
    ensures
        segment(outputs_upto(p, p_seed, points, d, mode, count), p.n as nat, i) == walked_chain(
            p,
            p_seed,
            points,
            d,
            mode,
            i,
        ),
    decreases count,
{
    let n = p.n as nat;
    let prev = outputs_upto(p, p_seed, points, d, mode, count - 1);
    let cell = walked_chain(p, p_seed, points, d, mode, count - 1);
    lemma_outputs_upto_len(p, p_seed, points, d, mode, count - 1);
    lemma_walked_chain_len(p, p_seed, points, d, mode, count - 1);
    assert(0 <= i * n && i * n + n == (i + 1) * n && (i + 1) * n <= count * n) by (nonlinear_arith)
        requires
            0 <= i,
            i + 1 <= count,
            n >= 0,
    ;
    if i == count - 1 {
        assert(segment(prev + cell, n, i) =~= cell);
    } else {
        lemma_outputs_upto_segment(p, p_seed, points, d, mode, count - 1, i);
        assert((i + 1) * n <= (count - 1) * n) by (nonlinear_arith)
            requires
                i + 1 <= count - 1,
                n >= 0,
        ;
        assert(segment(prev + cell, n, i) =~= segment(prev, n, i));
    }
}

/// Every recorded chain value keeps the cell width `n`.
pub proof fn lemma_chain_at_step_len(p: Params, p_seed: Seq<u8>, points: Seq<u8>, i: int, k: int)
    requires
        p.wf(),
        points.len() >= p.n * p.total,
        0 <= i < p.total,
    ensures
        chain_at_step(p, p_seed, points, i, k).len() == p.n,
{
    assert((i + 1) * p.n <= p.total * p.n && p.total * p.n == p.n * p.total) by (nonlinear_arith)
        requires
            i + 1 <= p.total,
            p.n >= 0,
            p.total >= 0,
    ;
    lemma_segment_len(points, p.n as nat, i);
    lemma_chain_from_len(
        p.prf_hash,
        p.n as nat,
        p_seed,
        mask_seq(p.prf_hash, p.n as nat, p_seed),
        segment(points, p.n as nat, i),
        0,
        k,
    );
}

/// The first `count` cells of a table row fill `count` cells.
pub proof fn lemma_row_upto_len(
    p: Params,
    p_seed: Seq<u8>,
    points: Seq<u8>,
    k: int,
    count: int,
)
    requires
        p.wf(),
        points.len() >= p.n * p.total,
        0 <= count <= p.total,
    ensures
        row_upto(p, p_seed, points, k, count).len() == count * p.n,
    decreases count,
{
    if count == 0 {
        assert(count * p.n == 0) by (nonlinear_arith)
            requires
                count == 0,
        ;
    } else {
        lemma_row_upto_len(p, p_seed, points, k, count - 1);
        lemma_chain_at_step_len(p, p_seed, points, count - 1, k);
        assert((count - 1) * p.n + p.n == count * p.n) by (nonlinear_arith);
    }
}

/// Cell `i` of a table row is chain `i`'s value at that step.
pub proof fn lemma_row_upto_segment(
    p: Params,
    p_seed: Seq<u8>,
    points: Seq<u8>,
    k: int,
    count: int,
    i: int,
)
    requires
        p.wf(),
        points.len() >= p.n * p.total,
        0 <= i < count <= p.total,
    ensures
        segment(row_upto(p, p_seed, points, k, count), p.n as nat, i) == chain_at_step(
            p,
            p_seed,
            points,
            i,
            k,
        ),
    decreases count,
{
    let n = p.n as nat;
    let prev = row_upto(p, p_seed, points, k, count - 1);
    let cell = chain_at_step(p, p_seed, points, count - 1, k);
    lemma_row_upto_len(p, p_seed, points, k, count - 1);
    lemma_chain_at_step_len(p, p_seed, points, count - 1, k);
    assert(0 <= i * n && i * n + n == (i + 1) * n && (i + 1) * n <= count * n) by (nonlinear_arith)
        requires
            0 <= i,
            i + 1 <= count,
            n >= 0,
    ;
    if i == count - 1 {
        assert(segment(prev + cell, n, i) =~= cell);
    } else {
        lemma_row_upto_segment(p, p_seed, points, k, count - 1, i);
        assert((i + 1) * n <= (count - 1) * n) by (nonlinear_arith)
            requires
                i + 1 <= count - 1,
                n >= 0,
        ;
        assert(segment(prev + cell, n, i) =~= segment(prev, n, i));
    }
}

/// Adjacent rows of the chain table differ by one tweaked step per chain:
/// cell `i` of row `k` is the step-`k - 1` image of cell `i` of row `k - 1`,
/// and row zero holds the starting points themselves.
pub proof fn lemma_table_rows_step(p: Params, p_seed: Seq<u8>, points: Seq<u8>, i: int, k: int)
    requires
        p.wf(),
        points.len() >= p.n * p.total,
        0 <= i < p.total,
        1 <= k,
    ensures
        segment(table_row(p, p_seed, points, k), p.n as nat, i) == chain_step(
            p.prf_hash,
            p.n as nat,
            p_seed,
            mask_seq(p.prf_hash, p.n as nat, p_seed),
            segment(table_row(p, p_seed, points, k - 1), p.n as nat, i),
            k - 1,
        ),
        segment(table_row(p, p_seed, points, 0), p.n as nat, i) == segment(points, p.n as nat, i),
{
    lemma_row_upto_segment(p, p_seed, points, k, p.total as int, i);
    lemma_row_upto_segment(p, p_seed, points, k - 1, p.total as int, i);
    lemma_row_upto_segment(p, p_seed, points, 0, p.total as int, i);
    lemma_chain_extend(
        p.prf_hash,
        p.n as nat,
        p_seed,
        mask_seq(p.prf_hash, p.n as nat, p_seed),
        segment(points, p.n as nat, i),
        0,
        k - 1,
    );
}

/// A table of `W` rows of `len` zero bytes each.
fn zero_table(len: usize) -> (r: Vec<Vec<u8>>)
    ensures
        r@.len() == 256,
        forall|k: int|
            0 <= k < 256 ==> (#[trigger] r@[k])@ == Seq::new(len as nat, |b: int| 0u8),
{
    let mut out: Vec<Vec<u8>> = Vec::new();
    let mut k: usize = 0;
    while k < W
        invariant
            k <= 256,
            out@.len() == k,
            forall|kk: int|
                0 <= kk < k ==> (#[trigger] out@[kk])@ == Seq::new(len as nat, |b: int| 0u8),
        decreases 256 - k,
    {
        out.push(zero_bytes(len));
        k = k + 1;
    }
    out
}

} // verus!
