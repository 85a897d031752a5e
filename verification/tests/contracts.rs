use blake2::digest::{Update, VariableOutput};

use wots::hasher::{hash_digest, Hasher};
use wots::keys::Key;
use wots::params::{checksum, ComputeLaddersMode, Params, WotsError, MAX_MSG_SIZE, SEED_SIZE};
use wots::security::{consensus_params, level_1_params, verify, verify_no_consensus, ParamsEncoding};

#[test]
fn checksum_complements_byte_sum() {
    // three bytes: sum 0 + 255 + 7 = 262; 255 * 3 - 262 = 503 = 0x01f7
    let ret = checksum(&[0u8, 255u8, 7u8]);
    assert_eq!(ret, vec![1u8, 247u8]);

    // single byte digests carry a one-byte checksum: 255 - 10 = 245
    let ret = checksum(&[10u8]);
    assert_eq!(ret, vec![245u8]);

    // the extremes of a two-byte digest
    let ret = checksum(&[255u8, 255u8]);
    assert_eq!(ret, vec![0u8, 0u8]);
    let ret = checksum(&[0u8, 0u8]);
    assert_eq!(ret, vec![1u8, 254u8]);
}

#[test]
fn construction_errors() {
    let res = Params::new(Hasher::Blake2b, Hasher::Sha3_256, ParamsEncoding::Custom);
    assert!(matches!(res, Err(WotsError::CustomNotSupported)));

    let res = Params::new(Hasher::Sha3_224, Hasher::Sha3_256, ParamsEncoding::Consensus);
    assert!(matches!(res, Err(WotsError::InvalidHasher)));

    let res = Params::new_from_values(Hasher::Blake2b, Hasher::Sha3_256, 32, 0);
    assert!(matches!(res, Err(WotsError::InvalidMValue)));

    let res = Params::new_from_values(Hasher::Blake2b, Hasher::Sha3_256, 32, 255);
    assert!(matches!(res, Err(WotsError::InvalidMValue)));

    let res = Params::new_from_values(Hasher::Blake2b, Hasher::Sha3_224, 32, 30);
    assert!(matches!(res, Err(WotsError::InvalidHasher)));
}

#[test]
fn ladder_input_errors() {
    let params = consensus_params(Hasher::Blake2b, Hasher::Sha3_256);
    let p_seed = vec![88u8; SEED_SIZE];
    let points = vec![99u8; params.n * params.total];

    let res = params.compute_ladders(
        &vec![88u8; 31],
        None,
        &points,
        ComputeLaddersMode::ComputePublicKey,
    );
    assert!(matches!(res, Err(WotsError::InvalidSeedSize)));

    let res = params.compute_ladders(
        &p_seed,
        None,
        &vec![99u8; 7],
        ComputeLaddersMode::ComputePublicKey,
    );
    assert!(matches!(res, Err(WotsError::InvalidPointsSize)));

    let res = params.compute_ladders(&p_seed, None, &points, ComputeLaddersMode::Sign);
    assert!(matches!(res, Err(WotsError::MustProvideMessage)));

    let res = params.compute_ladders(
        &p_seed,
        Some(vec![1u8, 2u8]),
        &points,
        ComputeLaddersMode::Generate,
    );
    assert!(matches!(res, Err(WotsError::NoMessageExpected)));

    let res = params.compute_ladders(&p_seed, None, &points, ComputeLaddersMode::Verify);
    assert!(matches!(res, Err(WotsError::ExpectedMessage)));
}

#[test]
fn verify_size_errors() {
    let params = level_1_params(Hasher::Blake2b, Hasher::Sha3_224);
    let key = Key::new(params).unwrap();
    let msg = b"a short message";
    let signature = key.sign(msg).unwrap();

    // a public key must hold exactly 32 bytes
    let res = params.verify(msg, &signature[1..], &key.public_key[..31]);
    assert!(matches!(res, Err(WotsError::InvalidPublicKeySize)));

    // the inner signature must hold the seed and every chain cell
    let res = params.verify(msg, &signature[2..], &key.public_key);
    assert!(matches!(res, Err(WotsError::InvalidSignatureSize)));
}

#[test]
fn verify_rejects_tampering() {
    let params = level_1_params(Hasher::Blake2b, Hasher::Sha3_224);
    let key = Key::new(params).unwrap();
    let msg = b"a short message";
    let signature = key.sign(msg).unwrap();

    // flip one bit of the body
    let mut forged = signature.clone();
    let last = forged.len() - 1;
    forged[last] ^= 1;
    let res = verify(msg, &forged, &key.public_key);
    assert!(matches!(res, Err(WotsError::InvalidSignature)));

    // same signature, different message
    let res = verify(b"another message", &signature, &key.public_key);
    assert!(matches!(res, Err(WotsError::InvalidSignature)));

    // same signature, wrong public key
    let other = Key::new(params).unwrap();
    let res = verify(msg, &signature, &other.public_key);
    assert!(matches!(res, Err(WotsError::InvalidSignature)));

    // untouched, it verifies
    verify(msg, &signature, &key.public_key).unwrap();
}

#[test]
fn dispatch_rejects_unknown_tags() {
    let params = level_1_params(Hasher::Blake2b, Hasher::Sha3_224);
    let key = Key::new(params).unwrap();
    let msg = b"tagged";
    let mut signature = key.sign(msg).unwrap();
    signature[0] = 5;
    let res = verify(msg, &signature, &key.public_key);
    assert!(matches!(res, Err(WotsError::InvalidParamsEncodingType)));
    let res = verify_no_consensus(msg, &signature, &key.public_key);
    assert!(matches!(res, Err(WotsError::InvalidParamsEncodingType)));
}

#[test]
fn consensus_rejection_names_the_encoding() {
    let params = consensus_params(Hasher::Blake2b, Hasher::Sha3_256);
    let key = Key::new(params).unwrap();
    let msg = b"consensus only";
    let signature = key.sign(msg).unwrap();

    // the default dispatcher accepts it
    verify(msg, &signature, &key.public_key).unwrap();

    // the hardened dispatcher refuses the tag itself
    let res = verify_no_consensus(msg, &signature, &key.public_key);
    assert!(matches!(res, Err(WotsError::InvalidParamsEncodingType)));
}

#[test]
fn precomputation_keeps_signatures_and_key() {
    let params = consensus_params(Hasher::Blake2b, Hasher::Sha3_256);
    let seed = vec![7u8; SEED_SIZE];
    let p_seed = vec![11u8; SEED_SIZE];
    let fresh = Key::from_seed(params, seed.clone(), p_seed.clone()).unwrap();
    let mut precomputed = Key::from_seed(params, seed, p_seed).unwrap();
    precomputed.generate().unwrap();

    // the public key is unchanged by precomputation
    assert_eq!(fresh.public_key, precomputed.public_key);

    // signatures agree bitwise, on short and maximal messages
    let msg = b"one-time";
    assert_eq!(fresh.sign(msg).unwrap(), precomputed.sign(msg).unwrap());
    let long = vec![42u8; MAX_MSG_SIZE];
    assert_eq!(fresh.sign(&long).unwrap(), precomputed.sign(&long).unwrap());

    // generating twice changes nothing
    let table = precomputed.chains.clone().unwrap();
    precomputed.generate().unwrap();
    assert_eq!(table, precomputed.chains.clone().unwrap());
}

#[test]
fn from_seed_is_deterministic() {
    let params = level_1_params(Hasher::Blake2b, Hasher::Sha3_224);
    let seed = vec![1u8; SEED_SIZE];
    let p_seed = vec![2u8; SEED_SIZE];
    let a = Key::from_seed(params, seed.clone(), p_seed.clone()).unwrap();
    let b = Key::from_seed(params, seed, p_seed).unwrap();
    assert_eq!(a.secret_key, b.secret_key);
    assert_eq!(a.public_key, b.public_key);
    assert_eq!(a.sign(b"same").unwrap(), b.sign(b"same").unwrap());
}

#[test]
fn signature_envelope_layout() {
    let params = level_1_params(Hasher::Blake2b, Hasher::Sha3_224);
    let key = Key::new(params).unwrap();
    let msg = b"enveloped";
    let signature = key.sign(msg).unwrap();
    assert_eq!(signature.len(), 1 + SEED_SIZE + params.n * params.total);
    assert_eq!(signature[0], 1u8);
    assert_eq!(signature[1..1 + SEED_SIZE], key.p_seed[..]);
}

#[test]
fn blake2b_digest_matches_the_crate() {
    let data = b"chain point input";
    let via_library = hash_digest(Hasher::Blake2b, data);

    let mut hasher = blake2::Blake2bVar::new(32).unwrap();
    hasher.update(data);
    let mut direct = vec![0u8; 32];
    hasher.finalize_variable(&mut direct).unwrap();

    assert_eq!(via_library, direct);
    assert_eq!(via_library.len(), 32);
    assert_ne!(via_library, data.to_vec());
}

#[test]
fn sha3_digests_match_the_crate() {
    let data = b"aggregated tail";
    let d224 = hash_digest(Hasher::Sha3_224, data);
    let d256 = hash_digest(Hasher::Sha3_256, data);
    assert_eq!(
        d224,
        <sha3::Sha3_224 as sha3::Digest>::digest(data).to_vec()
    );
    assert_eq!(
        d256,
        <sha3::Sha3_256 as sha3::Digest>::digest(data).to_vec()
    );
    assert_eq!(d224.len(), 28);
    assert_eq!(d256.len(), 32);
}

#[test]
fn encoding_tags_round_trip() {
    assert_eq!(u8::from(&ParamsEncoding::Level0), 0);
    assert_eq!(u8::from(&ParamsEncoding::Level1), 1);
    assert_eq!(u8::from(&ParamsEncoding::Level2), 2);
    assert_eq!(u8::from(&ParamsEncoding::Level3), 3);
    assert_eq!(u8::from(&ParamsEncoding::Consensus), 4);
    assert_eq!(u8::from(&ParamsEncoding::Custom), 5);
    assert!(matches!(ParamsEncoding::from(2u8), ParamsEncoding::Level2));
    assert!(matches!(ParamsEncoding::from(9u8), ParamsEncoding::Custom));
}

#[test]
fn sign_at_the_size_bound() {
    let params = consensus_params(Hasher::Blake2b, Hasher::Sha3_256);
    let key = Key::new(params).unwrap();

    let msg = vec![97u8; 254];
    let signature = key.sign(&msg).unwrap();
    verify(&msg, &signature, &key.public_key).unwrap();

    let too_long = vec![97u8; 255];
    let res = key.sign(&too_long);
    assert!(matches!(res, Err(WotsError::InvalidMessageSize)));

    // the empty message is fine too
    let signature = key.sign(b"").unwrap();
    verify(b"", &signature, &key.public_key).unwrap();
}
