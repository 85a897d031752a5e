use wots::hasher::Hasher;
use wots::keys::Key;
use wots::params::{MAX_MSG_SIZE, SEED_SIZE};
use wots::security::{
    consensus_params, level_0_params, level_1_params, level_2_params, level_3_params, verify,
    verify_no_consensus,
};

#[test]
fn params_test() {
    let params = level_0_params(Hasher::Blake2b, Hasher::Sha3_224);
    assert_eq!(params.n, 20);
    assert_eq!(params.m, 24);

    let params = level_1_params(Hasher::Blake2b, Hasher::Sha3_224);
    assert_eq!(params.n, 24);
    assert_eq!(params.m, 24);

    let params = level_2_params(Hasher::Blake2b, Hasher::Sha3_224);
    assert_eq!(params.n, 28);
    assert_eq!(params.m, 24);

    let params = level_3_params(Hasher::Blake2b, Hasher::Sha3_224);
    assert_eq!(params.n, 32);
    assert_eq!(params.m, 24);

    let params = consensus_params(Hasher::Blake2b, Hasher::Sha3_256);
    assert_eq!(params.n, 32);
    assert_eq!(params.m, 32);
}

#[test]
fn verify_consensus_params_should_fail() {
    let params = consensus_params(Hasher::Blake2b, Hasher::Sha3_256);
    let sig_size = (params.n * params.total) + 1 + SEED_SIZE;
    let mut key = Key::new(params).unwrap();
    key.generate().unwrap();

    // should succeed with ok message
    let msg = vec![99u8; MAX_MSG_SIZE];
    let res = key.sign(&msg).unwrap();
    assert_eq!(res.len(), sig_size);

    // should fail to verify with consensus parameters
    let res = verify_no_consensus(&msg, &res, &key.public_key);
    assert!(res.is_err());
}

#[test]
fn verify_test_no_generate() {
    let params = level_3_params(Hasher::Blake2b, Hasher::Sha3_224);
    let sig_size = (params.n * params.total) + 1 + SEED_SIZE;
    let key = Key::new(params).unwrap();

    let msg = vec![99u8; MAX_MSG_SIZE];
    let res = key.sign(&msg).unwrap();
    assert_eq!(res.len(), sig_size);

    verify(&msg, &res, &key.public_key).unwrap();
}

#[test]
fn verify_test_generate() {
    let params = consensus_params(Hasher::Blake2b, Hasher::Sha3_256);
    let sig_size = (params.n * params.total) + 1 + SEED_SIZE;
    let mut key = Key::new(params).unwrap();
    key.generate().unwrap();

    let msg = vec![99u8; MAX_MSG_SIZE];
    let res = key.sign(&msg).unwrap();
    assert_eq!(res.len(), sig_size);
    verify(&msg, &res, &key.public_key).unwrap();
}
