use wots::hasher::Hasher;
use wots::keys::{Key, PK_SIZE};
use wots::params::{MAX_MSG_SIZE, SEED_SIZE};
use wots::security::consensus_params;

#[test]
fn key_generate() {
    let params = consensus_params(Hasher::Blake2b, Hasher::Sha3_256);
    let mut key = Key::new(params).unwrap();
    key.generate().unwrap();
}

#[test]
fn key_public_key() {
    let params = consensus_params(Hasher::Blake2b, Hasher::Sha3_256);
    let key = Key::new(params).unwrap();
    assert_eq!(key.public_key.len(), PK_SIZE);
}

#[test]
fn key_public_key_generate() {
    let params = consensus_params(Hasher::Blake2b, Hasher::Sha3_256);
    let mut key = Key::new(params).unwrap();
    key.generate().unwrap();
    let pk = key.public_key;
    assert_eq!(pk.len(), PK_SIZE);
}

#[test]
fn key_sign() {
    let params = consensus_params(Hasher::Blake2b, Hasher::Sha3_256);
    let sig_size = (params.n * params.total) + 1 + SEED_SIZE;
    let key = Key::new(params).unwrap();

    // should fail to message too large
    let msg = vec![99u8; MAX_MSG_SIZE + 1];
    let res = key.sign(&msg);
    assert!(res.is_err());

    // should succeed with ok message
    let msg = vec![99u8; MAX_MSG_SIZE];
    let res = key.sign(&msg).unwrap();
    assert_eq!(res.len(), sig_size);
}

#[test]
fn key_sign_generate() {
    let params = consensus_params(Hasher::Blake2b, Hasher::Sha3_256);
    let sig_size = (params.n * params.total) + 1 + SEED_SIZE;
    let mut key = Key::new(params).unwrap();
    key.generate().unwrap();

    // should fail to message too large
    let msg = vec![99u8; MAX_MSG_SIZE + 1];
    let res = key.sign(&msg);
    assert!(res.is_err());

    // should succeed with ok message
    let msg = vec![99u8; MAX_MSG_SIZE];
    let res = key.sign(&msg).unwrap();
    assert_eq!(res.len(), sig_size);
}
