use rand::RngCore;

use wots::hasher::{hash_size, Hasher};
use wots::params::{ComputeLaddersMode, Params, MAX_MSG_SIZE, SEED_SIZE, W};
use wots::security::{consensus_params, ParamsEncoding};

#[test]
fn new_params() {
    let res = Params::new(Hasher::Blake2b, Hasher::Blake2b, ParamsEncoding::Custom);
    assert!(res.is_err());

    let res = Params::new_from_values(Hasher::Blake2b, Hasher::Blake2b, 32, MAX_MSG_SIZE + 1);
    assert!(res.is_err());

    // test PRF hash size too small
    let res = Params::new_from_values(Hasher::Blake2b, Hasher::Blake2b, 64, 32);
    assert!(res.is_err());

    // test msg hash size too small
    let res = Params::new_from_values(Hasher::Blake2b, Hasher::Blake2b, 32, 64);
    assert!(res.is_err());

    // test one checksum ladder
    let params = Params::new_from_values(Hasher::Blake2b, Hasher::Blake2b, 32, 1).unwrap();
    assert_eq!(params.total, 2);

    // test two checksum ladders
    let params = Params::new_from_values(Hasher::Blake2b, Hasher::Blake2b, 32, 2).unwrap();
    assert_eq!(params.total, 4);
}

#[test]
fn compute_chain() {
    let params = consensus_params(Hasher::Blake2b, Hasher::Sha3_256);
    let total = 16; //arbitrary
    let input = vec![99u8; 32];
    let p_seed = vec![88u8; SEED_SIZE];

    let mut random_elements = vec![vec![0u8; 32]; total];
    for i in 0..total {
        let mut x = vec![0u8; 32];
        rand::rngs::OsRng.fill_bytes(&mut x);
        random_elements[i] = x;
    }

    let res = params.compute_chain(&p_seed, &input, &random_elements, (0, total as u8));
    assert_eq!(res.len(), input.len());
}

#[test]
fn compute_ladders_generate() {
    let params = Params::new(Hasher::Blake2b, Hasher::Blake2b, ParamsEncoding::Consensus).unwrap();
    let p_seed = vec![88u8; SEED_SIZE];
    let points = vec![99u8; params.n * params.total];

    let res = params
        .compute_ladders(&p_seed, None, &points, ComputeLaddersMode::Generate)
        .unwrap();
    assert_eq!(res.0.len(), hash_size(Hasher::Blake2b));
    assert_eq!(res.1.len(), W);
}

#[test]
fn compute_ladders_compute_pubkey() {
    let params = Params::new(Hasher::Blake2b, Hasher::Blake2b, ParamsEncoding::Consensus).unwrap();
    let p_seed = vec![88u8; SEED_SIZE];
    let points = vec![99u8; params.n * params.total];

    let res = params
        .compute_ladders(&p_seed, None, &points, ComputeLaddersMode::ComputePublicKey)
        .unwrap();
    assert_eq!(res.0.len(), hash_size(Hasher::Blake2b));
}

#[test]
fn compute_ladders_decode() {
    let params = Params::new(Hasher::Blake2b, Hasher::Blake2b, ParamsEncoding::Consensus).unwrap();
    let p_seed = vec![88u8; SEED_SIZE];
    let points = vec![99u8; params.n * params.total];
    let msg = vec![77u8; MAX_MSG_SIZE];

    let res = params
        .compute_ladders(&p_seed, Some(msg), &points, ComputeLaddersMode::Verify)
        .unwrap();
    assert_eq!(res.0.len(), hash_size(Hasher::Blake2b));
}

#[test]
fn compute_ladders_sign() {
    let params = Params::new(Hasher::Blake2b, Hasher::Blake2b, ParamsEncoding::Consensus).unwrap();
    let p_seed = vec![88u8; SEED_SIZE];
    let points = vec![99u8; params.n * params.total];
    let msg = vec![77u8; MAX_MSG_SIZE];

    let res = params
        .compute_ladders(&p_seed, Some(msg), &points, ComputeLaddersMode::Sign)
        .unwrap();
    assert_eq!(res.0.len(), params.n * params.total);
}
