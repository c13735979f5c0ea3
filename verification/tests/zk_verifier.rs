use wallet_recovery::Address;
use wallet_recovery::Groth16Proof;
use wallet_recovery::ZkVerifier;

fn addr(tag: u8) -> Address {
    Address::new(vec![tag; 8])
}

fn standard_vk(gate: &mut ZkVerifier) {
    let vk_alpha = vec![1u8; 64];
    let vk_beta = vec![2u8; 128];
    let vk_gamma = vec![3u8; 128];
    let vk_delta = vec![4u8; 128];

    let ic0 = vec![5u8; 64];
    let ic1 = vec![6u8; 64];
    let vk_ic = vec![ic0, ic1];

    assert!(gate.set_verification_key(vk_alpha, vk_beta, vk_gamma, vk_delta, vk_ic).is_ok());
}

#[test]
fn test_test_initialize() {
    let mut gate = ZkVerifier::new();

    let admin = addr(1);

    assert!(gate.initialize(admin).is_ok());

    assert_eq!(gate.proof_count(), 0);
    assert!(!gate.is_initialized());
}

#[test]
fn test_set_verification_key() {
    let mut gate = ZkVerifier::new();

    let admin = addr(1);
    assert!(gate.initialize(admin).is_ok());

    standard_vk(&mut gate);

    assert!(gate.is_initialized());
}

#[test]
fn test_verify_and_store() {
    let mut gate = ZkVerifier::new();

    let admin = addr(1);
    let caller = addr(2);
    assert!(gate.initialize(admin).is_ok());

    standard_vk(&mut gate);

    let proof = Groth16Proof { a: vec![10u8; 64], b: vec![20u8; 128], c: vec![30u8; 64] };

    let nullifier = vec![42u8; 32];
    let public_inputs = vec![nullifier.clone()];

    let result = gate.verify_and_store(proof, public_inputs, &caller);
    assert!(result);

    assert!(gate.is_nullifier_verified(&nullifier));
    assert_eq!(gate.proof_count(), 1);
}

#[test]
fn test_replay_prevention() {
    let mut gate = ZkVerifier::new();

    let admin = addr(1);
    let caller = addr(2);
    assert!(gate.initialize(admin).is_ok());

    standard_vk(&mut gate);

    let nullifier = vec![99u8; 32];

    let first = Groth16Proof { a: vec![10u8; 64], b: vec![20u8; 128], c: vec![30u8; 64] };
    assert!(gate.verify_and_store(first, vec![nullifier.clone()], &caller));

    let second = Groth16Proof { a: vec![10u8; 64], b: vec![20u8; 128], c: vec![30u8; 64] };
    assert!(!gate.verify_and_store(second, vec![nullifier.clone()], &caller));

    assert_eq!(gate.proof_count(), 1);
}

#[test]
fn test_zero_proof_rejected() {
    let mut gate = ZkVerifier::new();

    let admin = addr(1);
    let caller = addr(2);
    assert!(gate.initialize(admin).is_ok());

    standard_vk(&mut gate);

    let proof = Groth16Proof { a: vec![0u8; 64], b: vec![0u8; 128], c: vec![0u8; 64] };

    let nullifier = vec![1u8; 32];
    let public_inputs = vec![nullifier];

    assert!(!gate.verify_and_store(proof, public_inputs, &caller));
}
