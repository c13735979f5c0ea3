use sha2::Digest;
use wallet_recovery::Address;
use wallet_recovery::Error;
use wallet_recovery::Groth16Proof;
use wallet_recovery::WalletFactory;
use wallet_recovery::ZkVerifier;

fn addr(tag: u8) -> Address {
    Address::new(vec![tag; 8])
}

fn standard_vk(gate: &mut ZkVerifier) {
    assert!(gate
        .set_verification_key(
            vec![1u8; 64],
            vec![2u8; 128],
            vec![3u8; 128],
            vec![4u8; 128],
            vec![vec![5u8; 64], vec![6u8; 64]],
        )
        .is_ok());
}

fn standard_proof() -> Groth16Proof {
    Groth16Proof { a: vec![10u8; 64], b: vec![20u8; 128], c: vec![30u8; 64] }
}

#[test]
fn repeat_submission_with_same_nullifier() {
    let mut gate = ZkVerifier::new();
    let caller = addr(2);
    assert!(gate.initialize(addr(1)).is_ok());
    standard_vk(&mut gate);

    let nullifier = vec![42u8; 32];

    assert!(gate.verify_and_store(standard_proof(), vec![nullifier.clone()], &caller));
    assert_eq!(gate.proof_count(), 1);
    assert!(gate.is_nullifier_verified(&nullifier));

    assert!(!gate.verify_and_store(standard_proof(), vec![nullifier.clone()], &caller));
    assert_eq!(gate.proof_count(), 1);
}

#[test]
fn second_registration_rejected_first_kept() {
    let mut factory = WalletFactory::new();
    assert!(factory.initialize(addr(1), addr(2)).is_ok());

    let nullifier = vec![1u8; 32];
    let w1 = addr(3);
    let w2 = addr(4);

    assert!(factory.register_wallet(nullifier.clone(), w1.clone()));
    assert!(!factory.register_wallet(nullifier.clone(), w2));
    assert_eq!(factory.get_wallet(&nullifier), Some(w1));
}

#[test]
fn zero_proof_leaves_no_record() {
    let mut gate = ZkVerifier::new();
    let caller = addr(2);
    assert!(gate.initialize(addr(1)).is_ok());
    standard_vk(&mut gate);

    let nullifier = vec![1u8; 32];
    let proof = Groth16Proof { a: vec![0u8; 64], b: vec![0u8; 128], c: vec![0u8; 64] };

    assert!(!gate.verify_and_store(proof, vec![nullifier.clone()], &caller));
    assert!(!gate.is_nullifier_verified(&nullifier));
    assert_eq!(gate.verified_proof_digest(&nullifier), None);
    assert_eq!(gate.proof_count(), 0);
}

#[test]
fn zero_c_point_rejected() {
    let mut gate = ZkVerifier::new();
    let caller = addr(2);
    assert!(gate.initialize(addr(1)).is_ok());
    standard_vk(&mut gate);

    let proof = Groth16Proof { a: vec![10u8; 64], b: vec![20u8; 128], c: vec![0u8; 64] };
    assert!(!gate.verify_and_store(proof, vec![vec![7u8; 32]], &caller));
    assert_eq!(gate.proof_count(), 0);
}

#[test]
fn factory_initialize_twice_fails() {
    let mut factory = WalletFactory::new();
    assert!(factory.initialize(addr(1), addr(2)).is_ok());
    assert_eq!(factory.initialize(addr(3), addr(4)), Err(Error::AlreadyInitialized));
    assert_eq!(factory.wallet_count(), 0);
}

#[test]
fn gate_initialize_twice_fails() {
    let mut gate = ZkVerifier::new();
    assert!(gate.initialize(addr(1)).is_ok());
    assert_eq!(gate.initialize(addr(3)), Err(Error::AlreadyInitialized));
}

#[test]
fn verification_key_needs_admin() {
    let mut gate = ZkVerifier::new();
    let r = gate.set_verification_key(
        vec![1u8; 64],
        vec![2u8; 128],
        vec![3u8; 128],
        vec![4u8; 128],
        vec![vec![5u8; 64]],
    );
    assert_eq!(r, Err(Error::NotInitialized));
    assert!(!gate.is_initialized());
}

#[test]
fn submission_without_key_rejected() {
    let mut gate = ZkVerifier::new();
    let caller = addr(2);
    assert!(gate.initialize(addr(1)).is_ok());

    assert!(!gate.verify_and_store(standard_proof(), vec![vec![42u8; 32]], &caller));
    assert_eq!(gate.proof_count(), 0);
}

#[test]
fn input_arity_must_match_key() {
    let mut gate = ZkVerifier::new();
    let caller = addr(2);
    assert!(gate.initialize(addr(1)).is_ok());
    standard_vk(&mut gate);

    // The key expects exactly one public input.
    let two_inputs = vec![vec![42u8; 32], vec![43u8; 32]];
    assert!(!gate.verify_and_store(standard_proof(), two_inputs, &caller));

    let no_inputs: Vec<Vec<u8>> = Vec::new();
    assert!(!gate.verify_and_store(standard_proof(), no_inputs, &caller));

    assert_eq!(gate.proof_count(), 0);
}

#[test]
fn missing_nullifier_rejected() {
    let mut gate = ZkVerifier::new();
    let caller = addr(2);
    assert!(gate.initialize(addr(1)).is_ok());
    // A key with a single commitment point declares zero public inputs, so
    // no submission can name a nullifier under it.
    assert!(gate
        .set_verification_key(
            vec![1u8; 64],
            vec![2u8; 128],
            vec![3u8; 128],
            vec![4u8; 128],
            vec![vec![5u8; 64]],
        )
        .is_ok());

    let no_inputs: Vec<Vec<u8>> = Vec::new();
    assert!(!gate.verify_and_store(standard_proof(), no_inputs, &caller));
    assert_eq!(gate.proof_count(), 0);
}

#[test]
fn stored_digest_is_sha256_of_proof_points() {
    let mut gate = ZkVerifier::new();
    let caller = addr(2);
    assert!(gate.initialize(addr(1)).is_ok());
    standard_vk(&mut gate);

    let nullifier = vec![42u8; 32];
    assert!(gate.verify_and_store(standard_proof(), vec![nullifier.clone()], &caller));

    let mut concatenated: Vec<u8> = Vec::new();
    concatenated.extend_from_slice(&[10u8; 64]);
    concatenated.extend_from_slice(&[20u8; 128]);
    concatenated.extend_from_slice(&[30u8; 64]);
    let expected = sha2::Sha256::digest(&concatenated).to_vec();

    let stored = gate.verified_proof_digest(&nullifier).unwrap();
    assert_eq!(stored.len(), 32);
    assert_ne!(stored, concatenated);
    assert_eq!(stored, expected);
}

#[test]
fn update_by_non_owner_rejected() {
    let mut factory = WalletFactory::new();
    assert!(factory.initialize(addr(1), addr(2)).is_ok());

    let nullifier = vec![5u8; 32];
    let owner = addr(3);
    let intruder = addr(4);
    let target = addr(5);

    assert!(factory.register_wallet(nullifier.clone(), owner.clone()));
    assert!(!factory.update_wallet(nullifier.clone(), intruder, target));
    assert_eq!(factory.get_wallet(&nullifier), Some(owner));
    assert_eq!(factory.wallet_count(), 1);
}

#[test]
fn update_of_unbound_nullifier_rejected() {
    let mut factory = WalletFactory::new();
    assert!(factory.initialize(addr(1), addr(2)).is_ok());

    assert!(!factory.update_wallet(vec![6u8; 32], addr(3), addr(4)));
    assert_eq!(factory.wallet_count(), 0);
}

#[test]
fn wallet_count_follows_successful_registrations() {
    let mut factory = WalletFactory::new();
    assert!(factory.initialize(addr(1), addr(2)).is_ok());

    let n1 = vec![1u8; 32];
    let n2 = vec![2u8; 32];

    assert!(factory.register_wallet(n1.clone(), addr(3)));
    assert_eq!(factory.wallet_count(), 1);

    assert!(!factory.register_wallet(n1.clone(), addr(4)));
    assert_eq!(factory.wallet_count(), 1);

    assert!(factory.register_wallet(n2.clone(), addr(5)));
    assert_eq!(factory.wallet_count(), 2);

    assert!(factory.update_wallet(n1.clone(), addr(3), addr(6)));
    assert_eq!(factory.wallet_count(), 2);
}

#[test]
fn negative_reads_are_repeatable() {
    let mut factory = WalletFactory::new();
    assert!(factory.initialize(addr(1), addr(2)).is_ok());
    let mut gate = ZkVerifier::new();
    assert!(gate.initialize(addr(1)).is_ok());

    let unknown = vec![77u8; 32];
    for _ in 0..3 {
        assert_eq!(factory.get_wallet(&unknown), None);
        assert!(!factory.is_registered(&unknown));
        assert!(!gate.is_nullifier_verified(&unknown));
        assert_eq!(gate.verified_proof_digest(&unknown), None);
    }
    assert_eq!(factory.wallet_count(), 0);
    assert_eq!(gate.proof_count(), 0);
}
