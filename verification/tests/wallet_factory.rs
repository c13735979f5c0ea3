use wallet_recovery::Address;
use wallet_recovery::WalletFactory;

fn addr(tag: u8) -> Address {
    Address::new(vec![tag; 8])
}

#[test]
fn test_initialize() {
    let mut factory = WalletFactory::new();

    let admin = addr(1);
    let verifier = addr(2);

    assert!(factory.initialize(admin, verifier).is_ok());

    assert_eq!(factory.wallet_count(), 0);
}

#[test]
fn test_register_wallet() {
    let mut factory = WalletFactory::new();

    let admin = addr(1);
    let verifier = addr(2);
    let wallet = addr(3);

    let nullifier = vec![1u8; 32];

    assert!(factory.initialize(admin, verifier).is_ok());

    let result = factory.register_wallet(nullifier.clone(), wallet.clone());
    assert!(result);

    assert_eq!(factory.wallet_count(), 1);

    let stored = factory.get_wallet(&nullifier);
    assert_eq!(stored, Some(wallet));

    assert!(factory.is_registered(&nullifier));
}

#[test]
fn test_duplicate_nullifier_rejected() {
    let mut factory = WalletFactory::new();

    let admin = addr(1);
    let verifier = addr(2);
    let wallet1 = addr(3);
    let wallet2 = addr(4);

    let nullifier = vec![2u8; 32];

    assert!(factory.initialize(admin, verifier).is_ok());

    assert!(factory.register_wallet(nullifier.clone(), wallet1.clone()));

    assert!(!factory.register_wallet(nullifier.clone(), wallet2));

    assert_eq!(factory.get_wallet(&nullifier), Some(wallet1));
}

#[test]
fn test_update_wallet() {
    let mut factory = WalletFactory::new();

    let admin = addr(1);
    let verifier = addr(2);
    let old_wallet = addr(3);
    let new_wallet = addr(4);

    let nullifier = vec![3u8; 32];

    assert!(factory.initialize(admin, verifier).is_ok());
    assert!(factory.register_wallet(nullifier.clone(), old_wallet.clone()));

    let result = factory.update_wallet(nullifier.clone(), old_wallet, new_wallet.clone());
    assert!(result);

    assert_eq!(factory.get_wallet(&nullifier), Some(new_wallet));
}

#[test]
fn test_nonexistent_nullifier() {
    let mut factory = WalletFactory::new();

    let admin = addr(1);
    let verifier = addr(2);

    let nullifier = vec![99u8; 32];

    assert!(factory.initialize(admin, verifier).is_ok());

    assert_eq!(factory.get_wallet(&nullifier), None);
    assert!(!factory.is_registered(&nullifier));
}
