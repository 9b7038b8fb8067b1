use erc1155_ledger::Error;
use erc1155_ledger::Event;
use erc1155_ledger::GenesisConfig;
use erc1155_ledger::Pallet;

fn fresh_ledger() -> Pallet {
    GenesisConfig { initial_token: 0 }.build()
}

#[test]
fn genesis_default_seeds_token_zero() {
    let cfg = GenesisConfig::default();
    assert_eq!(cfg.initial_token, 0);
    let p = cfg.build();
    assert_eq!(p.get_issuance(0), 0);
    assert_eq!(p.get_balance(1, 0), 0);
    assert_eq!(p.events().len(), 0);
}

#[test]
fn scenario_mint_transfer_burn() {
    let mut p = fresh_ledger();
    let a = 1u64;
    let b = 2u64;

    let surplus = p.mint(a, 0, 100).unwrap();
    assert_eq!(surplus.peek(), 100);
    assert_eq!(p.get_issuance(0), 0);
    surplus.reconcile(&mut p);
    assert_eq!(p.get_issuance(0), 100);
    assert_eq!(p.balance_of(a, 0), 100);

    assert!(p.safe_transfer_from(a, b, 0, 30).is_ok());
    assert_eq!(p.balance_of(a, 0), 70);
    assert_eq!(p.balance_of(b, 0), 30);
    assert_eq!(p.get_issuance(0), 100);

    let deficit = p.burn(a, 0, 70).unwrap();
    assert_eq!(deficit.peek(), 70);
    deficit.reconcile(&mut p);
    assert_eq!(p.balance_of(a, 0), 0);
    assert_eq!(p.get_issuance(0), 30);

    assert!(matches!(p.burn(a, 0, 1), Err(Error::OutOfFunds)));
}

#[test]
fn conservation_over_sequence() {
    let mut p = fresh_ledger();
    let accounts = [1u64, 2, 3, 4];
    let tokens = [0u64, 7];

    p.mint(1, 0, 500).unwrap().reconcile(&mut p);
    p.mint(2, 7, 40).unwrap().reconcile(&mut p);
    assert!(p.safe_transfer_from(1, 3, 0, 120).is_ok());
    assert!(p.safe_transfer_from(3, 4, 0, 20).is_ok());
    p.burn(1, 0, 80).unwrap().reconcile(&mut p);
    p.mint(4, 7, 5).unwrap().reconcile(&mut p);
    assert!(p.safe_transfer_from(2, 4, 7, 15).is_ok());
    p.burn(4, 7, 3).unwrap().reconcile(&mut p);

    for t in tokens {
        let mut sum = 0u128;
        for a in accounts {
            sum += p.balance_of(a, t);
        }
        assert_eq!(p.get_issuance(t), sum);
    }
    assert_eq!(p.get_issuance(0), 420);
    assert_eq!(p.get_issuance(7), 42);
}

#[test]
fn transfer_self_noop() {
    let mut p = fresh_ledger();
    p.mint(1, 0, 50).unwrap().reconcile(&mut p);
    let events_before = p.events().len();
    assert!(p.safe_transfer_from(1, 1, 0, 20).is_ok());
    assert_eq!(p.balance_of(1, 0), 50);
    assert_eq!(p.get_issuance(0), 50);
    assert_eq!(p.events().len(), events_before);
}

#[test]
fn transfer_zero_noop() {
    let mut p = fresh_ledger();
    p.mint(1, 0, 50).unwrap().reconcile(&mut p);
    let events_before = p.events().len();
    assert!(p.safe_transfer_from(1, 2, 0, 0).is_ok());
    assert_eq!(p.balance_of(1, 0), 50);
    assert_eq!(p.balance_of(2, 0), 0);
    assert_eq!(p.get_issuance(0), 50);
    assert_eq!(p.events().len(), events_before);
}

#[test]
fn transfer_insufficient_is_atomic() {
    let mut p = fresh_ledger();
    p.mint(1, 0, 10).unwrap().reconcile(&mut p);
    p.mint(2, 0, 7).unwrap().reconcile(&mut p);
    let events_before = p.events().len();
    assert!(matches!(p.safe_transfer_from(1, 2, 0, 11), Err(Error::OutOfFunds)));
    assert_eq!(p.balance_of(1, 0), 10);
    assert_eq!(p.balance_of(2, 0), 7);
    assert_eq!(p.events().len(), events_before);
}

#[test]
fn transfer_to_default_account_rejected() {
    let mut p = fresh_ledger();
    p.mint(1, 0, 10).unwrap().reconcile(&mut p);
    assert!(matches!(p.safe_transfer_from(1, 0, 0, 5), Err(Error::AccountNotFound)));
    assert_eq!(p.balance_of(1, 0), 10);
}

#[test]
fn transfer_emits_notification() {
    let mut p = fresh_ledger();
    p.mint(1, 0, 10).unwrap().reconcile(&mut p);
    assert!(p.safe_transfer_from(1, 2, 0, 4).is_ok());
    let events = p.events();
    assert_eq!(events.len(), 1);
    assert_eq!(events[0], Event::TransferSingle(Some(1), Some(2), 0, 4));
}

#[test]
fn mint_to_default_account_rejected() {
    let mut p = fresh_ledger();
    assert!(matches!(p.mint(0, 0, 10), Err(Error::AccountNotFound)));
    assert_eq!(p.balance_of(0, 0), 0);
}

#[test]
fn mint_zero_is_noop_sentinel() {
    let mut p = fresh_ledger();
    let surplus = p.mint(1, 0, 0).unwrap();
    assert_eq!(surplus.peek(), 0);
    assert!(surplus.drop_zero().is_ok());
    assert_eq!(p.balance_of(1, 0), 0);
    assert_eq!(p.get_issuance(0), 0);
}

#[test]
fn burn_without_funds_rejected() {
    let mut p = fresh_ledger();
    assert!(matches!(p.burn(1, 0, 1), Err(Error::OutOfFunds)));
    p.mint(1, 0, 5).unwrap().reconcile(&mut p);
    assert!(matches!(p.burn(1, 0, 6), Err(Error::OutOfFunds)));
    assert_eq!(p.balance_of(1, 0), 5);
}

#[test]
fn mint_burn_round_trip_restores_state() {
    let mut p = fresh_ledger();
    p.mint(1, 0, 13).unwrap().reconcile(&mut p);
    let balance_before = p.balance_of(1, 0);
    let issuance_before = p.get_issuance(0);
    p.mint(1, 0, 29).unwrap().reconcile(&mut p);
    p.burn(1, 0, 29).unwrap().reconcile(&mut p);
    assert_eq!(p.balance_of(1, 0), balance_before);
    assert_eq!(p.get_issuance(0), issuance_before);
}

#[test]
fn create_token_allocates_and_seeds() {
    let mut p = fresh_ledger();
    let t0 = p.create_token(5, 1000);
    assert_eq!(t0, 0);
    assert_eq!(p.balance_of(5, t0), 1000);
    assert_eq!(p.get_issuance(t0), 1000);
    let t1 = p.create_token(6, 1);
    assert_eq!(t1, 1);
    assert_eq!(p.balance_of(6, t1), 1);
    assert_eq!(p.get_issuance(t1), 1);
}

#[test]
fn approval_surface_signals_not_supported() {
    let p = fresh_ledger();
    assert!(matches!(p.set_approval_for_all(1, true), Err(Error::NotSupported)));
    assert!(matches!(p.is_approved_for_all(1, 2), Err(Error::NotSupported)));
}

#[test]
fn balance_of_batch_keeps_input_order() {
    let mut p = fresh_ledger();
    p.mint(1, 0, 10).unwrap().reconcile(&mut p);
    p.mint(2, 0, 20).unwrap().reconcile(&mut p);
    p.mint(1, 7, 30).unwrap().reconcile(&mut p);
    let pairs = vec![(2u64, 0u64), (1, 7), (1, 0), (9, 9)];
    let balances = p.balance_of_batch(&pairs);
    assert_eq!(balances, vec![20, 30, 10, 0]);
}

#[test]
fn transfer_batch_applies_prefix_then_stops() {
    let mut p = fresh_ledger();
    p.mint(1, 0, 100).unwrap().reconcile(&mut p);
    p.mint(1, 7, 1).unwrap().reconcile(&mut p);
    let pairs = vec![(0u64, 40u128), (7, 2), (0, 10)];
    assert!(matches!(p.safe_batch_transfer_from(1, 2, &pairs), Err(Error::OutOfFunds)));
    assert_eq!(p.balance_of(2, 0), 40);
    assert_eq!(p.balance_of(1, 0), 60);
    assert_eq!(p.balance_of(2, 7), 0);
    assert_eq!(p.balance_of(1, 7), 1);
}

#[test]
fn transfer_batch_all_succeed() {
    let mut p = fresh_ledger();
    p.mint(1, 0, 100).unwrap().reconcile(&mut p);
    let pairs = vec![(0u64, 40u128), (0, 10)];
    assert!(p.safe_batch_transfer_from(1, 2, &pairs).is_ok());
    assert_eq!(p.balance_of(2, 0), 50);
    assert_eq!(p.balance_of(1, 0), 50);
}

#[test]
fn mint_batch_reconciles_each_item() {
    let mut p = fresh_ledger();
    let pairs = vec![(0u64, 10u128), (7, 20)];
    assert!(p.mint_batch(1, &pairs).is_ok());
    assert_eq!(p.balance_of(1, 0), 10);
    assert_eq!(p.balance_of(1, 7), 20);
    assert_eq!(p.get_issuance(0), 10);
    assert_eq!(p.get_issuance(7), 20);
}

#[test]
fn mint_batch_to_default_account_applies_nothing() {
    let mut p = fresh_ledger();
    let pairs = vec![(0u64, 10u128), (7, 20)];
    assert!(matches!(p.mint_batch(0, &pairs), Err(Error::AccountNotFound)));
    assert_eq!(p.get_issuance(0), 0);
    assert_eq!(p.get_issuance(7), 0);
}

#[test]
fn burn_batch_applies_prefix_then_stops() {
    let mut p = fresh_ledger();
    p.mint(1, 0, 60).unwrap().reconcile(&mut p);
    let pairs = vec![(0u64, 50u128), (0, 100)];
    assert!(matches!(p.burn_batch(1, &pairs), Err(Error::OutOfFunds)));
    assert_eq!(p.balance_of(1, 0), 10);
    assert_eq!(p.get_issuance(0), 10);
}

#[test]
fn storage_reads_absent_as_zero() {
    let mut p = fresh_ledger();
    assert_eq!(p.get_balance(42, 42), 0);
    assert_eq!(p.get_issuance(42), 0);
    assert!(!p.has_balance_entry(42, 42));
    p.set_balance(42, 42, 0);
    assert!(p.has_balance_entry(42, 42));
    assert_eq!(p.get_balance(42, 42), 0);
    p.set_balance(42, 42, 9);
    assert_eq!(p.get_balance(42, 42), 9);
    p.set_issuance(42, 9);
    assert_eq!(p.get_issuance(42), 9);
}

#[test]
fn next_token_id_reads_then_increments() {
    let mut p = GenesisConfig { initial_token: 3 }.build();
    assert_eq!(p.next_token_id(), 3);
    assert_eq!(p.next_token_id(), 4);
    assert_eq!(p.next_token_id(), 5);
}
