use erc1155_ledger::Error;
use erc1155_ledger::Event;
use erc1155_ledger::GenesisConfig;
use erc1155_ledger::Pallet;
use erc1155_ledger::imbalance::SignedImbalance;
use erc1155_ledger::token::Erc1155Token;
use erc1155_ledger::token::ExistenceRequirement;

fn funded_ledger() -> (Pallet, Erc1155Token) {
    let mut p = GenesisConfig { initial_token: 0 }.build();
    p.mint(1, 0, 100).unwrap().reconcile(&mut p);
    (p, Erc1155Token::new(0))
}

#[test]
fn bound_token_is_explicit() {
    let currency = Erc1155Token::new(9);
    assert_eq!(currency.get(), 9);
    assert_eq!(currency.minimum_balance(), 0);
}

#[test]
fn balances_and_issuance_read_through() {
    let (p, currency) = funded_ledger();
    assert_eq!(currency.total_balance(&p, 1), 100);
    assert_eq!(currency.free_balance(&p, 1), 100);
    assert_eq!(currency.total_balance(&p, 2), 0);
    assert_eq!(currency.total_issuance(&p), 100);
}

#[test]
fn can_slash_compares_in_the_specified_direction() {
    let (p, currency) = funded_ledger();
    assert!(currency.can_slash(&p, 1, 100));
    assert!(currency.can_slash(&p, 1, 150));
    assert!(!currency.can_slash(&p, 1, 99));
    assert!(currency.can_slash(&p, 2, 0));
}

#[test]
fn currency_burn_lowers_issuance_clamped() {
    let (mut p, currency) = funded_ledger();
    let surplus = currency.burn(&mut p, 30);
    assert_eq!(surplus.peek(), 30);
    assert_eq!(currency.total_issuance(&p), 70);
    assert_eq!(currency.total_balance(&p, 1), 100);
    surplus.drop_zero().unwrap_err().reconcile(&mut p);
    assert_eq!(currency.total_issuance(&p), 100);

    let big = currency.burn(&mut p, 500);
    assert_eq!(big.peek(), 500);
    assert_eq!(currency.total_issuance(&p), 0);
    let _ = big.try_drop().unwrap_err();
    let zero = currency.burn(&mut p, 0);
    assert!(zero.drop_zero().is_ok());
    assert_eq!(currency.total_issuance(&p), 0);
}

#[test]
fn currency_issue_raises_issuance_saturating() {
    let (mut p, currency) = funded_ledger();
    let deficit = currency.issue(&mut p, 20);
    assert_eq!(deficit.peek(), 20);
    assert_eq!(currency.total_issuance(&p), 120);
    deficit.reconcile(&mut p);
    assert_eq!(currency.total_issuance(&p), 100);

    let huge = currency.issue(&mut p, u128::MAX);
    assert_eq!(huge.peek(), u128::MAX);
    assert_eq!(currency.total_issuance(&p), u128::MAX);
    let _ = huge.try_drop().unwrap_err();
    let zero = currency.issue(&mut p, 0);
    assert!(zero.drop_zero().is_ok());
    assert_eq!(currency.total_issuance(&p), u128::MAX);
}

#[test]
fn ensure_can_withdraw_checks_new_balance() {
    let (p, currency) = funded_ledger();
    assert!(currency.ensure_can_withdraw(&p, 1, 5, 100).is_ok());
    assert!(currency.ensure_can_withdraw(&p, 1, 5, 40).is_ok());
    assert!(matches!(
        currency.ensure_can_withdraw(&p, 1, 5, 101),
        Err(Error::OutOfFunds)
    ));
}

#[test]
fn currency_transfer_moves_funds() {
    let (mut p, currency) = funded_ledger();
    assert!(currency.transfer(&mut p, 1, 2, 25, ExistenceRequirement::AllowDeath).is_ok());
    assert_eq!(currency.total_balance(&p, 1), 75);
    assert_eq!(currency.total_balance(&p, 2), 25);
    assert_eq!(currency.total_issuance(&p), 100);
    assert_eq!(
        *p.events().last().unwrap(),
        Event::TransferSingle(Some(1), Some(2), 0, 25)
    );
}

#[test]
fn currency_transfer_failure_changes_nothing() {
    let (mut p, currency) = funded_ledger();
    let events_before = p.events().len();
    assert!(matches!(
        currency.transfer(&mut p, 1, 2, 101, ExistenceRequirement::KeepAlive),
        Err(Error::OutOfFunds)
    ));
    assert_eq!(currency.total_balance(&p, 1), 100);
    assert_eq!(currency.total_balance(&p, 2), 0);
    assert_eq!(p.events().len(), events_before);
}

#[test]
fn currency_transfer_noops() {
    let (mut p, currency) = funded_ledger();
    let events_before = p.events().len();
    assert!(currency.transfer(&mut p, 1, 1, 10, ExistenceRequirement::AllowDeath).is_ok());
    assert!(currency.transfer(&mut p, 1, 2, 0, ExistenceRequirement::AllowDeath).is_ok());
    assert_eq!(currency.total_balance(&p, 1), 100);
    assert_eq!(p.events().len(), events_before);
}

#[test]
fn slash_takes_up_to_the_balance() {
    let (mut p, currency) = funded_ledger();
    let (slashed, remaining) = currency.slash(&mut p, 1, 40);
    assert_eq!(slashed.peek(), 40);
    assert_eq!(remaining, 0);
    assert_eq!(currency.total_balance(&p, 1), 60);
    assert_eq!(
        *p.events().last().unwrap(),
        Event::TransferSingle(Some(1), None, 0, 40)
    );
    slashed.reconcile(&mut p);
    assert_eq!(currency.total_issuance(&p), 60);
}

#[test]
fn slash_shortfall_reports_the_full_value() {
    let (mut p, currency) = funded_ledger();
    let (slashed, remaining) = currency.slash(&mut p, 1, 130);
    assert_eq!(slashed.peek(), 100);
    // The shortfall is computed from the balance after it was zeroed, so the
    // reported remainder is the whole requested value, not value - balance.
    assert_eq!(remaining, 130);
    assert_eq!(currency.total_balance(&p, 1), 0);
    assert_eq!(
        *p.events().last().unwrap(),
        Event::TransferSingle(Some(1), None, 0, 100)
    );
    slashed.reconcile(&mut p);
}

#[test]
fn slash_of_empty_account_takes_nothing() {
    let (mut p, currency) = funded_ledger();
    let (slashed, remaining) = currency.slash(&mut p, 2, 9);
    assert_eq!(slashed.peek(), 0);
    assert_eq!(remaining, 9);
    assert_eq!(
        *p.events().last().unwrap(),
        Event::TransferSingle(Some(2), None, 0, 0)
    );
    assert!(slashed.drop_zero().is_ok());
}

#[test]
fn slash_of_zero_value_still_notifies() {
    let (mut p, currency) = funded_ledger();
    let events_before = p.events().len();
    let (slashed, remaining) = currency.slash(&mut p, 1, 0);
    assert_eq!(slashed.peek(), 0);
    assert_eq!(remaining, 0);
    assert_eq!(currency.total_balance(&p, 1), 100);
    assert_eq!(p.events().len(), events_before + 1);
    assert!(slashed.drop_zero().is_ok());
}

#[test]
fn deposit_into_existing_needs_an_entry() {
    let (mut p, currency) = funded_ledger();
    assert!(matches!(
        currency.deposit_into_existing(&mut p, 2, 5),
        Err(Error::AccountNotFound)
    ));
    let zero = currency.deposit_into_existing(&mut p, 2, 0).unwrap();
    assert!(zero.drop_zero().is_ok());
    let surplus = currency.deposit_into_existing(&mut p, 1, 5).unwrap();
    assert_eq!(surplus.peek(), 5);
    assert_eq!(currency.total_balance(&p, 1), 105);
    surplus.reconcile(&mut p);
    assert_eq!(currency.total_issuance(&p), 105);
}

#[test]
fn deposit_creating_makes_the_entry() {
    let (mut p, currency) = funded_ledger();
    let surplus = currency.deposit_creating(&mut p, 2, 5);
    assert_eq!(surplus.peek(), 5);
    assert_eq!(currency.total_balance(&p, 2), 5);
    surplus.reconcile(&mut p);
    assert_eq!(currency.total_issuance(&p), 105);
    let zero = currency.deposit_creating(&mut p, 3, 0);
    assert!(zero.drop_zero().is_ok());
    assert_eq!(currency.total_balance(&p, 3), 0);
}

#[test]
fn withdraw_is_a_checked_subtraction() {
    let (mut p, currency) = funded_ledger();
    assert!(matches!(currency.withdraw(&mut p, 1, 101), Err(Error::OutOfFunds)));
    assert_eq!(currency.total_balance(&p, 1), 100);
    let deficit = currency.withdraw(&mut p, 1, 60).unwrap();
    assert_eq!(deficit.peek(), 60);
    assert_eq!(currency.total_balance(&p, 1), 40);
    deficit.reconcile(&mut p);
    assert_eq!(currency.total_issuance(&p), 40);
    let zero = currency.withdraw(&mut p, 1, 0).unwrap();
    assert!(zero.drop_zero().is_ok());
}

#[test]
fn make_free_balance_be_returns_the_signed_delta() {
    let (mut p, currency) = funded_ledger();
    match currency.make_free_balance_be(&mut p, 1, 130) {
        SignedImbalance::Positive(s) => {
            assert_eq!(s.peek(), 30);
            s.reconcile(&mut p);
        },
        SignedImbalance::Negative(_) => panic!("a raised balance reports a surplus"),
    }
    assert_eq!(currency.total_balance(&p, 1), 130);
    assert_eq!(currency.total_issuance(&p), 130);
    match currency.make_free_balance_be(&mut p, 1, 40) {
        SignedImbalance::Negative(n) => {
            assert_eq!(n.peek(), 90);
            n.reconcile(&mut p);
        },
        SignedImbalance::Positive(_) => panic!("a lowered balance reports a deficit"),
    }
    assert_eq!(currency.total_balance(&p, 1), 40);
    assert_eq!(currency.total_issuance(&p), 40);
    match currency.make_free_balance_be(&mut p, 1, 40) {
        SignedImbalance::Positive(s) => assert!(s.drop_zero().is_ok()),
        SignedImbalance::Negative(_) => panic!("an unchanged balance reports a zero surplus"),
    }
}
