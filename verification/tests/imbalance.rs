use erc1155_ledger::GenesisConfig;
use erc1155_ledger::imbalance::NegativeImbalance;
use erc1155_ledger::imbalance::PositiveImbalance;
use erc1155_ledger::imbalance::SameOrOther;

#[test]
fn peek_reads_without_consuming() {
    let p = PositiveImbalance::new(17, 3);
    assert_eq!(p.peek(), 17);
    assert_eq!(p.peek(), 17);
    let n = NegativeImbalance::new(4, 3);
    assert_eq!(n.peek(), 4);
    p.reconcile(&mut GenesisConfig::default().build());
    n.reconcile(&mut GenesisConfig::default().build());
}

#[test]
fn drop_zero_only_discharges_nothing() {
    assert!(PositiveImbalance::new(0, 1).drop_zero().is_ok());
    assert!(NegativeImbalance::new(0, 1).drop_zero().is_ok());
    let p = PositiveImbalance::new(2, 1).drop_zero().unwrap_err();
    assert_eq!(p.peek(), 2);
    let n = NegativeImbalance::new(2, 1).try_drop().unwrap_err();
    assert_eq!(n.peek(), 2);
    assert!(PositiveImbalance::new(0, 1).try_drop().is_ok());
    let mut scratch = GenesisConfig::default().build();
    p.reconcile(&mut scratch);
    n.reconcile(&mut scratch);
}

#[test]
fn split_partitions_and_merge_restores() {
    let whole = PositiveImbalance::new(100, 5);
    let (first, second) = whole.split(30);
    assert_eq!(first.peek(), 30);
    assert_eq!(second.peek(), 70);
    let merged = first.merge(second);
    assert_eq!(merged.peek(), 100);
    merged.reconcile(&mut GenesisConfig::default().build());
}

#[test]
fn split_clamps_at_the_total() {
    let whole = NegativeImbalance::new(10, 5);
    let (first, second) = whole.split(99);
    assert_eq!(first.peek(), 10);
    assert_eq!(second.peek(), 0);
    assert!(second.drop_zero().is_ok());
    first.reconcile(&mut GenesisConfig::default().build());
}

#[test]
fn merge_saturates_at_the_domain_bound() {
    let a = PositiveImbalance::new(u128::MAX - 1, 0);
    let b = PositiveImbalance::new(5, 0);
    let merged = a.merge(b);
    assert_eq!(merged.peek(), u128::MAX);
    merged.reconcile(&mut GenesisConfig::default().build());
}

#[test]
fn subsume_merges_in_place() {
    let mut a = NegativeImbalance::new(3, 0);
    a.subsume(NegativeImbalance::new(4, 0));
    assert_eq!(a.peek(), 7);
    a.reconcile(&mut GenesisConfig::default().build());
}

#[test]
fn offset_larger_surplus_leaves_surplus() {
    let r = PositiveImbalance::new(9, 2).offset(NegativeImbalance::new(4, 2));
    match r {
        SameOrOther::Same(p) => {
            assert_eq!(p.peek(), 5);
            p.reconcile(&mut GenesisConfig::default().build());
        },
        _ => panic!("expected a surplus remainder"),
    }
}

#[test]
fn offset_larger_deficit_leaves_deficit() {
    let r = PositiveImbalance::new(4, 2).offset(NegativeImbalance::new(9, 2));
    match r {
        SameOrOther::Other(n) => {
            assert_eq!(n.peek(), 5);
            n.reconcile(&mut GenesisConfig::default().build());
        },
        _ => panic!("expected a deficit remainder"),
    }
}

#[test]
fn offset_equal_amounts_cancel() {
    let r = PositiveImbalance::new(6, 2).offset(NegativeImbalance::new(6, 2));
    assert!(matches!(r, SameOrOther::Neither));
    let r2 = NegativeImbalance::new(6, 2).offset(PositiveImbalance::new(6, 2));
    assert!(matches!(r2, SameOrOther::Neither));
}

#[test]
fn offset_from_the_deficit_side() {
    let r = NegativeImbalance::new(9, 2).offset(PositiveImbalance::new(4, 2));
    match r {
        SameOrOther::Same(n) => {
            assert_eq!(n.peek(), 5);
            n.reconcile(&mut GenesisConfig::default().build());
        },
        _ => panic!("expected a deficit remainder"),
    }
    let r2 = NegativeImbalance::new(4, 2).offset(PositiveImbalance::new(9, 2));
    match r2 {
        SameOrOther::Other(p) => {
            assert_eq!(p.peek(), 5);
            p.reconcile(&mut GenesisConfig::default().build());
        },
        _ => panic!("expected a surplus remainder"),
    }
}

#[test]
fn reconcile_surplus_raises_issuance() {
    let mut p = GenesisConfig::default().build();
    PositiveImbalance::new(40, 0).reconcile(&mut p);
    assert_eq!(p.get_issuance(0), 40);
    PositiveImbalance::new(2, 0).reconcile(&mut p);
    assert_eq!(p.get_issuance(0), 42);
}

#[test]
fn reconcile_deficit_clamps_at_zero() {
    let mut p = GenesisConfig::default().build();
    PositiveImbalance::new(10, 0).reconcile(&mut p);
    NegativeImbalance::new(25, 0).reconcile(&mut p);
    assert_eq!(p.get_issuance(0), 0);
    PositiveImbalance::new(10, 0).reconcile(&mut p);
    NegativeImbalance::new(4, 0).reconcile(&mut p);
    assert_eq!(p.get_issuance(0), 6);
}

#[test]
fn reconcile_surplus_saturates_at_the_bound() {
    let mut p = GenesisConfig::default().build();
    PositiveImbalance::new(u128::MAX, 0).reconcile(&mut p);
    PositiveImbalance::new(7, 0).reconcile(&mut p);
    assert_eq!(p.get_issuance(0), u128::MAX);
}
