use anchornet::{Address, AddressKind, AnchornetContract, Env, Error, SettlementStatus, Symbol};

/// Hands out distinct account addresses, one per call.
struct Addresses {
    next: u128,
}

impl Addresses {
    fn new() -> Addresses {
        Addresses { next: 1 }
    }

    fn generate(&mut self) -> Address {
        let key = self.next;
        self.next += 1;
        Address { kind: AddressKind::Account, key_hi: 0, key_lo: key }
    }
}

/// A fresh environment, an address generator and the admin-to-be.
fn setup() -> (Env, Addresses, Address) {
    let env = Env::new();
    let mut ids = Addresses::new();
    let admin = ids.generate();
    (env, ids, admin)
}

/// Initializes the contract, registers one anchor, and funds a pool.
/// Returns the environment, the address generator, admin, anchor and the
/// funded asset.
fn funded(liquidity: i128) -> (Env, Addresses, Address, Address, Symbol) {
    let (mut env, mut ids, admin) = setup();
    let anchor = ids.generate();
    let asset = Symbol::new("USDC");
    AnchornetContract::initialize(&mut env, admin).unwrap();
    AnchornetContract::register_anchor(&mut env, anchor).unwrap();
    AnchornetContract::provide_liquidity(&mut env, anchor, asset, liquidity).unwrap();
    (env, ids, admin, anchor, asset)
}

#[test]
fn test_open_settlement_reserves_liquidity() {
    let (mut env, _ids, _admin, anchor, asset) = funded(1_000);
    AnchornetContract::set_fee(&mut env, 100).unwrap(); // 1%

    let id = AnchornetContract::open_settlement(&mut env, anchor, asset, 400).unwrap();
    assert_eq!(id, 1);
    assert_eq!(AnchornetContract::settlement_count(&env), 1);

    // Reserved liquidity leaves the available pool.
    assert_eq!(AnchornetContract::total_liquidity(&env, asset), 600);

    let settlement = AnchornetContract::settlement(&env, id).unwrap();
    assert_eq!(settlement.amount, 400);
    assert_eq!(settlement.fee, 4); // 1% of 400
    assert_eq!(settlement.status, SettlementStatus::Pending);
}

#[test]
fn test_open_settlement_rejects_insufficient_liquidity() {
    let (mut env, _ids, _admin, anchor, asset) = funded(100);

    let err = AnchornetContract::open_settlement(&mut env, anchor, asset, 500).unwrap_err();

    assert_eq!(err, Error::InsufficientLiquidity);
}

#[test]
fn test_open_settlement_rejects_unregistered() {
    let (mut env, mut ids, _admin, _anchor, asset) = funded(1_000);
    let stranger = ids.generate();

    let err = AnchornetContract::open_settlement(&mut env, stranger, asset, 100).unwrap_err();

    assert_eq!(err, Error::AnchorNotRegistered);
}

#[test]
fn test_execute_settlement_accrues_fee() {
    let (mut env, _ids, _admin, anchor, asset) = funded(1_000);
    AnchornetContract::set_fee(&mut env, 100).unwrap();
    let id = AnchornetContract::open_settlement(&mut env, anchor, asset, 400).unwrap();

    AnchornetContract::execute_settlement(&mut env, id).unwrap();

    assert_eq!(AnchornetContract::settlement(&env, id).unwrap().status, SettlementStatus::Executed);
    assert_eq!(AnchornetContract::fees_accrued(&env, asset), 4);
    // Reserved liquidity stays out of the pool after execution.
    assert_eq!(AnchornetContract::total_liquidity(&env, asset), 600);
}

#[test]
fn test_cancel_settlement_returns_liquidity() {
    let (mut env, _ids, _admin, anchor, asset) = funded(1_000);
    let id = AnchornetContract::open_settlement(&mut env, anchor, asset, 400).unwrap();
    assert_eq!(AnchornetContract::total_liquidity(&env, asset), 600);

    AnchornetContract::cancel_settlement(&mut env, id).unwrap();

    assert_eq!(AnchornetContract::settlement(&env, id).unwrap().status, SettlementStatus::Cancelled);
    // Reserved liquidity is returned to the pool.
    assert_eq!(AnchornetContract::total_liquidity(&env, asset), 1_000);
    assert_eq!(AnchornetContract::fees_accrued(&env, asset), 0);
}

#[test]
fn test_settlement_not_found() {
    let (env, _ids, _admin, _anchor, _asset) = funded(1_000);

    let err = AnchornetContract::settlement(&env, 99).unwrap_err();
    assert_eq!(err, Error::SettlementNotFound);
}

#[test]
fn test_execute_twice_fails() {
    let (mut env, _ids, _admin, anchor, asset) = funded(1_000);
    let id = AnchornetContract::open_settlement(&mut env, anchor, asset, 200).unwrap();
    AnchornetContract::execute_settlement(&mut env, id).unwrap();

    let err = AnchornetContract::execute_settlement(&mut env, id).unwrap_err();
    assert_eq!(err, Error::InvalidSettlementState);
}

#[test]
fn test_cancel_executed_fails() {
    let (mut env, _ids, _admin, anchor, asset) = funded(1_000);
    let id = AnchornetContract::open_settlement(&mut env, anchor, asset, 200).unwrap();
    AnchornetContract::execute_settlement(&mut env, id).unwrap();

    let err = AnchornetContract::cancel_settlement(&mut env, id).unwrap_err();
    assert_eq!(err, Error::InvalidSettlementState);
}

#[test]
fn test_collect_fees_resets_balance() {
    let (mut env, _ids, _admin, anchor, asset) = funded(1_000);
    AnchornetContract::set_fee(&mut env, 100).unwrap();
    let id = AnchornetContract::open_settlement(&mut env, anchor, asset, 500).unwrap();
    AnchornetContract::execute_settlement(&mut env, id).unwrap();
    assert_eq!(AnchornetContract::fees_accrued(&env, asset), 5);

    let collected = AnchornetContract::collect_fees(&mut env, asset).unwrap();
    assert_eq!(collected, 5);
    assert_eq!(AnchornetContract::fees_accrued(&env, asset), 0);
}

#[test]
fn test_collect_fees_without_accrual_fails() {
    let (mut env, _ids, _admin, _anchor, asset) = funded(1_000);

    let err = AnchornetContract::collect_fees(&mut env, asset).unwrap_err();
    assert_eq!(err, Error::NoFeesToCollect);
}

#[test]
fn test_zero_fee_when_unset() {
    let (mut env, _ids, _admin, anchor, asset) = funded(1_000);

    let id = AnchornetContract::open_settlement(&mut env, anchor, asset, 400).unwrap();
    assert_eq!(AnchornetContract::settlement(&env, id).unwrap().fee, 0);
}

#[test]
fn test_settlement_ids_increment() {
    let (mut env, _ids, _admin, anchor, asset) = funded(1_000);

    let first = AnchornetContract::open_settlement(&mut env, anchor, asset, 100).unwrap();
    let second = AnchornetContract::open_settlement(&mut env, anchor, asset, 100).unwrap();

    assert_eq!(first, 1);
    assert_eq!(second, 2);
    assert_eq!(AnchornetContract::settlement_count(&env), 2);
}

#[test]
fn test_paused_blocks_open_settlement() {
    let (mut env, _ids, admin, anchor, asset) = funded(1_000);

    AnchornetContract::pause(&mut env, admin).unwrap();
    let err = AnchornetContract::open_settlement(&mut env, anchor, asset, 100).unwrap_err();
    assert_eq!(err, Error::Paused);
}

#[test]
fn test_list_settlements_pagination() {
    let (mut env, _ids, _admin, anchor, asset) = funded(1_000);
    for _ in 0..3 {
        AnchornetContract::open_settlement(&mut env, anchor, asset, 100).unwrap();
    }

    let all = AnchornetContract::list_settlements(&env, 1, 10);
    assert_eq!(all.len(), 3);

    let page = AnchornetContract::list_settlements(&env, 2, 10);
    assert_eq!(page.len(), 2);
    assert_eq!(page[0].id, 2);

    let limited = AnchornetContract::list_settlements(&env, 1, 1);
    assert_eq!(limited.len(), 1);
}

#[test]
fn test_list_settlements_by_anchor_filters_other_anchors() {
    let (mut env, mut ids, admin) = setup();
    let a1 = ids.generate();
    let a2 = ids.generate();
    let usdc = Symbol::new("USDC");

    AnchornetContract::initialize(&mut env, admin).unwrap();
    AnchornetContract::register_anchor(&mut env, a1).unwrap();
    AnchornetContract::register_anchor(&mut env, a2).unwrap();
    AnchornetContract::provide_liquidity(&mut env, a1, usdc, 1_000).unwrap();
    AnchornetContract::provide_liquidity(&mut env, a2, usdc, 1_000).unwrap();

    let s1 = AnchornetContract::open_settlement(&mut env, a1, usdc, 100).unwrap();
    let s2 = AnchornetContract::open_settlement(&mut env, a2, usdc, 100).unwrap();
    let s3 = AnchornetContract::open_settlement(&mut env, a1, usdc, 100).unwrap();

    let a1_settlements = AnchornetContract::list_settlements_by_anchor(&env, a1, 1, 10);
    assert_eq!(a1_settlements.len(), 2);
    assert_eq!(a1_settlements[0].id, s1);
    assert_eq!(a1_settlements[1].id, s3);

    let a2_settlements = AnchornetContract::list_settlements_by_anchor(&env, a2, 1, 10);
    assert_eq!(a2_settlements.len(), 1);
    assert_eq!(a2_settlements[0].id, s2);
}

#[test]
fn test_list_settlements_by_anchor_respects_limit() {
    let (mut env, _ids, _admin, anchor, asset) = funded(1_000);
    for _ in 0..3 {
        AnchornetContract::open_settlement(&mut env, anchor, asset, 100).unwrap();
    }

    let limited = AnchornetContract::list_settlements_by_anchor(&env, anchor, 1, 2);
    assert_eq!(limited.len(), 2);
}

#[test]
fn test_list_settlements_by_anchor_empty_for_unknown() {
    let (mut env, mut ids, _admin, anchor, asset) = funded(1_000);
    AnchornetContract::open_settlement(&mut env, anchor, asset, 100).unwrap();
    let stranger = ids.generate();

    assert_eq!(AnchornetContract::list_settlements_by_anchor(&env, stranger, 1, 10).len(), 0);
}

#[test]
fn test_list_settlements_by_asset_filters_other_assets() {
    let (mut env, mut ids, admin) = setup();
    let anchor = ids.generate();
    let usdc = Symbol::new("USDC");
    let eurc = Symbol::new("EURC");

    AnchornetContract::initialize(&mut env, admin).unwrap();
    AnchornetContract::register_anchor(&mut env, anchor).unwrap();
    AnchornetContract::provide_liquidity(&mut env, anchor, usdc, 1_000).unwrap();
    AnchornetContract::provide_liquidity(&mut env, anchor, eurc, 1_000).unwrap();

    let s1 = AnchornetContract::open_settlement(&mut env, anchor, usdc, 100).unwrap();
    let s2 = AnchornetContract::open_settlement(&mut env, anchor, eurc, 100).unwrap();
    let s3 = AnchornetContract::open_settlement(&mut env, anchor, usdc, 100).unwrap();

    let usdc_settlements = AnchornetContract::list_settlements_by_asset(&env, usdc, 1, 10);
    assert_eq!(usdc_settlements.len(), 2);
    assert_eq!(usdc_settlements[0].id, s1);
    assert_eq!(usdc_settlements[1].id, s3);

    let eurc_settlements = AnchornetContract::list_settlements_by_asset(&env, eurc, 1, 10);
    assert_eq!(eurc_settlements.len(), 1);
    assert_eq!(eurc_settlements[0].id, s2);
}

#[test]
fn test_list_settlements_by_asset_respects_limit() {
    let (mut env, _ids, _admin, anchor, asset) = funded(1_000);
    for _ in 0..3 {
        AnchornetContract::open_settlement(&mut env, anchor, asset, 100).unwrap();
    }

    let limited = AnchornetContract::list_settlements_by_asset(&env, asset, 1, 2);
    assert_eq!(limited.len(), 2);
}

#[test]
fn test_list_settlements_by_asset_empty_for_unknown() {
    let (mut env, _ids, _admin, anchor, asset) = funded(1_000);
    AnchornetContract::open_settlement(&mut env, anchor, asset, 100).unwrap();
    let other = Symbol::new("EURC");

    assert_eq!(AnchornetContract::list_settlements_by_asset(&env, other, 1, 10).len(), 0);
}

#[test]
fn test_settlement_exists() {
    let (mut env, _ids, _admin, anchor, asset) = funded(1_000);

    assert!(!AnchornetContract::settlement_exists(&env, 1));
    let id = AnchornetContract::open_settlement(&mut env, anchor, asset, 100).unwrap();
    assert!(AnchornetContract::settlement_exists(&env, id));
}

#[test]
fn test_list_settlements_empty() {
    let (env, _ids, _admin, _anchor, _asset) = funded(1_000);

    assert_eq!(AnchornetContract::list_settlements(&env, 1, 10).len(), 0);
    assert_eq!(AnchornetContract::list_settlements(&env, 100, 10).len(), 0);
}

#[test]
fn test_open_settlement_rejects_non_positive_amount() {
    let (mut env, _ids, _admin, anchor, asset) = funded(1_000);

    let err = AnchornetContract::open_settlement(&mut env, anchor, asset, 0).unwrap_err();
    assert_eq!(err, Error::InvalidAmount);
}

#[test]
fn test_fees_accumulate_across_settlements() {
    let (mut env, _ids, _admin, anchor, asset) = funded(1_000);
    AnchornetContract::set_fee(&mut env, 100).unwrap();

    let first = AnchornetContract::open_settlement(&mut env, anchor, asset, 300).unwrap();
    let second = AnchornetContract::open_settlement(&mut env, anchor, asset, 200).unwrap();
    AnchornetContract::execute_settlement(&mut env, first).unwrap();
    AnchornetContract::execute_settlement(&mut env, second).unwrap();

    // 1% of 300 + 1% of 200 = 3 + 2 = 5
    assert_eq!(AnchornetContract::fees_accrued(&env, asset), 5);
}

#[test]
fn test_fees_are_tracked_per_asset() {
    let (mut env, mut ids, admin) = setup();
    let anchor = ids.generate();
    let usdc = Symbol::new("USDC");
    let eurc = Symbol::new("EURC");

    AnchornetContract::initialize(&mut env, admin).unwrap();
    AnchornetContract::register_anchor(&mut env, anchor).unwrap();
    AnchornetContract::set_fee(&mut env, 100).unwrap();
    AnchornetContract::provide_liquidity(&mut env, anchor, usdc, 1_000).unwrap();
    AnchornetContract::provide_liquidity(&mut env, anchor, eurc, 1_000).unwrap();

    let s1 = AnchornetContract::open_settlement(&mut env, anchor, usdc, 400).unwrap();
    AnchornetContract::execute_settlement(&mut env, s1).unwrap();

    assert_eq!(AnchornetContract::fees_accrued(&env, usdc), 4);
    assert_eq!(AnchornetContract::fees_accrued(&env, eurc), 0);
}

#[test]
fn test_cancel_restores_liquidity_with_fee_set() {
    let (mut env, _ids, _admin, anchor, asset) = funded(1_000);
    AnchornetContract::set_fee(&mut env, 100).unwrap();

    let id = AnchornetContract::open_settlement(&mut env, anchor, asset, 400).unwrap();
    assert_eq!(AnchornetContract::total_liquidity(&env, asset), 600);

    AnchornetContract::cancel_settlement(&mut env, id).unwrap();

    // The full reserved amount returns; fees are only accrued on execution.
    assert_eq!(AnchornetContract::total_liquidity(&env, asset), 1_000);
    assert_eq!(AnchornetContract::fees_accrued(&env, asset), 0);
}

#[test]
fn test_open_settlement_handles_max_amount_at_max_fee() {
    let (mut env, _ids, _admin, anchor, asset) = funded(i128::MAX);
    AnchornetContract::set_fee(&mut env, AnchornetContract::max_fee_bps()).unwrap();

    let id = AnchornetContract::open_settlement(&mut env, anchor, asset, i128::MAX).unwrap();

    assert_eq!(AnchornetContract::settlement(&env, id).unwrap().fee, i128::MAX / 10);
}

#[test]
fn test_cancel_expired_settlement_disabled_by_default() {
    let (mut env, _ids, _admin, anchor, asset) = funded(1_000);
    let id = AnchornetContract::open_settlement(&mut env, anchor, asset, 400).unwrap();

    // Expiry is disabled (zero) by default, no matter how far the ledger
    // advances.
    env.set_ledger_sequence(1_000_000);
    let err = AnchornetContract::cancel_expired_settlement(&mut env, id).unwrap_err();
    assert_eq!(err, Error::SettlementNotExpired);
}

#[test]
fn test_cancel_expired_settlement_rejects_before_expiry() {
    let (mut env, _ids, _admin, anchor, asset) = funded(1_000);
    AnchornetContract::set_settlement_expiry_ledgers(&mut env, 50).unwrap();
    let id = AnchornetContract::open_settlement(&mut env, anchor, asset, 400).unwrap(); // opened_at == 0

    // One ledger short of the 50-ledger expiry window.
    env.set_ledger_sequence(49);
    let err = AnchornetContract::cancel_expired_settlement(&mut env, id).unwrap_err();
    assert_eq!(err, Error::SettlementNotExpired);

    // The settlement is untouched and its liquidity still reserved.
    assert_eq!(AnchornetContract::total_liquidity(&env, asset), 600);
}

#[test]
fn test_cancel_expired_settlement_reclaims_at_boundary() {
    let (mut env, _ids, _admin, anchor, asset) = funded(1_000);
    AnchornetContract::set_settlement_expiry_ledgers(&mut env, 50).unwrap();
    let id = AnchornetContract::open_settlement(&mut env, anchor, asset, 400).unwrap();
    assert_eq!(AnchornetContract::total_liquidity(&env, asset), 600);

    // Exactly at the expiry boundary the settlement becomes reclaimable.
    env.set_ledger_sequence(50);
    AnchornetContract::cancel_expired_settlement(&mut env, id).unwrap();

    assert_eq!(AnchornetContract::settlement(&env, id).unwrap().status, SettlementStatus::Expired);
    assert_eq!(AnchornetContract::total_liquidity(&env, asset), 1_000);
}

#[test]
fn test_cancel_expired_settlement_rejects_already_executed() {
    let (mut env, _ids, _admin, anchor, asset) = funded(1_000);
    AnchornetContract::set_settlement_expiry_ledgers(&mut env, 10).unwrap();
    let id = AnchornetContract::open_settlement(&mut env, anchor, asset, 400).unwrap();
    AnchornetContract::execute_settlement(&mut env, id).unwrap();

    env.set_ledger_sequence(20);
    let err = AnchornetContract::cancel_expired_settlement(&mut env, id).unwrap_err();
    assert_eq!(err, Error::InvalidSettlementState);
}

#[test]
fn test_cancel_expired_settlement_rejects_unknown_id() {
    let (mut env, _ids, _admin, _anchor, _asset) = funded(1_000);

    let err = AnchornetContract::cancel_expired_settlement(&mut env, 99).unwrap_err();
    assert_eq!(err, Error::SettlementNotFound);
}

#[test]
fn test_is_settlement_expired_false_while_disabled() {
    let (mut env, _ids, _admin, anchor, asset) = funded(1_000);
    let id = AnchornetContract::open_settlement(&mut env, anchor, asset, 400).unwrap();

    env.set_ledger_sequence(1_000_000);
    assert!(!AnchornetContract::is_settlement_expired(&env, id).unwrap());
}

#[test]
fn test_is_settlement_expired_false_before_boundary() {
    let (mut env, _ids, _admin, anchor, asset) = funded(1_000);
    AnchornetContract::set_settlement_expiry_ledgers(&mut env, 50).unwrap();
    let id = AnchornetContract::open_settlement(&mut env, anchor, asset, 400).unwrap();

    env.set_ledger_sequence(49);
    assert!(!AnchornetContract::is_settlement_expired(&env, id).unwrap());
}

#[test]
fn test_is_settlement_expired_true_at_boundary() {
    let (mut env, _ids, _admin, anchor, asset) = funded(1_000);
    AnchornetContract::set_settlement_expiry_ledgers(&mut env, 50).unwrap();
    let id = AnchornetContract::open_settlement(&mut env, anchor, asset, 400).unwrap();

    env.set_ledger_sequence(50);
    assert!(AnchornetContract::is_settlement_expired(&env, id).unwrap());
}

#[test]
fn test_is_settlement_expired_false_once_executed() {
    let (mut env, _ids, _admin, anchor, asset) = funded(1_000);
    AnchornetContract::set_settlement_expiry_ledgers(&mut env, 10).unwrap();
    let id = AnchornetContract::open_settlement(&mut env, anchor, asset, 400).unwrap();
    AnchornetContract::execute_settlement(&mut env, id).unwrap();

    env.set_ledger_sequence(20);
    assert!(!AnchornetContract::is_settlement_expired(&env, id).unwrap());
}

#[test]
fn test_is_settlement_expired_rejects_unknown_id() {
    let (env, _ids, _admin, _anchor, _asset) = funded(1_000);

    let err = AnchornetContract::is_settlement_expired(&env, 99).unwrap_err();
    assert_eq!(err, Error::SettlementNotFound);
}

#[test]
fn test_list_settlements_by_status_filters_lifecycle_state() {
    let (mut env, _ids, _admin, anchor, asset) = funded(1_000);

    let pending = AnchornetContract::open_settlement(&mut env, anchor, asset, 100).unwrap();
    let executed = AnchornetContract::open_settlement(&mut env, anchor, asset, 100).unwrap();
    let cancelled = AnchornetContract::open_settlement(&mut env, anchor, asset, 100).unwrap();
    AnchornetContract::execute_settlement(&mut env, executed).unwrap();
    AnchornetContract::cancel_settlement(&mut env, cancelled).unwrap();

    let pending_list = AnchornetContract::list_settlements_by_status(&env, SettlementStatus::Pending, 1, 10);
    assert_eq!(pending_list.len(), 1);
    assert_eq!(pending_list[0].id, pending);

    let executed_list = AnchornetContract::list_settlements_by_status(&env, SettlementStatus::Executed, 1, 10);
    assert_eq!(executed_list.len(), 1);
    assert_eq!(executed_list[0].id, executed);

    let cancelled_list = AnchornetContract::list_settlements_by_status(&env, SettlementStatus::Cancelled, 1, 10);
    assert_eq!(cancelled_list.len(), 1);
    assert_eq!(cancelled_list[0].id, cancelled);

    // No settlement has expired, so the Expired filter comes back empty.
    assert_eq!(AnchornetContract::list_settlements_by_status(&env, SettlementStatus::Expired, 1, 10).len(), 0);
}

#[test]
fn test_list_settlements_by_status_respects_limit() {
    let (mut env, _ids, _admin, anchor, asset) = funded(1_000);
    for _ in 0..3 {
        AnchornetContract::open_settlement(&mut env, anchor, asset, 100).unwrap();
    }

    let limited = AnchornetContract::list_settlements_by_status(&env, SettlementStatus::Pending, 1, 2);
    assert_eq!(limited.len(), 2);
}

#[test]
fn test_cancel_expired_settlement_rejects_double_reclaim() {
    let (mut env, _ids, _admin, anchor, asset) = funded(1_000);
    AnchornetContract::set_settlement_expiry_ledgers(&mut env, 10).unwrap();
    let id = AnchornetContract::open_settlement(&mut env, anchor, asset, 400).unwrap();

    env.set_ledger_sequence(10);
    AnchornetContract::cancel_expired_settlement(&mut env, id).unwrap();

    let err = AnchornetContract::cancel_expired_settlement(&mut env, id).unwrap_err();
    assert_eq!(err, Error::InvalidSettlementState);
}

#[test]
fn test_cancel_settlement_and_expired_race_cancel_wins() {
    let (mut env, _ids, _admin, anchor, asset) = funded(1_000);
    AnchornetContract::set_settlement_expiry_ledgers(&mut env, 10).unwrap();
    let id = AnchornetContract::open_settlement(&mut env, anchor, asset, 400).unwrap();
    assert_eq!(AnchornetContract::total_liquidity(&env, asset), 600);

    env.set_ledger_sequence(10);

    // cancel_settlement (anchor-authorized) wins the race.
    AnchornetContract::cancel_settlement(&mut env, id).unwrap();

    assert_eq!(AnchornetContract::settlement(&env, id).unwrap().status, SettlementStatus::Cancelled);
    // Pool credited exactly once.
    assert_eq!(AnchornetContract::total_liquidity(&env, asset), 1_000);

    // cancel_expired_settlement sees Cancelled != Pending and rejects.
    let err = AnchornetContract::cancel_expired_settlement(&mut env, id).unwrap_err();
    assert_eq!(err, Error::InvalidSettlementState);
    // Pool unchanged: no double credit.
    assert_eq!(AnchornetContract::total_liquidity(&env, asset), 1_000);
}

#[test]
fn test_cancel_expired_and_settlement_race_expired_wins() {
    let (mut env, _ids, _admin, anchor, asset) = funded(1_000);
    AnchornetContract::set_settlement_expiry_ledgers(&mut env, 10).unwrap();
    let id = AnchornetContract::open_settlement(&mut env, anchor, asset, 400).unwrap();
    assert_eq!(AnchornetContract::total_liquidity(&env, asset), 600);

    env.set_ledger_sequence(10);

    // cancel_expired_settlement (permissionless) wins the race.
    AnchornetContract::cancel_expired_settlement(&mut env, id).unwrap();

    assert_eq!(AnchornetContract::settlement(&env, id).unwrap().status, SettlementStatus::Expired);
    // Pool credited exactly once.
    assert_eq!(AnchornetContract::total_liquidity(&env, asset), 1_000);

    // cancel_settlement sees Expired != Pending and rejects.
    let err = AnchornetContract::cancel_settlement(&mut env, id).unwrap_err();
    assert_eq!(err, Error::InvalidSettlementState);
    // Pool unchanged: no double credit.
    assert_eq!(AnchornetContract::total_liquidity(&env, asset), 1_000);
}

#[test]
fn test_max_settlement_amount_disabled_by_default() {
    let (mut env, _ids, _admin, anchor, asset) = funded(1_000);

    assert_eq!(AnchornetContract::max_settlement_amount(&env, asset), 0);

    // With no cap configured, a large settlement is unaffected.
    AnchornetContract::open_settlement(&mut env, anchor, asset, 1_000).unwrap();
}

#[test]
fn test_set_max_settlement_amount_updates_value() {
    let (mut env, _ids, _admin, _anchor, asset) = funded(1_000);

    AnchornetContract::set_max_settlement_amount(&mut env, asset, 500).unwrap();

    assert_eq!(AnchornetContract::max_settlement_amount(&env, asset), 500);
}

#[test]
fn test_set_max_settlement_amount_rejects_negative_value() {
    let (mut env, _ids, _admin, _anchor, asset) = funded(1_000);

    let err = AnchornetContract::set_max_settlement_amount(&mut env, asset, -1).unwrap_err();
    assert_eq!(err, Error::InvalidAmount);
}

#[test]
fn test_open_settlement_rejects_amount_above_cap() {
    let (mut env, _ids, _admin, anchor, asset) = funded(1_000);
    AnchornetContract::set_max_settlement_amount(&mut env, asset, 500).unwrap();

    let err = AnchornetContract::open_settlement(&mut env, anchor, asset, 600).unwrap_err();
    assert_eq!(err, Error::AboveMaxSettlementAmount);
}

#[test]
fn test_open_settlement_allows_amount_at_cap() {
    let (mut env, _ids, _admin, anchor, asset) = funded(1_000);
    AnchornetContract::set_max_settlement_amount(&mut env, asset, 500).unwrap();

    AnchornetContract::open_settlement(&mut env, anchor, asset, 500).unwrap();
}

#[test]
fn test_max_settlement_amount_cap_is_per_asset() {
    let (mut env, mut ids, admin) = setup();
    let anchor = ids.generate();
    let usdc = Symbol::new("USDC");
    let eurc = Symbol::new("EURC");

    AnchornetContract::initialize(&mut env, admin).unwrap();
    AnchornetContract::register_anchor(&mut env, anchor).unwrap();
    AnchornetContract::provide_liquidity(&mut env, anchor, usdc, 1_000).unwrap();
    AnchornetContract::provide_liquidity(&mut env, anchor, eurc, 1_000).unwrap();
    AnchornetContract::set_max_settlement_amount(&mut env, usdc, 200).unwrap();

    // The cap on USDC does not affect settlements against the EURC pool.
    AnchornetContract::open_settlement(&mut env, anchor, eurc, 1_000).unwrap();

    let err = AnchornetContract::open_settlement(&mut env, anchor, usdc, 300).unwrap_err();
    assert_eq!(err, Error::AboveMaxSettlementAmount);
}

#[test]
fn test_settlement_count_by_status_counts_across_full_history() {
    let (mut env, _ids, _admin, anchor, asset) = funded(1_000);

    AnchornetContract::open_settlement(&mut env, anchor, asset, 100).unwrap();
    let executed = AnchornetContract::open_settlement(&mut env, anchor, asset, 100).unwrap();
    let cancelled = AnchornetContract::open_settlement(&mut env, anchor, asset, 100).unwrap();
    AnchornetContract::execute_settlement(&mut env, executed).unwrap();
    AnchornetContract::cancel_settlement(&mut env, cancelled).unwrap();

    assert_eq!(AnchornetContract::settlement_count_by_status(&env, SettlementStatus::Pending), 1);
    assert_eq!(AnchornetContract::settlement_count_by_status(&env, SettlementStatus::Executed), 1);
    assert_eq!(AnchornetContract::settlement_count_by_status(&env, SettlementStatus::Cancelled), 1);
    assert_eq!(AnchornetContract::settlement_count_by_status(&env, SettlementStatus::Expired), 0);
}

#[test]
fn test_settlement_count_by_status_is_zero_with_no_settlements() {
    let (env, _ids, _admin, _anchor, _asset) = funded(1_000);

    assert_eq!(AnchornetContract::settlement_count_by_status(&env, SettlementStatus::Pending), 0);
}

#[test]
fn test_total_settled_amount_sums_by_status() {
    let (mut env, _ids, _admin, anchor, asset) = funded(1_000);

    let a = AnchornetContract::open_settlement(&mut env, anchor, asset, 100).unwrap();
    let b = AnchornetContract::open_settlement(&mut env, anchor, asset, 250).unwrap();
    AnchornetContract::open_settlement(&mut env, anchor, asset, 50).unwrap(); // stays pending
    AnchornetContract::execute_settlement(&mut env, a).unwrap();
    AnchornetContract::execute_settlement(&mut env, b).unwrap();

    assert_eq!(AnchornetContract::total_settled_amount(&env, SettlementStatus::Executed).unwrap(), 350);
    assert_eq!(AnchornetContract::total_settled_amount(&env, SettlementStatus::Pending).unwrap(), 50);
    assert_eq!(AnchornetContract::total_settled_amount(&env, SettlementStatus::Cancelled).unwrap(), 0);
}

#[test]
fn test_total_settled_amount_is_zero_with_no_settlements() {
    let (env, _ids, _admin, _anchor, _asset) = funded(1_000);

    assert_eq!(AnchornetContract::total_settled_amount(&env, SettlementStatus::Pending).unwrap(), 0);
}

#[test]
fn test_total_liquidity_all_sums_across_assets() {
    let (mut env, mut ids, admin) = setup();
    let anchor = ids.generate();
    let usdc = Symbol::new("USDC");
    let eurc = Symbol::new("EURC");

    AnchornetContract::initialize(&mut env, admin).unwrap();
    AnchornetContract::register_anchor(&mut env, anchor).unwrap();
    assert_eq!(AnchornetContract::total_liquidity_all(&env).unwrap(), 0);

    AnchornetContract::provide_liquidity(&mut env, anchor, usdc, 600).unwrap();
    AnchornetContract::provide_liquidity(&mut env, anchor, eurc, 400).unwrap();

    assert_eq!(AnchornetContract::total_liquidity_all(&env).unwrap(), 1_000);

    AnchornetContract::withdraw_liquidity(&mut env, anchor, usdc, 100).unwrap();
    assert_eq!(AnchornetContract::total_liquidity_all(&env).unwrap(), 900);
}

#[test]
fn test_total_fees_accrued_sums_across_assets() {
    let (mut env, mut ids, admin) = setup();
    let anchor = ids.generate();
    let usdc = Symbol::new("USDC");
    let eurc = Symbol::new("EURC");

    AnchornetContract::initialize(&mut env, admin).unwrap();
    AnchornetContract::register_anchor(&mut env, anchor).unwrap();
    AnchornetContract::set_fee(&mut env, 100).unwrap();
    AnchornetContract::provide_liquidity(&mut env, anchor, usdc, 1_000).unwrap();
    AnchornetContract::provide_liquidity(&mut env, anchor, eurc, 1_000).unwrap();
    assert_eq!(AnchornetContract::total_fees_accrued(&env).unwrap(), 0);

    let s1 = AnchornetContract::open_settlement(&mut env, anchor, usdc, 400).unwrap();
    let s2 = AnchornetContract::open_settlement(&mut env, anchor, eurc, 200).unwrap();
    AnchornetContract::execute_settlement(&mut env, s1).unwrap();
    AnchornetContract::execute_settlement(&mut env, s2).unwrap();

    // 1% of 400 + 1% of 200 = 4 + 2 = 6, summed across both assets.
    assert_eq!(AnchornetContract::total_fees_accrued(&env).unwrap(), 6);

    AnchornetContract::collect_fees(&mut env, usdc).unwrap();
    assert_eq!(AnchornetContract::total_fees_accrued(&env).unwrap(), 2);
}

#[test]
fn test_contract_info_reflects_current_state() {
    let (mut env, _ids, admin, anchor, asset) = funded(1_000);
    AnchornetContract::set_fee(&mut env, 250).unwrap();
    AnchornetContract::open_settlement(&mut env, anchor, asset, 100).unwrap();
    AnchornetContract::pause(&mut env, admin).unwrap();

    let info = AnchornetContract::contract_info(&env);

    assert_eq!(info.version, AnchornetContract::version());
    assert!(info.paused);
    assert_eq!(info.fee_bps, 250);
    assert_eq!(info.anchor_count, 1);
    assert_eq!(info.asset_count, 1);
    assert_eq!(info.settlement_count, 1);
}

#[test]
fn test_contract_info_before_any_activity() {
    let (mut env, _ids, admin) = setup();
    AnchornetContract::initialize(&mut env, admin).unwrap();

    let info = AnchornetContract::contract_info(&env);

    assert!(!info.paused);
    assert_eq!(info.anchor_count, 0);
    assert_eq!(info.asset_count, 0);
    assert_eq!(info.settlement_count, 0);
}
