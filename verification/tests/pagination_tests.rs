use anchornet::{Address, AddressKind, AnchornetContract, Env, SettlementStatus, Symbol};

/// Hands out distinct account addresses, one per call.
struct Addresses {
    next: u128,
}

impl Addresses {
    fn new() -> Addresses {
        Addresses { next: 1 }
    }

    fn generate(&mut self) -> Address {
        let key = self.next;
        self.next += 1;
        Address { kind: AddressKind::Account, key_hi: 0, key_lo: key }
    }
}

/// A fresh environment, an address generator and the admin-to-be.
fn setup() -> (Env, Addresses, Address) {
    let env = Env::new();
    let mut ids = Addresses::new();
    let admin = ids.generate();
    (env, ids, admin)
}

/// Initializes the contract, registers one anchor, and funds a pool.
/// Returns the environment, the address generator, admin, anchor and the
/// funded asset.
fn funded(liquidity: i128) -> (Env, Addresses, Address, Address, Symbol) {
    let (mut env, mut ids, admin) = setup();
    let anchor = ids.generate();
    let asset = Symbol::new("USDC");
    AnchornetContract::initialize(&mut env, admin).unwrap();
    AnchornetContract::register_anchor(&mut env, anchor).unwrap();
    AnchornetContract::provide_liquidity(&mut env, anchor, asset, liquidity).unwrap();
    (env, ids, admin, anchor, asset)
}

// Each list entrypoint is exercised for three edge cases: a start past the
// end, a limit of zero, and a limit larger than what remains.

#[test]
fn test_list_anchors_start_past_end_returns_empty() {
    let (mut env, mut ids, admin) = setup();
    let a1 = ids.generate();
    let a2 = ids.generate();
    AnchornetContract::initialize(&mut env, admin).unwrap();
    AnchornetContract::register_anchor(&mut env, a1).unwrap();
    AnchornetContract::register_anchor(&mut env, a2).unwrap();

    assert_eq!(AnchornetContract::list_anchors(&env, 2, 10).len(), 0);
    assert_eq!(AnchornetContract::list_anchors(&env, u32::MAX, 10).len(), 0);
}

#[test]
fn test_list_anchors_limit_zero_returns_empty() {
    let (mut env, mut ids, admin) = setup();
    let a1 = ids.generate();
    AnchornetContract::initialize(&mut env, admin).unwrap();
    AnchornetContract::register_anchor(&mut env, a1).unwrap();

    assert_eq!(AnchornetContract::list_anchors(&env, 0, 0).len(), 0);
}

#[test]
fn test_list_anchors_limit_exceeds_remaining_returns_all() {
    let (mut env, mut ids, admin) = setup();
    let a1 = ids.generate();
    let a2 = ids.generate();
    AnchornetContract::initialize(&mut env, admin).unwrap();
    AnchornetContract::register_anchor(&mut env, a1).unwrap();
    AnchornetContract::register_anchor(&mut env, a2).unwrap();

    let result = AnchornetContract::list_anchors(&env, 0, 1_000);
    assert_eq!(result.len(), 2);
    assert_eq!(result[0], a1);
    assert_eq!(result[1], a2);
}

#[test]
fn test_list_assets_start_past_end_returns_empty() {
    let (mut env, mut ids, admin) = setup();
    let anchor = ids.generate();
    let usdc = Symbol::new("USDC");
    let eurc = Symbol::new("EURC");
    AnchornetContract::initialize(&mut env, admin).unwrap();
    AnchornetContract::register_anchor(&mut env, anchor).unwrap();
    AnchornetContract::provide_liquidity(&mut env, anchor, usdc, 100).unwrap();
    AnchornetContract::provide_liquidity(&mut env, anchor, eurc, 100).unwrap();

    assert_eq!(AnchornetContract::list_assets(&env, 2, 10).len(), 0);
    assert_eq!(AnchornetContract::list_assets(&env, u32::MAX, 10).len(), 0);
}

#[test]
fn test_list_assets_limit_zero_returns_empty() {
    let (env, _ids, _admin, _anchor, _asset) = funded(1_000);

    assert_eq!(AnchornetContract::list_assets(&env, 0, 0).len(), 0);
}

#[test]
fn test_list_assets_limit_exceeds_remaining_returns_all() {
    let (mut env, mut ids, admin) = setup();
    let anchor = ids.generate();
    let usdc = Symbol::new("USDC");
    let eurc = Symbol::new("EURC");
    AnchornetContract::initialize(&mut env, admin).unwrap();
    AnchornetContract::register_anchor(&mut env, anchor).unwrap();
    AnchornetContract::provide_liquidity(&mut env, anchor, usdc, 100).unwrap();
    AnchornetContract::provide_liquidity(&mut env, anchor, eurc, 100).unwrap();

    let result = AnchornetContract::list_assets(&env, 0, 1_000);
    assert_eq!(result.len(), 2);
    assert_eq!(result[0], usdc);
    assert_eq!(result[1], eurc);
}

#[test]
fn test_list_fee_waived_anchors_start_past_end_returns_empty() {
    let (mut env, mut ids, admin) = setup();
    let a1 = ids.generate();
    let a2 = ids.generate();
    AnchornetContract::initialize(&mut env, admin).unwrap();
    AnchornetContract::register_anchor(&mut env, a1).unwrap();
    AnchornetContract::register_anchor(&mut env, a2).unwrap();
    AnchornetContract::set_fee_waiver(&mut env, a1, true).unwrap();
    AnchornetContract::set_fee_waiver(&mut env, a2, true).unwrap();

    assert_eq!(AnchornetContract::list_fee_waived_anchors(&env, 2, 10).len(), 0);
    assert_eq!(AnchornetContract::list_fee_waived_anchors(&env, u32::MAX, 10).len(), 0);
}

#[test]
fn test_list_fee_waived_anchors_limit_zero_returns_empty() {
    let (mut env, mut ids, admin) = setup();
    let anchor = ids.generate();
    AnchornetContract::initialize(&mut env, admin).unwrap();
    AnchornetContract::register_anchor(&mut env, anchor).unwrap();
    AnchornetContract::set_fee_waiver(&mut env, anchor, true).unwrap();

    assert_eq!(AnchornetContract::list_fee_waived_anchors(&env, 0, 0).len(), 0);
}

#[test]
fn test_list_fee_waived_anchors_limit_exceeds_remaining_returns_all() {
    let (mut env, mut ids, admin) = setup();
    let a1 = ids.generate();
    let a2 = ids.generate();
    AnchornetContract::initialize(&mut env, admin).unwrap();
    AnchornetContract::register_anchor(&mut env, a1).unwrap();
    AnchornetContract::register_anchor(&mut env, a2).unwrap();
    AnchornetContract::set_fee_waiver(&mut env, a1, true).unwrap();
    AnchornetContract::set_fee_waiver(&mut env, a2, true).unwrap();

    let result = AnchornetContract::list_fee_waived_anchors(&env, 0, 1_000);
    assert_eq!(result.len(), 2);
    assert_eq!(result[0], a1);
    assert_eq!(result[1], a2);
}

#[test]
fn test_list_settlements_start_past_end_returns_empty() {
    let (mut env, _ids, _admin, anchor, asset) = funded(1_000);
    AnchornetContract::open_settlement(&mut env, anchor, asset, 100).unwrap();
    AnchornetContract::open_settlement(&mut env, anchor, asset, 100).unwrap();
    assert_eq!(AnchornetContract::list_settlements(&env, 3, 10).len(), 0);
    assert_eq!(AnchornetContract::list_settlements(&env, u64::MAX, 10).len(), 0);
}

#[test]
fn test_list_settlements_limit_zero_returns_empty() {
    let (mut env, _ids, _admin, anchor, asset) = funded(1_000);
    AnchornetContract::open_settlement(&mut env, anchor, asset, 100).unwrap();

    assert_eq!(AnchornetContract::list_settlements(&env, 1, 0).len(), 0);
    // A start of 0 is read as id 1; a limit of 0 still returns nothing.
    assert_eq!(AnchornetContract::list_settlements(&env, 0, 0).len(), 0);
}

#[test]
fn test_list_settlements_limit_exceeds_remaining_returns_all() {
    let (mut env, _ids, _admin, anchor, asset) = funded(1_000);
    let id1 = AnchornetContract::open_settlement(&mut env, anchor, asset, 100).unwrap();
    let id2 = AnchornetContract::open_settlement(&mut env, anchor, asset, 100).unwrap();

    let result = AnchornetContract::list_settlements(&env, 1, 1_000);
    assert_eq!(result.len(), 2);
    assert_eq!(result[0].id, id1);
    assert_eq!(result[1].id, id2);
}

#[test]
fn test_list_settlements_by_anchor_start_past_end_returns_empty() {
    let (mut env, _ids, _admin, anchor, asset) = funded(1_000);
    AnchornetContract::open_settlement(&mut env, anchor, asset, 100).unwrap();
    AnchornetContract::open_settlement(&mut env, anchor, asset, 100).unwrap();

    assert_eq!(AnchornetContract::list_settlements_by_anchor(&env, anchor, 3, 10).len(), 0);
    assert_eq!(AnchornetContract::list_settlements_by_anchor(&env, anchor, u64::MAX, 10).len(), 0);
}

#[test]
fn test_list_settlements_by_anchor_limit_zero_returns_empty() {
    let (mut env, _ids, _admin, anchor, asset) = funded(1_000);
    AnchornetContract::open_settlement(&mut env, anchor, asset, 100).unwrap();

    assert_eq!(AnchornetContract::list_settlements_by_anchor(&env, anchor, 1, 0).len(), 0);
    assert_eq!(AnchornetContract::list_settlements_by_anchor(&env, anchor, 0, 0).len(), 0);
}

#[test]
fn test_list_settlements_by_anchor_limit_exceeds_remaining_returns_all() {
    let (mut env, _ids, _admin, anchor, asset) = funded(1_000);
    let id1 = AnchornetContract::open_settlement(&mut env, anchor, asset, 100).unwrap();
    let id2 = AnchornetContract::open_settlement(&mut env, anchor, asset, 100).unwrap();

    let result = AnchornetContract::list_settlements_by_anchor(&env, anchor, 1, 1_000);
    assert_eq!(result.len(), 2);
    assert_eq!(result[0].id, id1);
    assert_eq!(result[1].id, id2);
}

#[test]
fn test_list_settlements_by_asset_start_past_end_returns_empty() {
    let (mut env, _ids, _admin, anchor, asset) = funded(1_000);
    AnchornetContract::open_settlement(&mut env, anchor, asset, 100).unwrap();
    AnchornetContract::open_settlement(&mut env, anchor, asset, 100).unwrap();

    assert_eq!(AnchornetContract::list_settlements_by_asset(&env, asset, 3, 10).len(), 0);
    assert_eq!(AnchornetContract::list_settlements_by_asset(&env, asset, u64::MAX, 10).len(), 0);
}

#[test]
fn test_list_settlements_by_asset_limit_zero_returns_empty() {
    let (mut env, _ids, _admin, anchor, asset) = funded(1_000);
    AnchornetContract::open_settlement(&mut env, anchor, asset, 100).unwrap();

    assert_eq!(AnchornetContract::list_settlements_by_asset(&env, asset, 1, 0).len(), 0);
    assert_eq!(AnchornetContract::list_settlements_by_asset(&env, asset, 0, 0).len(), 0);
}

#[test]
fn test_list_settlements_by_asset_limit_exceeds_remaining_returns_all() {
    let (mut env, _ids, _admin, anchor, asset) = funded(1_000);
    let id1 = AnchornetContract::open_settlement(&mut env, anchor, asset, 100).unwrap();
    let id2 = AnchornetContract::open_settlement(&mut env, anchor, asset, 100).unwrap();

    let result = AnchornetContract::list_settlements_by_asset(&env, asset, 1, 1_000);
    assert_eq!(result.len(), 2);
    assert_eq!(result[0].id, id1);
    assert_eq!(result[1].id, id2);
}

#[test]
fn test_list_settlements_by_status_start_past_end_returns_empty() {
    let (mut env, _ids, _admin, anchor, asset) = funded(1_000);
    AnchornetContract::open_settlement(&mut env, anchor, asset, 100).unwrap();
    AnchornetContract::open_settlement(&mut env, anchor, asset, 100).unwrap();

    assert_eq!(AnchornetContract::list_settlements_by_status(&env, SettlementStatus::Pending, 3, 10).len(), 0);
    assert_eq!(
        AnchornetContract::list_settlements_by_status(&env, SettlementStatus::Pending, u64::MAX, 10).len(),
        0
    );
}

#[test]
fn test_list_settlements_by_status_limit_zero_returns_empty() {
    let (mut env, _ids, _admin, anchor, asset) = funded(1_000);
    AnchornetContract::open_settlement(&mut env, anchor, asset, 100).unwrap();

    assert_eq!(AnchornetContract::list_settlements_by_status(&env, SettlementStatus::Pending, 1, 0).len(), 0);
    assert_eq!(AnchornetContract::list_settlements_by_status(&env, SettlementStatus::Pending, 0, 0).len(), 0);
}

#[test]
fn test_list_settlements_by_status_limit_exceeds_remaining_returns_all() {
    let (mut env, _ids, _admin, anchor, asset) = funded(1_000);
    let id1 = AnchornetContract::open_settlement(&mut env, anchor, asset, 100).unwrap();
    let id2 = AnchornetContract::open_settlement(&mut env, anchor, asset, 100).unwrap();

    let result = AnchornetContract::list_settlements_by_status(&env, SettlementStatus::Pending, 1, 1_000);
    assert_eq!(result.len(), 2);
    assert_eq!(result[0].id, id1);
    assert_eq!(result[1].id, id2);
}
