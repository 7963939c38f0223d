use anchornet::{Address, AddressKind, AnchornetContract, Env, Error, Event, Symbol};

/// Hands out distinct account addresses, one per call.
struct Addresses {
    next: u128,
}

impl Addresses {
    fn new() -> Addresses {
        Addresses { next: 1 }
    }

    fn generate(&mut self) -> Address {
        let key = self.next;
        self.next += 1;
        Address { kind: AddressKind::Account, key_hi: 0, key_lo: key }
    }
}

/// A fresh environment, an address generator and the admin-to-be.
fn setup() -> (Env, Addresses, Address) {
    let env = Env::new();
    let mut ids = Addresses::new();
    let admin = ids.generate();
    (env, ids, admin)
}

/// Initializes the contract, registers one anchor, and funds a pool.
/// Returns the environment, the address generator, admin, anchor and the
/// funded asset.
fn funded(liquidity: i128) -> (Env, Addresses, Address, Address, Symbol) {
    let (mut env, mut ids, admin) = setup();
    let anchor = ids.generate();
    let asset = Symbol::new("USDC");
    AnchornetContract::initialize(&mut env, admin).unwrap();
    AnchornetContract::register_anchor(&mut env, anchor).unwrap();
    AnchornetContract::provide_liquidity(&mut env, anchor, asset, liquidity).unwrap();
    (env, ids, admin, anchor, asset)
}

#[test]
fn test_register_anchor() {
    let (mut env, mut ids, admin) = setup();
    let anchor = ids.generate();

    AnchornetContract::initialize(&mut env, admin).unwrap();
    assert!(!AnchornetContract::is_anchor(&env, anchor));

    AnchornetContract::register_anchor(&mut env, anchor).unwrap();
    assert!(AnchornetContract::is_anchor(&env, anchor));
}

#[test]
fn test_register_anchor_twice_fails() {
    let (mut env, mut ids, admin) = setup();
    let anchor = ids.generate();

    AnchornetContract::initialize(&mut env, admin).unwrap();
    AnchornetContract::register_anchor(&mut env, anchor).unwrap();
    let err = AnchornetContract::register_anchor(&mut env, anchor).unwrap_err();

    assert_eq!(err, Error::AnchorAlreadyRegistered);
}

#[test]
fn test_deregister_anchor_blocks_settlement() {
    let (mut env, _ids, _admin, anchor, asset) = funded(1_000);

    AnchornetContract::deregister_anchor(&mut env, anchor).unwrap();
    assert!(!AnchornetContract::is_anchor(&env, anchor));

    let err = AnchornetContract::open_settlement(&mut env, anchor, asset, 100).unwrap_err();
    assert_eq!(err, Error::AnchorNotRegistered);
}

#[test]
fn test_deregister_unknown_anchor_fails() {
    let (mut env, mut ids, admin) = setup();
    let stranger = ids.generate();

    AnchornetContract::initialize(&mut env, admin).unwrap();
    let err = AnchornetContract::deregister_anchor(&mut env, stranger).unwrap_err();
    assert_eq!(err, Error::AnchorNotRegistered);
}

#[test]
fn test_list_anchors_returns_registered_in_order() {
    let (mut env, mut ids, admin) = setup();
    let a1 = ids.generate();
    let a2 = ids.generate();

    AnchornetContract::initialize(&mut env, admin).unwrap();
    assert_eq!(AnchornetContract::list_anchors(&env, 0, 10).len(), 0);
    assert_eq!(AnchornetContract::anchor_count(&env), 0);

    AnchornetContract::register_anchor(&mut env, a1).unwrap();
    AnchornetContract::register_anchor(&mut env, a2).unwrap();

    let anchors = AnchornetContract::list_anchors(&env, 0, 10);
    assert_eq!(anchors.len(), 2);
    assert_eq!(anchors[0], a1);
    assert_eq!(anchors[1], a2);
    assert_eq!(AnchornetContract::anchor_count(&env), 2);
}

#[test]
fn test_list_anchors_excludes_deregistered() {
    let (mut env, mut ids, admin) = setup();
    let a1 = ids.generate();
    let a2 = ids.generate();

    AnchornetContract::initialize(&mut env, admin).unwrap();
    AnchornetContract::register_anchor(&mut env, a1).unwrap();
    AnchornetContract::register_anchor(&mut env, a2).unwrap();
    AnchornetContract::deregister_anchor(&mut env, a1).unwrap();

    let anchors = AnchornetContract::list_anchors(&env, 0, 10);
    assert_eq!(anchors.len(), 1);
    assert_eq!(anchors[0], a2);
    assert_eq!(AnchornetContract::anchor_count(&env), 1);
}

#[test]
fn test_list_anchors_reflects_reregistration() {
    let (mut env, mut ids, admin) = setup();
    let anchor = ids.generate();

    AnchornetContract::initialize(&mut env, admin).unwrap();
    AnchornetContract::register_anchor(&mut env, anchor).unwrap();
    AnchornetContract::deregister_anchor(&mut env, anchor).unwrap();
    assert_eq!(AnchornetContract::anchor_count(&env), 0);

    // Re-registering a previously removed anchor must not duplicate it in
    // the enumerated list.
    AnchornetContract::register_anchor(&mut env, anchor).unwrap();
    let anchors = AnchornetContract::list_anchors(&env, 0, 10);
    assert_eq!(anchors.len(), 1);
    assert_eq!(anchors[0], anchor);
}

#[test]
fn test_list_anchors_pagination() {
    let (mut env, mut ids, admin) = setup();
    let a1 = ids.generate();
    let a2 = ids.generate();
    let a3 = ids.generate();

    AnchornetContract::initialize(&mut env, admin).unwrap();
    AnchornetContract::register_anchor(&mut env, a1).unwrap();
    AnchornetContract::register_anchor(&mut env, a2).unwrap();
    AnchornetContract::register_anchor(&mut env, a3).unwrap();

    let page = AnchornetContract::list_anchors(&env, 0, 2);
    assert_eq!(page.len(), 2);
    assert_eq!(page[0], a1);
    assert_eq!(page[1], a2);

    let rest = AnchornetContract::list_anchors(&env, 2, 10);
    assert_eq!(rest.len(), 1);
    assert_eq!(rest[0], a3);

    let none = AnchornetContract::list_anchors(&env, 3, 10);
    assert_eq!(none.len(), 0);
}

#[test]
fn test_list_anchors_pagination_skips_deregistered_without_counting() {
    let (mut env, mut ids, admin) = setup();
    let a1 = ids.generate();
    let a2 = ids.generate();
    let a3 = ids.generate();

    AnchornetContract::initialize(&mut env, admin).unwrap();
    AnchornetContract::register_anchor(&mut env, a1).unwrap();
    AnchornetContract::register_anchor(&mut env, a2).unwrap();
    AnchornetContract::register_anchor(&mut env, a3).unwrap();
    AnchornetContract::deregister_anchor(&mut env, a2).unwrap();

    // The deregistered a2 is skipped without counting toward the limit.
    let page = AnchornetContract::list_anchors(&env, 0, 2);
    assert_eq!(page.len(), 2);
    assert_eq!(page[0], a1);
    assert_eq!(page[1], a3);
}

#[test]
fn test_fee_waiver_exempts_anchor_from_settlement_fee() {
    let (mut env, _ids, _admin, anchor, asset) = funded(1_000);
    AnchornetContract::set_fee(&mut env, 100).unwrap();

    AnchornetContract::set_fee_waiver(&mut env, anchor, true).unwrap();
    assert!(AnchornetContract::is_fee_waived(&env, anchor));

    let id = AnchornetContract::open_settlement(&mut env, anchor, asset, 400).unwrap();
    assert_eq!(AnchornetContract::settlement(&env, id).unwrap().fee, 0);
}

#[test]
fn test_fee_waiver_toggle_off_restores_fee() {
    let (mut env, _ids, _admin, anchor, asset) = funded(1_000);
    AnchornetContract::set_fee(&mut env, 100).unwrap();

    AnchornetContract::set_fee_waiver(&mut env, anchor, true).unwrap();
    AnchornetContract::set_fee_waiver(&mut env, anchor, false).unwrap();
    assert!(!AnchornetContract::is_fee_waived(&env, anchor));

    let id = AnchornetContract::open_settlement(&mut env, anchor, asset, 400).unwrap();
    assert_eq!(AnchornetContract::settlement(&env, id).unwrap().fee, 4);
}

#[test]
fn test_set_fee_waiver_rejects_unregistered_anchor() {
    let (mut env, mut ids, admin) = setup();
    let stranger = ids.generate();

    AnchornetContract::initialize(&mut env, admin).unwrap();
    let err = AnchornetContract::set_fee_waiver(&mut env, stranger, true).unwrap_err();
    assert_eq!(err, Error::AnchorNotRegistered);
}

#[test]
fn test_fee_waiver_unset_by_default() {
    let (env, _ids, _admin, anchor, _asset) = funded(1_000);

    assert!(!AnchornetContract::is_fee_waived(&env, anchor));
}

#[test]
fn test_fee_waiver_takes_precedence_over_asset_fee_override() {
    let (mut env, _ids, _admin, anchor, asset) = funded(1_000);
    AnchornetContract::set_asset_fee(&mut env, asset, 500).unwrap();
    AnchornetContract::set_fee_waiver(&mut env, anchor, true).unwrap();

    let id = AnchornetContract::open_settlement(&mut env, anchor, asset, 1_000).unwrap();
    assert_eq!(AnchornetContract::settlement(&env, id).unwrap().fee, 0);
}

#[test]
fn test_list_fee_waived_anchors_filters_non_waived() {
    let (mut env, mut ids, admin) = setup();
    let a1 = ids.generate();
    let a2 = ids.generate();
    let a3 = ids.generate();

    AnchornetContract::initialize(&mut env, admin).unwrap();
    AnchornetContract::register_anchor(&mut env, a1).unwrap();
    AnchornetContract::register_anchor(&mut env, a2).unwrap();
    AnchornetContract::register_anchor(&mut env, a3).unwrap();
    AnchornetContract::set_fee_waiver(&mut env, a1, true).unwrap();
    AnchornetContract::set_fee_waiver(&mut env, a3, true).unwrap();

    let waived = AnchornetContract::list_fee_waived_anchors(&env, 0, 10);
    assert_eq!(waived.len(), 2);
    assert_eq!(waived[0], a1);
    assert_eq!(waived[1], a3);
}

#[test]
fn test_list_fee_waived_anchors_excludes_deregistered() {
    let (mut env, mut ids, admin) = setup();
    let a1 = ids.generate();
    let a2 = ids.generate();

    AnchornetContract::initialize(&mut env, admin).unwrap();
    AnchornetContract::register_anchor(&mut env, a1).unwrap();
    AnchornetContract::register_anchor(&mut env, a2).unwrap();
    AnchornetContract::set_fee_waiver(&mut env, a1, true).unwrap();
    AnchornetContract::set_fee_waiver(&mut env, a2, true).unwrap();
    AnchornetContract::deregister_anchor(&mut env, a1).unwrap();

    let waived = AnchornetContract::list_fee_waived_anchors(&env, 0, 10);
    assert_eq!(waived.len(), 1);
    assert_eq!(waived[0], a2);
}

#[test]
fn test_list_fee_waived_anchors_toggle_off_removed() {
    let (mut env, mut ids, admin) = setup();
    let anchor = ids.generate();

    AnchornetContract::initialize(&mut env, admin).unwrap();
    AnchornetContract::register_anchor(&mut env, anchor).unwrap();
    AnchornetContract::set_fee_waiver(&mut env, anchor, true).unwrap();
    assert_eq!(AnchornetContract::list_fee_waived_anchors(&env, 0, 10).len(), 1);

    AnchornetContract::set_fee_waiver(&mut env, anchor, false).unwrap();
    assert_eq!(AnchornetContract::list_fee_waived_anchors(&env, 0, 10).len(), 0);
}

#[test]
fn test_list_fee_waived_anchors_empty_by_default() {
    let (mut env, mut ids, admin) = setup();
    let anchor = ids.generate();

    AnchornetContract::initialize(&mut env, admin).unwrap();
    AnchornetContract::register_anchor(&mut env, anchor).unwrap();

    assert_eq!(AnchornetContract::list_fee_waived_anchors(&env, 0, 10).len(), 0);
}

#[test]
fn test_fee_waived_anchor_count_zero_by_default() {
    let (mut env, mut ids, admin) = setup();
    let anchor = ids.generate();

    AnchornetContract::initialize(&mut env, admin).unwrap();
    AnchornetContract::register_anchor(&mut env, anchor).unwrap();

    assert_eq!(AnchornetContract::fee_waived_anchor_count(&env), 0);
}

#[test]
fn test_fee_waived_anchor_count_increments_on_grant() {
    let (mut env, mut ids, admin) = setup();
    let a1 = ids.generate();
    let a2 = ids.generate();

    AnchornetContract::initialize(&mut env, admin).unwrap();
    AnchornetContract::register_anchor(&mut env, a1).unwrap();
    AnchornetContract::register_anchor(&mut env, a2).unwrap();
    assert_eq!(AnchornetContract::fee_waived_anchor_count(&env), 0);

    AnchornetContract::set_fee_waiver(&mut env, a1, true).unwrap();
    assert_eq!(AnchornetContract::fee_waived_anchor_count(&env), 1);

    AnchornetContract::set_fee_waiver(&mut env, a2, true).unwrap();
    assert_eq!(AnchornetContract::fee_waived_anchor_count(&env), 2);
}

#[test]
fn test_fee_waived_anchor_count_decrements_on_revoke() {
    let (mut env, mut ids, admin) = setup();
    let a1 = ids.generate();
    let a2 = ids.generate();

    AnchornetContract::initialize(&mut env, admin).unwrap();
    AnchornetContract::register_anchor(&mut env, a1).unwrap();
    AnchornetContract::register_anchor(&mut env, a2).unwrap();
    AnchornetContract::set_fee_waiver(&mut env, a1, true).unwrap();
    AnchornetContract::set_fee_waiver(&mut env, a2, true).unwrap();
    assert_eq!(AnchornetContract::fee_waived_anchor_count(&env), 2);

    AnchornetContract::set_fee_waiver(&mut env, a1, false).unwrap();
    assert_eq!(AnchornetContract::fee_waived_anchor_count(&env), 1);

    AnchornetContract::set_fee_waiver(&mut env, a2, false).unwrap();
    assert_eq!(AnchornetContract::fee_waived_anchor_count(&env), 0);
}

#[test]
fn test_fee_waived_anchor_count_excludes_deregistered() {
    let (mut env, mut ids, admin) = setup();
    let a1 = ids.generate();
    let a2 = ids.generate();

    AnchornetContract::initialize(&mut env, admin).unwrap();
    AnchornetContract::register_anchor(&mut env, a1).unwrap();
    AnchornetContract::register_anchor(&mut env, a2).unwrap();
    AnchornetContract::set_fee_waiver(&mut env, a1, true).unwrap();
    AnchornetContract::set_fee_waiver(&mut env, a2, true).unwrap();
    assert_eq!(AnchornetContract::fee_waived_anchor_count(&env), 2);

    AnchornetContract::deregister_anchor(&mut env, a1).unwrap();
    assert_eq!(AnchornetContract::fee_waived_anchor_count(&env), 1);
}

#[test]
fn test_fee_waived_anchor_count_matches_list_length() {
    let (mut env, mut ids, admin) = setup();
    let a1 = ids.generate();
    let a2 = ids.generate();
    let a3 = ids.generate();

    AnchornetContract::initialize(&mut env, admin).unwrap();
    AnchornetContract::register_anchor(&mut env, a1).unwrap();
    AnchornetContract::register_anchor(&mut env, a2).unwrap();
    AnchornetContract::register_anchor(&mut env, a3).unwrap();
    AnchornetContract::set_fee_waiver(&mut env, a1, true).unwrap();
    AnchornetContract::set_fee_waiver(&mut env, a3, true).unwrap();

    assert_eq!(
        AnchornetContract::fee_waived_anchor_count(&env) as usize,
        AnchornetContract::list_fee_waived_anchors(&env, 0, 10).len(),
    );
}

#[test]
fn test_register_anchors_batch_registers_all() {
    let (mut env, mut ids, admin) = setup();
    let a1 = ids.generate();
    let a2 = ids.generate();
    let a3 = ids.generate();

    AnchornetContract::initialize(&mut env, admin).unwrap();
    AnchornetContract::register_anchors(&mut env, vec![a1, a2, a3]).unwrap();

    assert!(AnchornetContract::is_anchor(&env, a1));
    assert!(AnchornetContract::is_anchor(&env, a2));
    assert!(AnchornetContract::is_anchor(&env, a3));
    assert_eq!(AnchornetContract::anchor_count(&env), 3);
    let anchors = AnchornetContract::list_anchors(&env, 0, 10);
    assert_eq!(anchors[0], a1);
    assert_eq!(anchors[1], a2);
    assert_eq!(anchors[2], a3);
}

#[test]
fn test_register_anchors_batch_rejects_duplicate_within_batch() {
    let (mut env, mut ids, admin) = setup();
    let a1 = ids.generate();
    let a2 = ids.generate();

    AnchornetContract::initialize(&mut env, admin).unwrap();
    let err = AnchornetContract::register_anchors(&mut env, vec![a1, a2, a1]).unwrap_err();

    assert_eq!(err, Error::AnchorAlreadyRegistered);
    // The whole batch is rejected; neither address is registered.
    assert!(!AnchornetContract::is_anchor(&env, a1));
    assert!(!AnchornetContract::is_anchor(&env, a2));
    assert_eq!(AnchornetContract::anchor_count(&env), 0);
}

#[test]
fn test_register_anchors_batch_rejects_already_registered() {
    let (mut env, mut ids, admin) = setup();
    let a1 = ids.generate();
    let a2 = ids.generate();

    AnchornetContract::initialize(&mut env, admin).unwrap();
    AnchornetContract::register_anchor(&mut env, a1).unwrap();

    let err = AnchornetContract::register_anchors(&mut env, vec![a2, a1]).unwrap_err();
    assert_eq!(err, Error::AnchorAlreadyRegistered);
    assert!(!AnchornetContract::is_anchor(&env, a2));
}

#[test]
fn test_register_anchors_batch_empty_is_noop() {
    let (mut env, _ids, admin) = setup();

    AnchornetContract::initialize(&mut env, admin).unwrap();
    AnchornetContract::register_anchors(&mut env, vec![]).unwrap();

    assert_eq!(AnchornetContract::anchor_count(&env), 0);
}

#[test]
fn test_register_anchors_batch_emits_events_in_order() {
    let (mut env, mut ids, admin) = setup();
    let a1 = ids.generate();
    let a2 = ids.generate();
    let a3 = ids.generate();

    AnchornetContract::initialize(&mut env, admin).unwrap();
    env.take_events();
    AnchornetContract::register_anchors(&mut env, vec![a1, a2, a3]).unwrap();

    assert_eq!(
        env.events(),
        vec![
            Event::AnchorRegistered { anchor: a1 },
            Event::AnchorRegistered { anchor: a2 },
            Event::AnchorRegistered { anchor: a3 },
        ]
    );
}

#[test]
fn test_register_anchors_batch_failure_emits_zero_events() {
    let (mut env, mut ids, admin) = setup();
    let a1 = ids.generate();

    AnchornetContract::initialize(&mut env, admin).unwrap();
    AnchornetContract::register_anchor(&mut env, a1).unwrap();

    let a2 = ids.generate();
    env.take_events();
    let _ = AnchornetContract::register_anchors(&mut env, vec![a2, a1]);

    assert_eq!(env.events(), vec![]);
}
