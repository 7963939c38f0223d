//! Event publishing helpers.
//!
//! Indexers (the AnchorNet backend) subscribe to these events to keep an
//! off-chain view of pool liquidity in sync with on-chain state. Each helper
//! appends exactly one [`Event`] to the environment's event log; the host
//! publishes the log once the invocation completes.

use vstd::prelude::*;

use crate::storage::Env;
use crate::types::{Address, Symbol};

verus! {

/// An event published by the contract, with its topics and data.
#[derive(Clone, Copy, Debug, PartialEq, Eq, Structural)]
pub enum Event {
    /// Topics `("init",)`, data: the admin.
    Initialized { admin: Address },
    /// Topics `("admin",)`, data: the new admin.
    AdminChanged { new_admin: Address },
    /// Topics `("propose",)`, data: the candidate.
    AdminProposed { candidate: Address },
    /// Topics `("anchor", anchor)`.
    AnchorRegistered { anchor: Address },
    /// Topics `("provide", provider, asset)`, data: the amount.
    LiquidityProvided { provider: Address, asset: Symbol, amount: i128 },
    /// Topics `("onboarded", asset)`.
    AssetOnboarded { asset: Symbol },
    /// Topics `("withdraw", provider, asset)`, data: the amount.
    LiquidityWithdrawn { provider: Address, asset: Symbol, amount: i128 },
    /// Topics `("paused",)`, data: the new flag.
    PausedChanged { paused: bool },
    /// Topics `("fee",)`, data: the new fee in bps.
    FeeChanged { bps: u32 },
    /// Topics `("deanchor", anchor)`.
    AnchorRemoved { anchor: Address },
    /// Topics `("settle", anchor, asset)`, data: the settlement id.
    SettlementOpened { id: u64, anchor: Address, asset: Symbol },
    /// Topics `("executed", id)`.
    SettlementExecuted { id: u64 },
    /// Topics `("cancelled", id)`.
    SettlementCancelled { id: u64 },
    /// Topics `("waiver", anchor)`, data: the new flag.
    FeeWaiverChanged { anchor: Address, waived: bool },
    /// Topics `("collect", asset)`, data: the collected amount.
    FeesCollected { asset: Symbol, amount: i128 },
    /// Topics `("expiry",)`, data: the window in ledgers.
    SettlementExpiryChanged { ledgers: u32 },
    /// Topics `("expired", id)`.
    SettlementExpired { id: u64 },
    /// Topics `("minliq", asset)`, data: the floor.
    MinLiquidityChanged { asset: Symbol, floor: i128 },
    /// Topics `("operator",)`, data: the operator.
    OperatorChanged { operator: Address },
    /// Topics `("op_clear",)`.
    OperatorCleared,
    /// Topics `("maxamt", asset)`, data: the cap.
    MaxSettlementAmountChanged { asset: Symbol, amount: i128 },
    /// Topics `("assetfee", asset)`, data: the fee in bps.
    AssetFeeChanged { asset: Symbol, bps: u32 },
    /// Topics `("feeclear", asset)`.
    AssetFeeCleared { asset: Symbol },
}

/// Emitted once when the contract is initialized.
pub fn initialized(env: &mut Env, admin: &Address)
    requires
        old(env).wf(),
    ensures
        final(env).wf(),
        final(env)@ == old(env)@.emit(Event::Initialized { admin: *admin }),
{
    env.emit(Event::Initialized { admin: *admin });
}

/// Emitted when the administrator changes, directly or through an accepted
/// proposal.
pub fn admin_changed(env: &mut Env, new_admin: &Address)
    requires
        old(env).wf(),
    ensures
        final(env).wf(),
        final(env)@ == old(env)@.emit(Event::AdminChanged { new_admin: *new_admin }),
{
    env.emit(Event::AdminChanged { new_admin: *new_admin });
}

/// Emitted when an admin transfer is proposed.
pub fn admin_proposed(env: &mut Env, candidate: &Address)
    requires
        old(env).wf(),
    ensures
        final(env).wf(),
        final(env)@ == old(env)@.emit(Event::AdminProposed { candidate: *candidate }),
{
    env.emit(Event::AdminProposed { candidate: *candidate });
}

/// Emitted when an anchor is registered.
pub fn anchor_registered(env: &mut Env, anchor: &Address)
    requires
        old(env).wf(),
    ensures
        final(env).wf(),
        final(env)@ == old(env)@.emit(Event::AnchorRegistered { anchor: *anchor }),
{
    env.emit(Event::AnchorRegistered { anchor: *anchor });
}

/// Emitted when liquidity is provided.
pub fn liquidity_provided(env: &mut Env, provider: &Address, asset: &Symbol, amount: i128)
    requires
        old(env).wf(),
    ensures
        final(env).wf(),
        final(env)@ == old(env)@.emit(
            Event::LiquidityProvided { provider: *provider, asset: *asset, amount },
        ),
{
    env.emit(Event::LiquidityProvided { provider: *provider, asset: *asset, amount });
}

/// Emitted when an asset receives liquidity for the first time.
pub fn asset_onboarded(env: &mut Env, asset: &Symbol)
    requires
        old(env).wf(),
    ensures
        final(env).wf(),
        final(env)@ == old(env)@.emit(Event::AssetOnboarded { asset: *asset }),
{
    env.emit(Event::AssetOnboarded { asset: *asset });
}

/// Emitted when liquidity is withdrawn.
pub fn liquidity_withdrawn(env: &mut Env, provider: &Address, asset: &Symbol, amount: i128)
    requires
        old(env).wf(),
    ensures
        final(env).wf(),
        final(env)@ == old(env)@.emit(
            Event::LiquidityWithdrawn { provider: *provider, asset: *asset, amount },
        ),
{
    env.emit(Event::LiquidityWithdrawn { provider: *provider, asset: *asset, amount });
}

/// Emitted when the paused flag changes.
pub fn paused_changed(env: &mut Env, paused: bool)
    requires
        old(env).wf(),
    ensures
        final(env).wf(),
        final(env)@ == old(env)@.emit(Event::PausedChanged { paused }),
{
    env.emit(Event::PausedChanged { paused });
}

/// Emitted when the protocol fee changes.
pub fn fee_changed(env: &mut Env, bps: u32)
    requires
        old(env).wf(),
    ensures
        final(env).wf(),
        final(env)@ == old(env)@.emit(Event::FeeChanged { bps }),
{
    env.emit(Event::FeeChanged { bps });
}

/// Emitted when an anchor is deregistered.
pub fn anchor_removed(env: &mut Env, anchor: &Address)
    requires
        old(env).wf(),
    ensures
        final(env).wf(),
        final(env)@ == old(env)@.emit(Event::AnchorRemoved { anchor: *anchor }),
{
    env.emit(Event::AnchorRemoved { anchor: *anchor });
}

/// Emitted when a settlement is opened.
pub fn settlement_opened(env: &mut Env, id: u64, anchor: &Address, asset: &Symbol)
    requires
        old(env).wf(),
    ensures
        final(env).wf(),
        final(env)@ == old(env)@.emit(Event::SettlementOpened { id, anchor: *anchor, asset: *asset }),
{
    env.emit(Event::SettlementOpened { id, anchor: *anchor, asset: *asset });
}

/// Emitted when a settlement is executed.
pub fn settlement_executed(env: &mut Env, id: u64)
    requires
        old(env).wf(),
    ensures
        final(env).wf(),
        final(env)@ == old(env)@.emit(Event::SettlementExecuted { id }),
{
    env.emit(Event::SettlementExecuted { id });
}

/// Emitted when a settlement is cancelled.
pub fn settlement_cancelled(env: &mut Env, id: u64)
    requires
        old(env).wf(),
    ensures
        final(env).wf(),
        final(env)@ == old(env)@.emit(Event::SettlementCancelled { id }),
{
    env.emit(Event::SettlementCancelled { id });
}

/// Emitted when an anchor's fee waiver flag changes.
pub fn fee_waiver_changed(env: &mut Env, anchor: &Address, waived: bool)
    requires
        old(env).wf(),
    ensures
        final(env).wf(),
        final(env)@ == old(env)@.emit(Event::FeeWaiverChanged { anchor: *anchor, waived }),
{
    env.emit(Event::FeeWaiverChanged { anchor: *anchor, waived });
}

/// Emitted when accrued fees are collected.
pub fn fees_collected(env: &mut Env, asset: &Symbol, amount: i128)
    requires
        old(env).wf(),
    ensures
        final(env).wf(),
        final(env)@ == old(env)@.emit(Event::FeesCollected { asset: *asset, amount }),
{
    env.emit(Event::FeesCollected { asset: *asset, amount });
}

/// Emitted when the settlement expiry window changes.
pub fn settlement_expiry_changed(env: &mut Env, ledgers: u32)
    requires
        old(env).wf(),
    ensures
        final(env).wf(),
        final(env)@ == old(env)@.emit(Event::SettlementExpiryChanged { ledgers }),
{
    env.emit(Event::SettlementExpiryChanged { ledgers });
}

/// Emitted when a timed-out settlement is reclaimed.
pub fn settlement_expired(env: &mut Env, id: u64)
    requires
        old(env).wf(),
    ensures
        final(env).wf(),
        final(env)@ == old(env)@.emit(Event::SettlementExpired { id }),
{
    env.emit(Event::SettlementExpired { id });
}

/// Emitted when an asset's minimum liquidity floor changes.
pub fn min_liquidity_changed(env: &mut Env, asset: &Symbol, floor: i128)
    requires
        old(env).wf(),
    ensures
        final(env).wf(),
        final(env)@ == old(env)@.emit(Event::MinLiquidityChanged { asset: *asset, floor }),
{
    env.emit(Event::MinLiquidityChanged { asset: *asset, floor });
}

/// Emitted when the operator address changes.
pub fn operator_changed(env: &mut Env, operator: &Address)
    requires
        old(env).wf(),
    ensures
        final(env).wf(),
        final(env)@ == old(env)@.emit(Event::OperatorChanged { operator: *operator }),
{
    env.emit(Event::OperatorChanged { operator: *operator });
}

/// Emitted when the operator role is revoked.
pub fn operator_cleared(env: &mut Env)
    requires
        old(env).wf(),
    ensures
        final(env).wf(),
        final(env)@ == old(env)@.emit(Event::OperatorCleared),
{
    env.emit(Event::OperatorCleared);
}

/// Emitted when an asset's maximum settlement amount changes.
pub fn max_settlement_amount_changed(env: &mut Env, asset: &Symbol, amount: i128)
    requires
        old(env).wf(),
    ensures
        final(env).wf(),
        final(env)@ == old(env)@.emit(Event::MaxSettlementAmountChanged { asset: *asset, amount }),
{
    env.emit(Event::MaxSettlementAmountChanged { asset: *asset, amount });
}

/// Emitted when an asset's fee override is set.
pub fn asset_fee_changed(env: &mut Env, asset: &Symbol, bps: u32)
    requires
        old(env).wf(),
    ensures
        final(env).wf(),
        final(env)@ == old(env)@.emit(Event::AssetFeeChanged { asset: *asset, bps }),
{
    env.emit(Event::AssetFeeChanged { asset: *asset, bps });
}

/// Emitted when an asset's fee override is cleared.
pub fn asset_fee_cleared(env: &mut Env, asset: &Symbol)
    requires
        old(env).wf(),
    ensures
        final(env).wf(),
        final(env)@ == old(env)@.emit(Event::AssetFeeCleared { asset: *asset }),
{
    env.emit(Event::AssetFeeCleared { asset: *asset });
}

} // verus!
