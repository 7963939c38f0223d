//! The contract's environment and typed storage accessors.
//!
//! [`Env`] holds everything an invocation can observe or change: the
//! contract's stored entries, the log of events published so far, the log
//! of addresses whose authorization was demanded, and the current ledger
//! sequence number. The host drains the two logs after each invocation,
//! checking every demanded authorization before publishing the events and
//! committing the stored entries.
//!
//! Entries mirror the contract's storage keys: singleton configuration
//! (admin, pending admin, operator, paused flag, fee, settlement counter,
//! expiry window) and keyed families (anchors, pools, balances, settlements,
//! accrued fees, waived fee volume, fee waivers, minimum liquidity floors,
//! maximum settlement amounts, per-asset fee overrides), plus the ordered
//! lists of every anchor and asset ever seen.

use vstd::prelude::*;

use crate::events::Event;
use crate::table::{entries_map, get_or, vec_contains, Table};
use crate::types::{Address, AnchorStatus, BalanceKey, Pool, Settlement, Symbol};

verus! {

/// Longest anchor or asset list the host can store.
pub const MAX_LIST_LEN: u32 = 0xffff_ffff;

/// The stored entries of the contract, as mathematical values.
#[verifier::ext_equal]
pub struct StoreView {
    pub admin: Option<Address>,
    pub pending_admin: Option<Address>,
    pub operator: Option<Address>,
    pub paused: bool,
    pub fee_bps: u32,
    pub settlement_count: u64,
    pub settlement_expiry_ledgers: u32,
    pub anchors: Map<Address, bool>,
    pub anchor_list: Seq<Address>,
    pub asset_list: Seq<Symbol>,
    pub pools: Map<Symbol, Pool>,
    pub balances: Map<BalanceKey, i128>,
    pub settlements: Map<u64, Settlement>,
    pub fees_accrued: Map<Symbol, i128>,
    pub waived_fee_volume: Map<Symbol, i128>,
    pub fee_waivers: Map<Address, bool>,
    pub min_liquidity: Map<Symbol, i128>,
    pub max_settlement_amount: Map<Symbol, i128>,
    pub asset_fees: Map<Symbol, u32>,
}

impl StoreView {
    /// Nothing stored yet.
    pub open spec fn empty() -> StoreView {
        StoreView {
            admin: None,
            pending_admin: None,
            operator: None,
            paused: false,
            fee_bps: 0,
            settlement_count: 0,
            settlement_expiry_ledgers: 0,
            anchors: Map::empty(),
            anchor_list: Seq::empty(),
            asset_list: Seq::empty(),
            pools: Map::empty(),
            balances: Map::empty(),
            settlements: Map::empty(),
            fees_accrued: Map::empty(),
            waived_fee_volume: Map::empty(),
            fee_waivers: Map::empty(),
            min_liquidity: Map::empty(),
            max_settlement_amount: Map::empty(),
            asset_fees: Map::empty(),
        }
    }

    /// Whether `anchor` is currently registered.
    pub open spec fn is_anchor(self, anchor: Address) -> bool {
        get_or(self.anchors, anchor, false)
    }

    /// The registration status of `anchor`.
    pub open spec fn anchor_status(self, anchor: Address) -> AnchorStatus {
        if !self.anchors.contains_key(anchor) {
            AnchorStatus::NeverRegistered
        } else if self.anchors[anchor] {
            AnchorStatus::Active
        } else {
            AnchorStatus::Deregistered
        }
    }

    /// The pool of `asset`, empty if none is stored.
    pub open spec fn pool_of(self, asset: Symbol) -> Pool {
        get_or(self.pools, asset, Pool::spec_empty(asset))
    }

    /// `provider`'s balance in `asset`, zero if none is stored.
    pub open spec fn balance_of(self, provider: Address, asset: Symbol) -> i128 {
        get_or(self.balances, BalanceKey { provider, asset }, 0)
    }

    /// Whether `anchor` holds a fee waiver.
    pub open spec fn fee_waived(self, anchor: Address) -> bool {
        get_or(self.fee_waivers, anchor, false)
    }

    /// The minimum liquidity floor of `asset` (zero when disabled).
    pub open spec fn min_liquidity_of(self, asset: Symbol) -> i128 {
        get_or(self.min_liquidity, asset, 0)
    }

    /// The maximum settlement amount of `asset` (zero when disabled).
    pub open spec fn max_settlement_of(self, asset: Symbol) -> i128 {
        get_or(self.max_settlement_amount, asset, 0)
    }

    /// The fee override of `asset`, if any.
    pub open spec fn asset_fee_of(self, asset: Symbol) -> Option<u32> {
        if self.asset_fees.contains_key(asset) {
            Some(self.asset_fees[asset])
        } else {
            None
        }
    }

    /// The fee charged for `asset`: its override, else the global fee.
    pub open spec fn effective_fee_bps(self, asset: Symbol) -> u32 {
        get_or(self.asset_fees, asset, self.fee_bps)
    }

    /// The uncollected fees of `asset`.
    pub open spec fn fees_accrued_of(self, asset: Symbol) -> i128 {
        get_or(self.fees_accrued, asset, 0)
    }

    /// The fee revenue forgone on `asset` because of waivers.
    pub open spec fn waived_volume_of(self, asset: Symbol) -> i128 {
        get_or(self.waived_fee_volume, asset, 0)
    }

    /// The settlement with `id`, if any.
    pub open spec fn settlement_of(self, id: u64) -> Option<Settlement> {
        if self.settlements.contains_key(id) {
            Some(self.settlements[id])
        } else {
            None
        }
    }
}

/// Everything an invocation observes, as mathematical values.
#[verifier::ext_equal]
pub struct EnvView {
    pub store: StoreView,
    pub events: Seq<Event>,
    pub auths: Seq<Address>,
    pub sequence: u32,
}

impl EnvView {
    /// The same environment with `store` stored.
    pub open spec fn with_store(self, store: StoreView) -> EnvView {
        EnvView { store, ..self }
    }

    /// The same environment with `event` published.
    pub open spec fn emit(self, event: Event) -> EnvView {
        EnvView { events: self.events.push(event), ..self }
    }

    /// The same environment with `address`'s authorization demanded.
    pub open spec fn demand(self, address: Address) -> EnvView {
        EnvView { auths: self.auths.push(address), ..self }
    }
}

/// The contract's stored entries.
pub struct Store {
    admin: Option<Address>,
    pending_admin: Option<Address>,
    operator: Option<Address>,
    paused: bool,
    fee_bps: u32,
    settlement_count: u64,
    settlement_expiry_ledgers: u32,
    anchors: Table<Address, bool>,
    anchor_list: Vec<Address>,
    asset_list: Vec<Symbol>,
    pools: Table<Symbol, Pool>,
    balances: Table<BalanceKey, i128>,
    settlements: Table<u64, Settlement>,
    fees_accrued: Table<Symbol, i128>,
    waived_fee_volume: Table<Symbol, i128>,
    fee_waivers: Table<Address, bool>,
    min_liquidity: Table<Symbol, i128>,
    max_settlement_amount: Table<Symbol, i128>,
    asset_fees: Table<Symbol, u32>,
}

impl Store {
    closed spec fn view(&self) -> StoreView {
        StoreView {
            admin: self.admin,
            pending_admin: self.pending_admin,
            operator: self.operator,
            paused: self.paused,
            fee_bps: self.fee_bps,
            settlement_count: self.settlement_count,
            settlement_expiry_ledgers: self.settlement_expiry_ledgers,
            anchors: self.anchors@,
            anchor_list: self.anchor_list@,
            asset_list: self.asset_list@,
            pools: self.pools@,
            balances: self.balances@,
            settlements: self.settlements@,
            fees_accrued: self.fees_accrued@,
            waived_fee_volume: self.waived_fee_volume@,
            fee_waivers: self.fee_waivers@,
            min_liquidity: self.min_liquidity@,
            max_settlement_amount: self.max_settlement_amount@,
            asset_fees: self.asset_fees@,
        }
    }

    closed spec fn wf(&self) -> bool {
        &&& self.anchors.wf()
        &&& self.pools.wf()
        &&& self.balances.wf()
        &&& self.settlements.wf()
        &&& self.fees_accrued.wf()
        &&& self.waived_fee_volume.wf()
        &&& self.fee_waivers.wf()
        &&& self.min_liquidity.wf()
        &&& self.max_settlement_amount.wf()
        &&& self.asset_fees.wf()
        &&& self.anchor_list@.len() <= MAX_LIST_LEN
        &&& self.asset_list@.len() <= MAX_LIST_LEN
    }

    fn new() -> (r: Store)
        ensures
            r.wf(),
            r.view() == StoreView::empty(),
    {
        Store {
            admin: None,
            pending_admin: None,
            operator: None,
            paused: false,
            fee_bps: 0,
            settlement_count: 0,
            settlement_expiry_ledgers: 0,
            anchors: Table::new(),
            anchor_list: Vec::new(),
            asset_list: Vec::new(),
            pools: Table::new(),
            balances: Table::new(),
            settlements: Table::new(),
            fees_accrued: Table::new(),
            waived_fee_volume: Table::new(),
            fee_waivers: Table::new(),
            min_liquidity: Table::new(),
            max_settlement_amount: Table::new(),
            asset_fees: Table::new(),
        }
    }

    fn copy(&self) -> (r: Store)
        requires
            self.wf(),
        ensures
            r.wf(),
            r.view() == self.view(),
    {
        Store {
            admin: self.admin,
            pending_admin: self.pending_admin,
            operator: self.operator,
            paused: self.paused,
            fee_bps: self.fee_bps,
            settlement_count: self.settlement_count,
            settlement_expiry_ledgers: self.settlement_expiry_ledgers,
            anchors: self.anchors.copy(),
            anchor_list: copy_vec(&self.anchor_list),
            asset_list: copy_vec(&self.asset_list),
            pools: self.pools.copy(),
            balances: self.balances.copy(),
            settlements: self.settlements.copy(),
            fees_accrued: self.fees_accrued.copy(),
            waived_fee_volume: self.waived_fee_volume.copy(),
            fee_waivers: self.fee_waivers.copy(),
            min_liquidity: self.min_liquidity.copy(),
            max_settlement_amount: self.max_settlement_amount.copy(),
            asset_fees: self.asset_fees.copy(),
        }
    }
}

/// Returns an identical copy of `v`.
pub fn copy_vec<T: Copy>(v: &Vec<T>) -> (r: Vec<T>)
    ensures
        r@ == v@,
{
    let mut r: Vec<T> = Vec::new();
    let mut i: usize = 0;
    while i < v.len()
        invariant
            i <= v@.len(),
            r@ == v@.take(i as int),
        decreases v.len() - i,
    {
        r.push(v[i]);
        i = i + 1;
        assert(r@ =~= v@.take(i as int));
    }
    assert(r@ =~= v@);
    r
}

/// The stored entries of the contract as plain values, for keeping them
/// between invocations: each table as its list of entries.
pub struct StoreRecord {
    pub admin: Option<Address>,
    pub pending_admin: Option<Address>,
    pub operator: Option<Address>,
    pub paused: bool,
    pub fee_bps: u32,
    pub settlement_count: u64,
    pub settlement_expiry_ledgers: u32,
    pub anchors: Vec<(Address, bool)>,
    pub anchor_list: Vec<Address>,
    pub asset_list: Vec<Symbol>,
    pub pools: Vec<(Symbol, Pool)>,
    pub balances: Vec<(BalanceKey, i128)>,
    pub settlements: Vec<(u64, Settlement)>,
    pub fees_accrued: Vec<(Symbol, i128)>,
    pub waived_fee_volume: Vec<(Symbol, i128)>,
    pub fee_waivers: Vec<(Address, bool)>,
    pub min_liquidity: Vec<(Symbol, i128)>,
    pub max_settlement_amount: Vec<(Symbol, i128)>,
    pub asset_fees: Vec<(Symbol, u32)>,
}

impl View for StoreRecord {
    type V = StoreView;

    /// The stored entries the record describes, a later entry for a key
    /// replacing an earlier one.
    open spec fn view(&self) -> StoreView {
        StoreView {
            admin: self.admin,
            pending_admin: self.pending_admin,
            operator: self.operator,
            paused: self.paused,
            fee_bps: self.fee_bps,
            settlement_count: self.settlement_count,
            settlement_expiry_ledgers: self.settlement_expiry_ledgers,
            anchors: entries_map(self.anchors@),
            anchor_list: self.anchor_list@,
            asset_list: self.asset_list@,
            pools: entries_map(self.pools@),
            balances: entries_map(self.balances@),
            settlements: entries_map(self.settlements@),
            fees_accrued: entries_map(self.fees_accrued@),
            waived_fee_volume: entries_map(self.waived_fee_volume@),
            fee_waivers: entries_map(self.fee_waivers@),
            min_liquidity: entries_map(self.min_liquidity@),
            max_settlement_amount: entries_map(self.max_settlement_amount@),
            asset_fees: entries_map(self.asset_fees@),
        }
    }
}

/// The environment of a contract invocation: stored entries, published
/// events, demanded authorizations and the current ledger sequence.
pub struct Env {
    store: Store,
    events: Vec<Event>,
    auths: Vec<Address>,
    sequence: u32,
}

impl View for Env {
    type V = EnvView;

    closed spec fn view(&self) -> EnvView {
        EnvView { store: self.store.view(), events: self.events@, auths: self.auths@, sequence: self.sequence }
    }
}

impl Env {
    /// The environment's internal tables are consistent.
    pub closed spec fn wf(&self) -> bool {
        self.store.wf()
    }

    /// A fresh environment: nothing stored, no events, no demanded
    /// authorizations, ledger sequence zero.
    pub open spec fn spec_initial() -> EnvView {
        EnvView { store: StoreView::empty(), events: Seq::empty(), auths: Seq::empty(), sequence: 0 }
    }

    /// Creates a fresh environment.
    pub fn new() -> (r: Env)
        ensures
            r.wf(),
            r@ == Env::spec_initial(),
    {
        Env { store: Store::new(), events: Vec::new(), auths: Vec::new(), sequence: 0 }
    }

    /// Returns an identical copy of the environment.
    pub fn snapshot(&self) -> (r: Env)
        requires
            self.wf(),
        ensures
            r.wf(),
            r@ == self@,
    {
        Env {
            store: self.store.copy(),
            events: copy_vec(&self.events),
            auths: copy_vec(&self.auths),
            sequence: self.sequence,
        }
    }

    /// A fresh invocation over the entries that `record` describes, with no
    /// events and no demanded authorizations, at ledger `sequence`.
    pub fn from_record(record: &StoreRecord, sequence: u32) -> (r: Env)
        requires
            record.anchor_list@.len() <= MAX_LIST_LEN,
            record.asset_list@.len() <= MAX_LIST_LEN,
        ensures
            r.wf(),
            r@ == (EnvView { store: record@, events: Seq::empty(), auths: Seq::empty(), sequence }),
    {
        let store = Store {
            admin: record.admin,
            pending_admin: record.pending_admin,
            operator: record.operator,
            paused: record.paused,
            fee_bps: record.fee_bps,
            settlement_count: record.settlement_count,
            settlement_expiry_ledgers: record.settlement_expiry_ledgers,
            anchors: Table::from_entries(&record.anchors),
            anchor_list: copy_vec(&record.anchor_list),
            asset_list: copy_vec(&record.asset_list),
            pools: Table::from_entries(&record.pools),
            balances: Table::from_entries(&record.balances),
            settlements: Table::from_entries(&record.settlements),
            fees_accrued: Table::from_entries(&record.fees_accrued),
            waived_fee_volume: Table::from_entries(&record.waived_fee_volume),
            fee_waivers: Table::from_entries(&record.fee_waivers),
            min_liquidity: Table::from_entries(&record.min_liquidity),
            max_settlement_amount: Table::from_entries(&record.max_settlement_amount),
            asset_fees: Table::from_entries(&record.asset_fees),
        };
        Env { store, events: Vec::new(), auths: Vec::new(), sequence }
    }

    /// The stored entries as a record, each table key once.
    pub fn to_record(&self) -> (r: StoreRecord)
        requires
            self.wf(),
        ensures
            r@ == self@.store,
            r.anchor_list@.len() <= MAX_LIST_LEN,
            r.asset_list@.len() <= MAX_LIST_LEN,
    {
        let s = &self.store;
        StoreRecord {
            admin: s.admin,
            pending_admin: s.pending_admin,
            operator: s.operator,
            paused: s.paused,
            fee_bps: s.fee_bps,
            settlement_count: s.settlement_count,
            settlement_expiry_ledgers: s.settlement_expiry_ledgers,
            anchors: s.anchors.entries(),
            anchor_list: copy_vec(&s.anchor_list),
            asset_list: copy_vec(&s.asset_list),
            pools: s.pools.entries(),
            balances: s.balances.entries(),
            settlements: s.settlements.entries(),
            fees_accrued: s.fees_accrued.entries(),
            waived_fee_volume: s.waived_fee_volume.entries(),
            fee_waivers: s.fee_waivers.entries(),
            min_liquidity: s.min_liquidity.entries(),
            max_settlement_amount: s.max_settlement_amount.entries(),
            asset_fees: s.asset_fees.entries(),
        }
    }

    /// Publishes `event`.
    pub fn emit(&mut self, event: Event)
        requires
            old(self).wf(),
        ensures
            final(self).wf(),
            final(self)@ == old(self)@.emit(event),
    {
        self.events.push(event);
    }

    /// Demands `address`'s authorization for the current invocation.
    pub fn require_auth(&mut self, address: &Address)
        requires
            old(self).wf(),
        ensures
            final(self).wf(),
            final(self)@ == old(self)@.demand(*address),
    {
        self.auths.push(*address);
    }

    /// The events published so far.
    pub fn events(&self) -> (r: Vec<Event>)
        ensures
            r@ == self@.events,
    {
        copy_vec(&self.events)
    }

    /// Removes and returns the events published so far.
    pub fn take_events(&mut self) -> (r: Vec<Event>)
        requires
            old(self).wf(),
        ensures
            final(self).wf(),
            r@ == old(self)@.events,
            final(self)@ == (EnvView { events: Seq::empty(), ..old(self)@ }),
    {
        let r = copy_vec(&self.events);
        self.events = Vec::new();
        r
    }

    /// The addresses whose authorization was demanded so far, in order.
    pub fn auths(&self) -> (r: Vec<Address>)
        ensures
            r@ == self@.auths,
    {
        copy_vec(&self.auths)
    }

    /// Removes and returns the addresses whose authorization was demanded.
    pub fn take_auths(&mut self) -> (r: Vec<Address>)
        requires
            old(self).wf(),
        ensures
            final(self).wf(),
            r@ == old(self)@.auths,
            final(self)@ == (EnvView { auths: Seq::empty(), ..old(self)@ }),
    {
        let r = copy_vec(&self.auths);
        self.auths = Vec::new();
        r
    }

    /// The current ledger sequence number.
    pub fn ledger_sequence(&self) -> (r: u32)
        ensures
            r == self@.sequence,
    {
        self.sequence
    }

    /// Sets the current ledger sequence number.
    pub fn set_ledger_sequence(&mut self, sequence: u32)
        requires
            old(self).wf(),
        ensures
            final(self).wf(),
            final(self)@ == (EnvView { sequence, ..old(self)@ }),
    {
        self.sequence = sequence;
    }
}

impl Default for Env {
    fn default() -> (r: Env)
        ensures
            r.wf(),
            r@ == Env::spec_initial(),
    {
        Env::new()
    }
}

/// Returns `true` once an administrator has been set.
pub fn has_admin(env: &Env) -> (r: bool)
    ensures
        r == env@.store.admin is Some,
{
    env.store.admin.is_some()
}

/// Reads the administrator address; one must have been set.
pub fn get_admin(env: &Env) -> (r: Address)
    requires
        env@.store.admin is Some,
    ensures
        env@.store.admin == Some(r),
{
    env.store.admin.unwrap()
}

/// Stores the administrator address.
pub fn set_admin(env: &mut Env, admin: &Address)
    requires
        old(env).wf(),
    ensures
        final(env).wf(),
        final(env)@ == old(env)@.with_store(StoreView { admin: Some(*admin), ..old(env)@.store }),
{
    env.store.admin = Some(*admin);
}

/// Returns `true` if an admin transfer has been proposed and not yet
/// accepted or overwritten.
pub fn has_pending_admin(env: &Env) -> (r: bool)
    ensures
        r == env@.store.pending_admin is Some,
{
    env.store.pending_admin.is_some()
}

/// Reads the proposed next administrator; one must be pending.
pub fn get_pending_admin(env: &Env) -> (r: Address)
    requires
        env@.store.pending_admin is Some,
    ensures
        env@.store.pending_admin == Some(r),
{
    env.store.pending_admin.unwrap()
}

/// Stores the proposed next administrator.
pub fn set_pending_admin(env: &mut Env, candidate: &Address)
    requires
        old(env).wf(),
    ensures
        final(env).wf(),
        final(env)@ == old(env)@.with_store(
            StoreView { pending_admin: Some(*candidate), ..old(env)@.store },
        ),
{
    env.store.pending_admin = Some(*candidate);
}

/// Clears any proposed admin transfer.
pub fn clear_pending_admin(env: &mut Env)
    requires
        old(env).wf(),
    ensures
        final(env).wf(),
        final(env)@ == old(env)@.with_store(StoreView { pending_admin: None, ..old(env)@.store }),
{
    env.store.pending_admin = None;
}

/// Returns `true` once an operator has been appointed.
pub fn has_operator(env: &Env) -> (r: bool)
    ensures
        r == env@.store.operator is Some,
{
    env.store.operator.is_some()
}

/// Reads the operator address; one must be appointed.
pub fn get_operator(env: &Env) -> (r: Address)
    requires
        env@.store.operator is Some,
    ensures
        env@.store.operator == Some(r),
{
    env.store.operator.unwrap()
}

/// Stores the operator address.
pub fn set_operator(env: &mut Env, operator: &Address)
    requires
        old(env).wf(),
    ensures
        final(env).wf(),
        final(env)@ == old(env)@.with_store(StoreView { operator: Some(*operator), ..old(env)@.store }),
{
    env.store.operator = Some(*operator);
}

/// Removes the operator address.
pub fn clear_operator(env: &mut Env)
    requires
        old(env).wf(),
    ensures
        final(env).wf(),
        final(env)@ == old(env)@.with_store(StoreView { operator: None, ..old(env)@.store }),
{
    env.store.operator = None;
}

/// Returns `true` if the contract is currently paused.
pub fn is_paused(env: &Env) -> (r: bool)
    ensures
        r == env@.store.paused,
{
    env.store.paused
}

/// Sets the paused flag.
pub fn set_paused(env: &mut Env, paused: bool)
    requires
        old(env).wf(),
    ensures
        final(env).wf(),
        final(env)@ == old(env)@.with_store(StoreView { paused, ..old(env)@.store }),
{
    env.store.paused = paused;
}

/// Reads the protocol fee in basis points.
pub fn get_fee_bps(env: &Env) -> (r: u32)
    ensures
        r == env@.store.fee_bps,
{
    env.store.fee_bps
}

/// Stores the protocol fee in basis points.
pub fn set_fee_bps(env: &mut Env, bps: u32)
    requires
        old(env).wf(),
    ensures
        final(env).wf(),
        final(env)@ == old(env)@.with_store(StoreView { fee_bps: bps, ..old(env)@.store }),
{
    env.store.fee_bps = bps;
}

/// Returns `true` if `anchor` is currently registered.
pub fn is_anchor(env: &Env, anchor: &Address) -> (r: bool)
    requires
        env.wf(),
    ensures
        r == env@.store.is_anchor(*anchor),
{
    match env.store.anchors.get(anchor) {
        Some(flag) => flag,
        None => false,
    }
}

/// Reads the registration status of `anchor`.
pub fn anchor_status(env: &Env, anchor: &Address) -> (r: AnchorStatus)
    requires
        env.wf(),
    ensures
        r == env@.store.anchor_status(*anchor),
{
    match env.store.anchors.get(anchor) {
        Some(true) => AnchorStatus::Active,
        Some(false) => AnchorStatus::Deregistered,
        None => AnchorStatus::NeverRegistered,
    }
}

/// Marks `anchor` as registered.
pub fn set_anchor(env: &mut Env, anchor: &Address)
    requires
        old(env).wf(),
    ensures
        final(env).wf(),
        final(env)@ == old(env)@.with_store(
            StoreView { anchors: old(env)@.store.anchors.insert(*anchor, true), ..old(env)@.store },
        ),
{
    set_anchor_flag(env, anchor, true);
}

/// Sets the registration flag of `anchor`.
pub fn set_anchor_flag(env: &mut Env, anchor: &Address, registered: bool)
    requires
        old(env).wf(),
    ensures
        final(env).wf(),
        final(env)@ == old(env)@.with_store(
            StoreView {
                anchors: old(env)@.store.anchors.insert(*anchor, registered),
                ..old(env)@.store
            },
        ),
{
    env.store.anchors.set(*anchor, registered);
}

/// Reads the ordered list of every address ever registered as an anchor.
///
/// The list is append-only: deregistering an anchor does not remove it.
pub fn get_anchor_list(env: &Env) -> (r: Vec<Address>)
    requires
        env.wf(),
    ensures
        r@ == env@.store.anchor_list,
        r@.len() <= MAX_LIST_LEN,
{
    copy_vec(&env.store.anchor_list)
}

/// Appends `anchor` to the anchor list if it is not already present.
pub fn remember_anchor(env: &mut Env, anchor: &Address)
    requires
        old(env).wf(),
        !old(env)@.store.anchor_list.contains(*anchor) ==> old(env)@.store.anchor_list.len()
            < MAX_LIST_LEN,
    ensures
        final(env).wf(),
        final(env)@ == old(env)@.with_store(
            StoreView {
                anchor_list: if old(env)@.store.anchor_list.contains(*anchor) {
                    old(env)@.store.anchor_list
                } else {
                    old(env)@.store.anchor_list.push(*anchor)
                },
                ..old(env)@.store
            },
        ),
{
    if vec_contains(&env.store.anchor_list, anchor) {
        return;
    }
    env.store.anchor_list.push(*anchor);
}

/// Reads the ordered list of every asset that has ever had liquidity
/// provided, in first-use order.
pub fn get_asset_list(env: &Env) -> (r: Vec<Symbol>)
    requires
        env.wf(),
    ensures
        r@ == env@.store.asset_list,
        r@.len() <= MAX_LIST_LEN,
{
    copy_vec(&env.store.asset_list)
}

/// Appends `asset` to the asset list if it is not already present,
/// returning whether it was appended.
pub fn remember_asset(env: &mut Env, asset: &Symbol) -> (r: bool)
    requires
        old(env).wf(),
        !old(env)@.store.asset_list.contains(*asset) ==> old(env)@.store.asset_list.len()
            < MAX_LIST_LEN,
    ensures
        final(env).wf(),
        r == !old(env)@.store.asset_list.contains(*asset),
        final(env)@ == old(env)@.with_store(
            StoreView {
                asset_list: if r {
                    old(env)@.store.asset_list.push(*asset)
                } else {
                    old(env)@.store.asset_list
                },
                ..old(env)@.store
            },
        ),
{
    if vec_contains(&env.store.asset_list, asset) {
        false
    } else {
        env.store.asset_list.push(*asset);
        true
    }
}

/// Reads the pool of `asset`, an empty pool if none exists.
pub fn get_pool(env: &Env, asset: &Symbol) -> (r: Pool)
    requires
        env.wf(),
    ensures
        r == env@.store.pool_of(*asset),
{
    match env.store.pools.get(asset) {
        Some(pool) => pool,
        None => Pool::empty(*asset),
    }
}

/// Returns `true` if a pool entry exists for `asset`.
pub fn has_pool(env: &Env, asset: &Symbol) -> (r: bool)
    requires
        env.wf(),
    ensures
        r == env@.store.pools.contains_key(*asset),
{
    env.store.pools.contains(asset)
}

/// Stores `pool` for `asset`.
pub fn set_pool(env: &mut Env, asset: &Symbol, pool: &Pool)
    requires
        old(env).wf(),
    ensures
        final(env).wf(),
        final(env)@ == old(env)@.with_store(
            StoreView { pools: old(env)@.store.pools.insert(*asset, *pool), ..old(env)@.store },
        ),
{
    env.store.pools.set(*asset, *pool);
}

/// Reads `provider`'s balance in `asset`, zero if none.
pub fn get_balance(env: &Env, provider: &Address, asset: &Symbol) -> (r: i128)
    requires
        env.wf(),
    ensures
        r == env@.store.balance_of(*provider, *asset),
{
    match env.store.balances.get(&BalanceKey { provider: *provider, asset: *asset }) {
        Some(amount) => amount,
        None => 0,
    }
}

/// Stores `provider`'s balance in `asset`.
pub fn set_balance(env: &mut Env, provider: &Address, asset: &Symbol, amount: i128)
    requires
        old(env).wf(),
    ensures
        final(env).wf(),
        final(env)@ == old(env)@.with_store(
            StoreView {
                balances: old(env)@.store.balances.insert(
                    BalanceKey { provider: *provider, asset: *asset },
                    amount,
                ),
                ..old(env)@.store
            },
        ),
{
    env.store.balances.set(BalanceKey { provider: *provider, asset: *asset }, amount);
}

/// Reads the settlement id counter.
pub fn get_settlement_count(env: &Env) -> (r: u64)
    ensures
        r == env@.store.settlement_count,
{
    env.store.settlement_count
}

/// Stores the settlement id counter.
pub fn set_settlement_count(env: &mut Env, count: u64)
    requires
        old(env).wf(),
    ensures
        final(env).wf(),
        final(env)@ == old(env)@.with_store(
            StoreView { settlement_count: count, ..old(env)@.store },
        ),
{
    env.store.settlement_count = count;
}

/// Reads the settlement with `id`, if it exists.
pub fn get_settlement(env: &Env, id: u64) -> (r: Option<Settlement>)
    requires
        env.wf(),
    ensures
        r == env@.store.settlement_of(id),
{
    env.store.settlements.get(&id)
}

/// Stores `settlement` under its id.
pub fn set_settlement(env: &mut Env, settlement: &Settlement)
    requires
        old(env).wf(),
    ensures
        final(env).wf(),
        final(env)@ == old(env)@.with_store(
            StoreView {
                settlements: old(env)@.store.settlements.insert(settlement.id, *settlement),
                ..old(env)@.store
            },
        ),
{
    env.store.settlements.set(settlement.id, *settlement);
}

/// Returns `true` if `anchor` is exempt from protocol settlement fees.
pub fn is_fee_waived(env: &Env, anchor: &Address) -> (r: bool)
    requires
        env.wf(),
    ensures
        r == env@.store.fee_waived(*anchor),
{
    match env.store.fee_waivers.get(anchor) {
        Some(flag) => flag,
        None => false,
    }
}

/// Sets whether `anchor` is exempt from protocol settlement fees.
pub fn set_fee_waiver(env: &mut Env, anchor: &Address, waived: bool)
    requires
        old(env).wf(),
    ensures
        final(env).wf(),
        final(env)@ == old(env)@.with_store(
            StoreView {
                fee_waivers: old(env)@.store.fee_waivers.insert(*anchor, waived),
                ..old(env)@.store
            },
        ),
{
    env.store.fee_waivers.set(*anchor, waived);
}

/// Reads the settlement expiry window in ledgers (zero: never expire).
pub fn get_settlement_expiry_ledgers(env: &Env) -> (r: u32)
    ensures
        r == env@.store.settlement_expiry_ledgers,
{
    env.store.settlement_expiry_ledgers
}

/// Stores the settlement expiry window in ledgers.
pub fn set_settlement_expiry_ledgers(env: &mut Env, ledgers: u32)
    requires
        old(env).wf(),
    ensures
        final(env).wf(),
        final(env)@ == old(env)@.with_store(
            StoreView { settlement_expiry_ledgers: ledgers, ..old(env)@.store },
        ),
{
    env.store.settlement_expiry_ledgers = ledgers;
}

/// Reads the minimum liquidity floor of `asset` (zero: disabled).
pub fn get_min_liquidity(env: &Env, asset: &Symbol) -> (r: i128)
    requires
        env.wf(),
    ensures
        r == env@.store.min_liquidity_of(*asset),
{
    match env.store.min_liquidity.get(asset) {
        Some(floor) => floor,
        None => 0,
    }
}

/// Stores the minimum liquidity floor of `asset`.
pub fn set_min_liquidity(env: &mut Env, asset: &Symbol, floor: i128)
    requires
        old(env).wf(),
    ensures
        final(env).wf(),
        final(env)@ == old(env)@.with_store(
            StoreView {
                min_liquidity: old(env)@.store.min_liquidity.insert(*asset, floor),
                ..old(env)@.store
            },
        ),
{
    env.store.min_liquidity.set(*asset, floor);
}

/// Reads the maximum settlement amount of `asset` (zero: disabled).
pub fn get_max_settlement_amount(env: &Env, asset: &Symbol) -> (r: i128)
    requires
        env.wf(),
    ensures
        r == env@.store.max_settlement_of(*asset),
{
    match env.store.max_settlement_amount.get(asset) {
        Some(amount) => amount,
        None => 0,
    }
}

/// Stores the maximum settlement amount of `asset`.
pub fn set_max_settlement_amount(env: &mut Env, asset: &Symbol, amount: i128)
    requires
        old(env).wf(),
    ensures
        final(env).wf(),
        final(env)@ == old(env)@.with_store(
            StoreView {
                max_settlement_amount: old(env)@.store.max_settlement_amount.insert(*asset, amount),
                ..old(env)@.store
            },
        ),
{
    env.store.max_settlement_amount.set(*asset, amount);
}

/// Reads the fee override of `asset`, if one is configured.
pub fn get_asset_fee(env: &Env, asset: &Symbol) -> (r: Option<u32>)
    requires
        env.wf(),
    ensures
        r == env@.store.asset_fee_of(*asset),
{
    env.store.asset_fees.get(asset)
}

/// Stores a fee override for `asset`.
pub fn set_asset_fee(env: &mut Env, asset: &Symbol, bps: u32)
    requires
        old(env).wf(),
    ensures
        final(env).wf(),
        final(env)@ == old(env)@.with_store(
            StoreView { asset_fees: old(env)@.store.asset_fees.insert(*asset, bps), ..old(env)@.store },
        ),
{
    env.store.asset_fees.set(*asset, bps);
}

/// Removes any fee override for `asset`, reverting it to the global fee.
pub fn clear_asset_fee(env: &mut Env, asset: &Symbol)
    requires
        old(env).wf(),
    ensures
        final(env).wf(),
        final(env)@ == old(env)@.with_store(
            StoreView { asset_fees: old(env)@.store.asset_fees.remove(*asset), ..old(env)@.store },
        ),
{
    env.store.asset_fees.remove(asset);
}

/// Reads the uncollected protocol fees of `asset`.
pub fn get_fees_accrued(env: &Env, asset: &Symbol) -> (r: i128)
    requires
        env.wf(),
    ensures
        r == env@.store.fees_accrued_of(*asset),
{
    match env.store.fees_accrued.get(asset) {
        Some(amount) => amount,
        None => 0,
    }
}

/// Stores the uncollected protocol fees of `asset`.
pub fn set_fees_accrued(env: &mut Env, asset: &Symbol, amount: i128)
    requires
        old(env).wf(),
    ensures
        final(env).wf(),
        final(env)@ == old(env)@.with_store(
            StoreView {
                fees_accrued: old(env)@.store.fees_accrued.insert(*asset, amount),
                ..old(env)@.store
            },
        ),
{
    env.store.fees_accrued.set(*asset, amount);
}

/// Reads the fee revenue forgone on `asset` because of waivers.
pub fn get_waived_fee_volume(env: &Env, asset: &Symbol) -> (r: i128)
    requires
        env.wf(),
    ensures
        r == env@.store.waived_volume_of(*asset),
{
    match env.store.waived_fee_volume.get(asset) {
        Some(amount) => amount,
        None => 0,
    }
}

/// Stores the fee revenue forgone on `asset` because of waivers.
pub fn set_waived_fee_volume(env: &mut Env, asset: &Symbol, amount: i128)
    requires
        old(env).wf(),
    ensures
        final(env).wf(),
        final(env)@ == old(env)@.with_store(
            StoreView {
                waived_fee_volume: old(env)@.store.waived_fee_volume.insert(*asset, amount),
                ..old(env)@.store
            },
        ),
{
    env.store.waived_fee_volume.set(*asset, amount);
}

} // verus!
