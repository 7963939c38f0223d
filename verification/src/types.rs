//! On-chain data types for the AnchorNet liquidity contract.

use vstd::prelude::*;
use vstd::string::StringSliceAdditionalSpecFns;
use vstd::string::StrSliceExecFns;

verus! {

/// The kind of account an [`Address`] refers to.
#[derive(Clone, Copy, Debug, PartialEq, Eq, Structural, Hash)]
pub enum AddressKind {
    /// A Stellar account identified by its ed25519 public key.
    Account,
    /// A contract identified by its 32-byte contract id.
    Contract,
}

/// A Stellar address: its kind and its 32-byte key, split into the
/// big-endian upper (`key_hi`) and lower (`key_lo`) halves.
#[derive(Clone, Copy, Debug, PartialEq, Eq, Structural, Hash)]
pub struct Address {
    pub kind: AddressKind,
    pub key_hi: u128,
    pub key_lo: u128,
}

/// Longest symbol accepted, in characters.
pub const MAX_SYMBOL_LEN: usize = 32;

/// An asset symbol of at most 32 characters from `[a-zA-Z0-9_]`.
///
/// The characters are packed big-endian into two 16-byte halves, padded with
/// zero bytes, together with the symbol's length; two symbols are equal
/// exactly when their character strings are.
#[derive(Clone, Copy, Debug, PartialEq, Eq, Structural, Hash)]
pub struct Symbol {
    /// Number of characters.
    pub len: u8,
    /// Characters one to sixteen.
    pub hi: u128,
    /// Characters seventeen to thirty-two.
    pub lo: u128,
}

/// Whether `b` may appear in a symbol: an ASCII letter, digit or `_`.
pub open spec fn is_symbol_byte(b: u8) -> bool {
    ||| (97 <= b && b <= 122)
    ||| (65 <= b && b <= 90)
    ||| (48 <= b && b <= 57)
    ||| b == 95
}

/// Whether `bytes` spells a valid symbol.
pub open spec fn is_symbol_text(bytes: Seq<u8>) -> bool {
    &&& bytes.len() <= MAX_SYMBOL_LEN
    &&& forall|i: int| 0 <= i < bytes.len() ==> is_symbol_byte(#[trigger] bytes[i])
}

/// The byte at `i`, or zero past the end.
pub open spec fn byte_or_zero(bytes: Seq<u8>, i: int) -> int {
    if 0 <= i < bytes.len() {
        bytes[i] as int
    } else {
        0
    }
}

/// The big-endian number formed by the `n` bytes starting at `from`.
pub open spec fn pack(bytes: Seq<u8>, from: int, n: nat) -> int
    decreases n,
{
    if n == 0 {
        0
    } else {
        pack(bytes, from, (n - 1) as nat) * 256 + byte_or_zero(bytes, from + n - 1)
    }
}

/// `256` raised to `n`.
pub open spec fn pow256(n: nat) -> int
    decreases n,
{
    if n == 0 {
        1
    } else {
        pow256((n - 1) as nat) * 256
    }
}

proof fn lemma_pack_bound(bytes: Seq<u8>, from: int, n: nat)
    ensures
        0 <= pack(bytes, from, n) < pow256(n),
    decreases n,
{
    if n > 0 {
        lemma_pack_bound(bytes, from, (n - 1) as nat);
    }
}

proof fn lemma_pow256_monotone(m: nat, n: nat)
    requires
        m <= n,
    ensures
        1 <= pow256(m) <= pow256(n),
    decreases n,
{
    if m < n {
        lemma_pow256_monotone(m, (n - 1) as nat);
    } else if m > 0 {
        lemma_pow256_monotone((m - 1) as nat, (m - 1) as nat);
    }
}

impl Symbol {
    /// The symbol spelled by `bytes`.
    pub open spec fn from_text(bytes: Seq<u8>) -> Symbol {
        Symbol { len: bytes.len() as u8, hi: pack(bytes, 0, 16) as u128, lo: pack(bytes, 16, 16) as u128 }
    }

    fn pack_half(bytes: &Vec<u8>, from: usize) -> (r: u128)
        requires
            from <= 16,
        ensures
            r == pack(bytes@, from as int, 16),
    {
        proof {
            reveal_with_fuel(pow256, 17);
            assert(pow256(15) * 256 == 0x1_0000_0000_0000_0000_0000_0000_0000_0000);
        }
        let mut acc: u128 = 0;
        let mut i: usize = 0;
        while i < 16
            invariant
                i <= 16,
                from <= 16,
                acc == pack(bytes@, from as int, i as nat),
                pow256(15) * 256 == 0x1_0000_0000_0000_0000_0000_0000_0000_0000,
            decreases 16 - i,
        {
            let idx: usize = from + i;
            let b: u8 = if idx < bytes.len() {
                bytes[idx]
            } else {
                0
            };
            proof {
                lemma_pack_bound(bytes@, from as int, i as nat);
                lemma_pow256_monotone(i as nat, 15);
            }
            acc = acc * 256 + b as u128;
            i = i + 1;
        }
        acc
    }

    /// Creates the symbol spelled by `text`, which must hold at most 32
    /// characters from `[a-zA-Z0-9_]`.
    pub fn new(text: &str) -> (r: Symbol)
        requires
            is_symbol_text(text.spec_bytes()),
        ensures
            r == Symbol::from_text(text.spec_bytes()),
    {
        let bytes = text.as_bytes_vec();
        let len = bytes.len() as u8;
        let hi = Self::pack_half(&bytes, 0);
        let lo = Self::pack_half(&bytes, 16);
        Symbol { len, hi, lo }
    }
}

/// Identifies a provider's balance in one asset.
#[derive(Clone, Copy, Debug, PartialEq, Eq, Structural)]
pub struct BalanceKey {
    pub provider: Address,
    pub asset: Symbol,
}

/// A liquidity pool for a single asset within AnchorNet.
///
/// Pools aggregate liquidity supplied by many providers so that the routing
/// layer can settle cross-anchor payments against a shared balance.
#[derive(Clone, Copy, Debug, PartialEq, Eq, Structural)]
pub struct Pool {
    /// Asset symbol the pool holds liquidity for (e.g. `USDC`, `XLM`).
    pub asset: Symbol,
    /// Total liquidity currently provided across all providers.
    pub total: i128,
    /// Number of distinct providers contributing to this pool.
    pub providers: u32,
}

impl Pool {
    /// An empty pool for `asset`.
    pub open spec fn spec_empty(asset: Symbol) -> Pool {
        Pool { asset, total: 0, providers: 0 }
    }

    /// Creates an empty pool for `asset` with no liquidity and no providers.
    pub fn empty(asset: Symbol) -> (r: Pool)
        ensures
            r == Pool::spec_empty(asset),
    {
        Pool { asset, total: 0, providers: 0 }
    }
}

/// Lifecycle state of a settlement request.
#[derive(Clone, Copy, Debug, PartialEq, Eq, Structural)]
pub enum SettlementStatus {
    /// Liquidity has been reserved against the pool, awaiting execution.
    Pending,
    /// The settlement has been executed and liquidity released to the anchor.
    Executed,
    /// The settlement was cancelled and reserved liquidity returned to the pool.
    Cancelled,
    /// The settlement timed out before execution and its reserved liquidity
    /// was reclaimed back to the pool via `cancel_expired_settlement`.
    Expired,
}

/// Registration state of an address.
#[derive(Clone, Copy, Debug, PartialEq, Eq, Structural)]
pub enum AnchorStatus {
    /// The address has never been registered.
    NeverRegistered,
    /// The address is currently a registered anchor.
    Active,
    /// The address was registered and later removed.
    Deregistered,
}

/// A request to draw `amount` of `asset` liquidity for cross-anchor settlement.
#[derive(Clone, Copy, Debug, PartialEq, Eq, Structural)]
pub struct Settlement {
    /// Monotonic identifier assigned by the contract.
    pub id: u64,
    /// Anchor that requested the settlement.
    pub anchor: Address,
    /// Asset being settled.
    pub asset: Symbol,
    /// Gross amount reserved from the pool.
    pub amount: i128,
    /// Protocol fee withheld from the amount.
    pub fee: i128,
    /// Current lifecycle state.
    pub status: SettlementStatus,
    /// Ledger sequence number at which the settlement was opened, used to
    /// determine expiry via the contract-wide settlement expiry window.
    pub opened_at: u32,
}

/// A one-call snapshot of overall contract state, for off-chain dashboards
/// and indexers that would otherwise need several separate calls.
#[derive(Clone, Copy, Debug, PartialEq, Eq, Structural)]
pub struct ContractInfo {
    /// The contract interface version (see `AnchornetContract::version`).
    pub version: u32,
    /// Whether the contract is currently paused.
    pub paused: bool,
    /// The global protocol fee, in basis points.
    pub fee_bps: u32,
    /// Number of currently registered anchors.
    pub anchor_count: u32,
    /// Number of distinct assets that have ever had liquidity provided.
    pub asset_count: u32,
    /// Total number of settlements ever opened.
    pub settlement_count: u64,
}

} // verus!
