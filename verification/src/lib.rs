//! Verified model of the AnchorNet liquidity coordination contract.

pub mod accounting;
pub mod admin;
pub mod anchors;
pub mod conservation;
pub mod consistency;
pub mod contract;
pub mod error;
pub mod events;
pub mod guarantees;
pub mod laws;
pub mod liquidity;
pub mod queries;
pub mod settlements;
pub mod storage;
pub mod table;
pub mod types;

pub use contract::AnchornetContract;
pub use error::Error;
pub use events::Event;
pub use storage::{Env, StoreRecord};
pub use types::{
    Address, AddressKind, AnchorStatus, BalanceKey, ContractInfo, Pool, Settlement, SettlementStatus, Symbol,
};
