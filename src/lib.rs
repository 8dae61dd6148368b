//! Ledger bookkeeping for two token issuance schemes: a fixed-supply
//! fungible token sold from a pool, and a non-transferable achievement
//! token minted by a single issuer.
//!
//! Each contract instance is a plain value holding its persisted entities.
//! An operation either returns `Ok` with the instance updated, or returns
//! an error with the instance left exactly as it was, which is the
//! all-or-nothing behaviour of one host call.
mod address;
mod error;
mod table;
mod fixed_token;
mod soulbound;
mod fixed_issuer;

pub use address::Address;
pub use error::TokenError;
pub use fixed_issuer::SoulboundTokenContract;
pub use fixed_token::{BuyEvent, FixedToken};
pub use soulbound::{ids_minted_to, SoulboundToken, TokenMetadata, TokenRecord};
pub use table::AddressTable;
