//! Ownership ledger for uniquely identified non-fungible tokens.
//!
//! The crate keeps an authoritative per-token record store together with two
//! derived indices (by owner and by operator), and verifies that the four
//! state-transition operations — mint, transfer, approve and burn — keep the
//! indices consistent with the records, assign strictly increasing
//! transaction numbers, and reject invalid transitions without partial
//! updates.

pub mod account_identifier;
pub mod types;
pub mod ledger;
pub mod dip721;
