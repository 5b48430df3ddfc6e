//! Order matching engine: scoring and aggregation of lending/borrowing orders,
//! reservation and reconciliation rules of the order store, and the canonical
//! order encoding used for signature checks.

pub mod text;
pub mod decimal;
pub mod encoding;
pub mod error;
pub mod models;
pub mod config;
pub mod scoring;
pub mod store;
pub mod matching;
pub mod orders;
pub mod signature;
pub mod webhooks;
pub mod wide;
