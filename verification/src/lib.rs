//! Verified core of a minimal authoritative name server for address records.
//!
//! The crate models one DNS zone's record store, the authority that answers
//! queries against it, the catalog that routes a query name to the owning
//! zone, and the control-plane handler that validates and applies record
//! mutations. Wire encoding, sockets and RPC transport live outside this
//! crate; they hand in plain strings and integers and take plain values back.

pub mod catalog;
pub mod control;
pub mod ip;
pub mod laws;
pub mod name;
pub mod settings;
pub mod store;
pub mod zone;
