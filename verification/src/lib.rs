//! State-transition core of a shared-fund administration ledger.
//!
//! The library keeps a registry of admin identities with the time each one
//! joined, authorizes membership changes, splits donations evenly among the
//! current admins with an exact remainder returned to the depositor, and
//! answers read-side queries over the registry.  The host that dispatches
//! calls (storage, caller identity, logical time, address validation) stays
//! outside; every operation here is a function from plain values to plain
//! values.

pub mod contract;
pub mod decimal;
pub mod distribution;
pub mod error;
pub mod messages;
pub mod order;
pub mod payment;
pub mod registry;
pub mod response;
