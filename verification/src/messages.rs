//! The operations a host dispatches to the contract, and the typed replies
//! of the read-side queries.  Wire-level (de)serialization is the host's
//! side of the boundary; the core works on these plain values.

use vstd::prelude::*;

verus! {

/// Initialization input: the initial admin identities (already validated by
/// the host's address validator) and the donation denomination.
#[derive(Clone, Debug, PartialEq, Eq)]
pub struct InstantiateMsg {
    pub admins: Vec<String>,
    pub donation_denom: String,
}

/// A mutating operation.
#[derive(Clone, Debug, PartialEq, Eq)]
pub enum ExecuteMsg {
    /// Register each listed identity with the current time (upsert).
    AddMembers { admins: Vec<String> },
    /// The caller removes itself from the registry.
    Leave {},
    /// Split the attached payment among the current admins.
    Donate {},
}

/// A read-only operation.
#[derive(Clone, Debug, PartialEq, Eq)]
pub enum QueryMsg {
    /// A fixed greeting.
    Greet {},
    /// All current admins, in ascending identity order.
    AdminsList {},
    /// When `admin` joined.
    JoinTime { admin: String },
    /// The admins whose join-time is strictly greater than `timestamp`.
    AdminsAfterBlockTime { timestamp: u64 },
}

/// Reply to the greeting query.
#[derive(Clone, Debug, PartialEq, Eq)]
pub struct GreetResp {
    pub message: String,
}

/// Reply to the listing queries: identities in ascending order.
#[derive(Clone, Debug, PartialEq, Eq)]
pub struct AdminsListResp {
    pub admins: Vec<String>,
}

/// Reply to the join-time query.
#[derive(Clone, Debug, PartialEq, Eq)]
pub struct JoinTimeResp {
    pub joined: u64,
}

/// The reply to one query, by query kind.
#[derive(Clone, Debug, PartialEq, Eq)]
pub enum QueryAnswer {
    Greeting(GreetResp),
    Admins(AdminsListResp),
    Joined(JoinTimeResp),
}

} // verus!
