//! Why a call is rejected.  Every error aborts its call; the host then
//! discards any staged state change, so an error implies no mutation.

use vstd::prelude::*;
use crate::payment::PaymentFault;

verus! {

/// The error taxonomy of the contract.
#[derive(Clone, Debug, PartialEq, Eq)]
pub enum ContractError {
    /// The caller of a membership change is not a current admin; carries the
    /// offending caller identity.
    Unauthorized { sender: String },
    /// An identity string failed address validation; carries the bad input.
    /// Validation itself is the host's collaborator; the core only reports
    /// its verdict verbatim.
    InvalidAddress { input: String },
    /// The payment attached to a donation was rejected.
    Payment(PaymentFault),
    /// A join-time query named an identity that was never added (or has
    /// left); carries the identity.
    NotFound { addr: String },
    /// A donation arrived while the registry holds no admins.  It is
    /// rejected up front, before any arithmetic divides by the admin count.
    NoAdmins,
}

} // verus!
