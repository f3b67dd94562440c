use vstd::prelude::*;

pub mod round;
pub mod store;
pub mod fixed;
pub mod arith;
pub mod ledger;
pub mod graph;
pub mod referral;
pub mod house;
pub mod vesting;
pub mod reward;
pub mod collector;
pub mod querier;
pub mod distributor;

verus! {

/// Errors shared by every module of the library.  Each operation either
/// commits all of its state changes or returns one of these and leaves the
/// state untouched.
#[derive(Debug, Clone, Copy, PartialEq, Eq, Structural)]
pub enum ContractError {
    /// The caller lacks the required role, or the edge would create a cycle.
    Unauthorized,
    /// A required record does not exist.
    NotExist,
    /// The record already exists and may not be written twice.
    AlreadyExist,
    /// The target of a following edge is not a registered referral identity.
    NotReferral,
    /// A balance or a fee payment is too small.
    NotEnough,
    /// The round counter has not started yet, so there is nothing to settle.
    RoundNotActive,
}

/// An outgoing transfer intent: the core never moves assets itself, it
/// returns these for a surrounding driver to execute after the state
/// transition commits.
#[derive(Debug, Clone, PartialEq, Eq)]
pub struct TokenTransfer {
    pub recipient: String,
    pub amount: u128,
}

} // verus!
