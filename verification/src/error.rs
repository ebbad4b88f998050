use vstd::prelude::*;

verus! {

/// Everything that can make a pool operation abort. An aborted operation
/// leaves the pool state and the bet registry untouched.
#[derive(Clone, Copy, Debug, PartialEq, Eq, Structural)]
pub enum ContractError {
    /// Reserved; no core operation currently raises it.
    Unauthorized,
    /// A bet was placed outside the accepting window.
    UnallowedTime,
    /// The payment was missing, in the wrong denomination, or below the price.
    NoFunds,
    /// Settlement was attempted before the burn window expired.
    BurnBlock,
    /// A collaborator read failed (for queries: the record does not exist).
    StorageFailure,
    /// A checked arithmetic step would overflow.
    ArithmeticOverflow,
}

} // verus!
