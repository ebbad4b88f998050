use vstd::prelude::*;

use crate::types::{Expiration, Scheduled};

verus! {

/// Initialization input: the collaborator addresses, the three windows and
/// the base entry price. The pricing curve's origin height is taken from the
/// block the pool is initialized in.
#[derive(Clone, Debug, PartialEq, Eq)]
pub struct InstantiateMsg {
    pub cw20_token_address: String,
    pub bet_start_block: Scheduled,
    pub bet_end_block: Expiration,
    pub burn_block: Expiration,
    pub community_pool_address: String,
    pub bet_base_price: u128,
}

/// The two state-changing requests.
#[derive(Clone, Debug, PartialEq, Eq)]
pub enum ExecuteMsg {
    Bet { choosed_number: u128 },
    AnnounceWinner {},
}

/// The read-only requests.
#[derive(Clone, Debug, PartialEq, Eq)]
pub enum QueryMsg {
    TotalBets {},
    Jackpot {},
    AddressBet { address: String },
    BetPrice {},
    /// The request this pool sends to the token collaborator; it is not
    /// answered by the pool itself.
    TokenInfo {},
}

#[derive(Clone, Copy, Debug, PartialEq, Eq, Structural)]
pub struct TotalBetsResponse {
    pub total_bets: u128,
}

#[derive(Clone, Copy, Debug, PartialEq, Eq, Structural)]
pub struct JackpotResponse {
    pub jackpot: u128,
}

#[derive(Clone, Debug, PartialEq, Eq)]
pub struct AddressBetResponse {
    pub bet: Vec<u128>,
}

#[derive(Clone, Copy, Debug, PartialEq, Eq, Structural)]
pub struct BetPriceResponse {
    pub bet_price: u128,
}

/// What the token collaborator answers to `TokenInfo {}`; settlement uses
/// only `total_supply`.
#[derive(Clone, Debug, PartialEq, Eq)]
pub struct TokenInfoResponse {
    pub name: String,
    pub symbol: String,
    pub decimals: u8,
    pub total_supply: u128,
}

} // verus!
