use vstd::prelude::*;

verus! {

/// Height and time of the block an operation runs in, as the host reports
/// them. `time` is nanoseconds since the epoch.
#[derive(Clone, Copy, Debug, PartialEq, Eq, Structural)]
pub struct BlockInfo {
    pub height: u64,
    pub time: u64,
}

/// A point on the chain at which something becomes active: a block height or
/// a block time (nanoseconds since the epoch), each reached inclusively.
#[derive(Clone, Copy, Debug, PartialEq, Eq, Structural)]
pub enum Scheduled {
    AtHeight(u64),
    AtTime(u64),
}

/// A point on the chain past which something stops being valid, or `Never`.
#[derive(Clone, Copy, Debug, PartialEq, Eq, Structural)]
pub enum Expiration {
    AtHeight(u64),
    AtTime(u64),
    Never,
}

impl Scheduled {
    /// True once the block has reached the scheduled height or time, and for
    /// every block after it.
    pub open spec fn spec_is_triggered(self, block: BlockInfo) -> bool {
        match self {
            Scheduled::AtHeight(height) => block.height >= height,
            Scheduled::AtTime(time) => block.time >= time,
        }
    }

    pub fn is_triggered(&self, block: &BlockInfo) -> (triggered: bool)
        ensures
            triggered == self.spec_is_triggered(*block),
    {
        match self {
            Scheduled::AtHeight(height) => block.height >= *height,
            Scheduled::AtTime(time) => block.time >= *time,
        }
    }
}

impl Expiration {
    /// True once the block has reached the expiry height or time, and for
    /// every block after it; `Never` never expires.
    pub open spec fn spec_is_expired(self, block: BlockInfo) -> bool {
        match self {
            Expiration::AtHeight(height) => block.height >= height,
            Expiration::AtTime(time) => block.time >= time,
            Expiration::Never => false,
        }
    }

    pub fn is_expired(&self, block: &BlockInfo) -> (expired: bool)
        ensures
            expired == self.spec_is_expired(*block),
    {
        match self {
            Expiration::AtHeight(height) => block.height >= *height,
            Expiration::AtTime(time) => block.time >= *time,
            Expiration::Never => false,
        }
    }
}

/// An amount of some native denomination, as attached to a payment.
#[derive(Clone, Debug, PartialEq, Eq)]
pub struct Coin {
    pub denom: String,
    pub amount: u128,
}

/// A currency-transfer instruction declared toward the host: move `amount`
/// of `denom` to `to_address`. The core only records the intent; executing
/// the transfer is the host's job.
#[derive(Clone, Debug, PartialEq, Eq)]
pub struct TransferMsg {
    pub to_address: String,
    pub denom: String,
    pub amount: u128,
}

} // verus!
