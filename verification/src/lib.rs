//! An on-ledger marketplace core: escrow of non-fungible assets and funds,
//! matching of sell offers and standing bids, and fee-split payouts.
//!
//! All state is explicit: the [`World`] struct carries the marketplace's own
//! records (orders, bids, fee configuration, cached purse balance, reentrancy
//! flag) together with in-memory models of its collaborators (a non-fungible
//! asset registry, a fungible token registry, and the native-currency ledger),
//! so every lifecycle transition is a verified function from state to state.

pub mod assoc;
pub mod fees;
pub mod marketplace;
pub mod orders;
pub mod registry;
pub mod store;
pub mod u256;
pub mod u512;

use vstd::prelude::*;

verus! {

/// An identity that can own assets, place bids, and receive payouts: either an
/// end-user account or a contract. Compared by variant and payload equality.
#[derive(Clone, Copy, Debug, PartialEq, Eq, Structural)]
pub enum Address {
    Account(u64),
    Contract(u64),
}

/// The coded failures an operation can surface. Every precondition violation
/// aborts the whole operation; no partial state is kept.
#[derive(Clone, Copy, Debug, PartialEq, Eq, Structural)]
pub enum Error {
    /// An unauthenticated or unexpected fund movement, such as calling a
    /// fund-consuming entry point without a preceding matching deposit.
    PermissionDenied,
    /// The asset is not approved to the marketplace identity.
    RequireApprove,
    /// The order's custody state is stale: the asset already left escrow.
    FinishedOrder,
    /// Only the creator of a sell order may cancel it.
    NotOrderCreator,
    /// The spender's token allowance toward the marketplace is too small.
    InsufficientAllowance,
    /// The payment offered does not cover the price, or funds are short.
    InsufficientBalance,
    /// The payment asset does not match the order's payment asset.
    InvalidPayToken,
    /// An amount computation would exceed the fixed-width integer range.
    Overflow,
    /// A guarded entry point was re-entered while an operation was in flight.
    InvalidContext,
    /// The bidder already has a standing bid for this asset.
    AlreadyExistOrder,
    /// No order or bid exists under the given key.
    NotExistOrder,
    /// The asset registry knows no such asset.
    NotExistToken,
    /// The caller does not own the asset.
    NotTokenOwner,
}

impl Error {
    /// The stable numeric code under which a failure is surfaced to callers.
    pub fn user_code(self) -> (code: u16)
        ensures
            code == self.user_code_spec(),
    {
        match self {
            Error::PermissionDenied => 0,
            Error::RequireApprove => 1,
            Error::FinishedOrder => 2,
            Error::NotOrderCreator => 3,
            Error::InsufficientAllowance => 4,
            Error::InsufficientBalance => 5,
            Error::InvalidPayToken => 6,
            Error::Overflow => 7,
            Error::InvalidContext => 8,
            Error::AlreadyExistOrder => 9,
            Error::NotExistOrder => 10,
            Error::NotExistToken => 11,
            Error::NotTokenOwner => 12,
        }
    }

    pub open spec fn user_code_spec(self) -> u16 {
        match self {
            Error::PermissionDenied => 0,
            Error::RequireApprove => 1,
            Error::FinishedOrder => 2,
            Error::NotOrderCreator => 3,
            Error::InsufficientAllowance => 4,
            Error::InsufficientBalance => 5,
            Error::InvalidPayToken => 6,
            Error::Overflow => 7,
            Error::InvalidContext => 8,
            Error::AlreadyExistOrder => 9,
            Error::NotExistOrder => 10,
            Error::NotExistToken => 11,
            Error::NotTokenOwner => 12,
        }
    }
}

} // verus!
