//! Payout extension of a non-fungible-token ledger: computes how the proceeds
//! of a token sale are split between the token's owner and an optional
//! creator-royalty beneficiary, and couples that split to the ownership
//! transfer.

pub mod payout;
pub mod types;
