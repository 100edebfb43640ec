//! Verified core of the credence bond contract: the monotonic interest
//! index and the redemption rules.

pub mod monotonic_interest_index;
pub mod redeem;
