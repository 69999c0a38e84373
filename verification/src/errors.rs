//! Stable, enumerable error kinds.
//!
//! Every operation rejects as a whole: an error means zero observable state
//! change, never a partial effect.

use vstd::prelude::*;

verus! {

/// Why an operation was rejected.
///
/// Validation and authorization errors are checked before any mutation;
/// `AlreadyExists` and `NotFound` are the keyed store's create-once and
/// resolution conditions; `InsufficientFunds` comes from the ledger; and
/// `MathOverflow` reports checked arithmetic that could not complete.
#[derive(Clone, Copy, Debug, PartialEq, Eq, Structural)]
pub enum ErrorCode {
    /// The platform fee is above the allowed bound.
    InvalidFee,
    /// The skill identifier is longer than 64 bytes.
    SkillIdTooLong,
    /// The supplied skill identifier does not match the resolved listing.
    InvalidSkill,
    /// The listing has been deactivated by its seller.
    SkillNotActive,
    /// The caller is not the authority the operation designates.
    Unauthorized,
    /// The listing price must be positive.
    InvalidPrice,
    /// A record already occupies the deterministic address.
    AlreadyExists,
    /// No record exists at the named address.
    NotFound,
    /// The payer's balance does not cover the amount.
    InsufficientFunds,
    /// A checked computation would exceed the numeric range.
    MathOverflow,
}

} // verus!
