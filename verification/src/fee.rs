//! Checked basis-point fee arithmetic, shared by the purchase and claim paths.

use vstd::prelude::*;

verus! {

/// Basis-point denominator: 10,000 bps is 100%.
pub const BPS_DENOMINATOR: u64 = 10_000;

/// Highest platform fee the marketplace accepts: 1,000 bps, i.e. 10%.
pub const MAX_FEE_BPS: u16 = 1_000;

/// The platform's cut of `amount` at `fee_bps` basis points, rounded down:
/// `floor(amount * fee_bps / 10000)`.
pub open spec fn fee_amount(amount: u64, fee_bps: u16) -> int {
    amount * fee_bps / (BPS_DENOMINATOR as int)
}

/// Computes the platform fee with overflow-checked multiplication, or `None`
/// when `amount * fee_bps` does not fit in a `u64`.
pub fn platform_fee(amount: u64, fee_bps: u16) -> (r: Option<u64>)
    ensures
        amount * fee_bps <= u64::MAX ==> r == Some(fee_amount(amount, fee_bps) as u64),
        amount * fee_bps > u64::MAX ==> r is None,
{
    match amount.checked_mul(fee_bps as u64) {
        Some(product) => Some(product / BPS_DENOMINATOR),
        None => None,
    }
}

/// The fee never exceeds the amount it is taken from, as long as the rate is
/// at most 100%.
pub proof fn lemma_fee_le_amount(amount: u64, fee_bps: u16)
    requires
        fee_bps <= BPS_DENOMINATOR,
    ensures
        0 <= fee_amount(amount, fee_bps) <= amount,
{
    assert(0 <= amount * fee_bps / 10000 <= amount) by (nonlinear_arith)
        requires fee_bps <= 10000;
}

/// On claim, the seller's share (`balance - fee`) and the platform fee
/// partition the escrow balance exactly: nothing is lost beyond the single
/// floor truncation inside the fee itself.
pub proof fn lemma_fee_split_exact(balance: u64, fee_bps: u16)
    requires
        fee_bps <= BPS_DENOMINATOR,
    ensures
        (balance - fee_amount(balance, fee_bps)) + fee_amount(balance, fee_bps) == balance,
        0 <= fee_amount(balance, fee_bps) <= balance,
{
    lemma_fee_le_amount(balance, fee_bps);
}

} // verus!
