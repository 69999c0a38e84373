//! The persisted records of the marketplace and their mathematical models.
//!
//! Identities (parties able to sign) are plain `u64` values; a skill
//! identifier is a bounded byte string. Listings and licenses are addressed
//! by their position in the store, which never shrinks, so a position is a
//! stable deterministic address.

use vstd::prelude::*;

verus! {

/// Default subscription length: 30 days of seconds.
pub const DEFAULT_SUBSCRIPTION_DURATION: i64 = 30 * 24 * 60 * 60;

/// The singleton marketplace configuration record.
#[derive(Clone, Copy, Debug, PartialEq, Eq, Structural)]
pub struct Marketplace {
    /// Identity that created the marketplace.
    pub authority: u64,
    /// Identity credited with platform fees on claims.
    pub treasury: u64,
    /// Platform fee rate in basis points; at most 1,000 (10%).
    pub platform_fee_bps: u16,
    /// How many listings have ever been created; never decreases.
    pub skill_count: u64,
}

/// A seller's listing of one skill.
#[derive(Debug)]
pub struct SkillListing {
    /// The only identity allowed to toggle the listing or claim its escrow.
    pub seller: u64,
    /// Skill identifier, at most 64 bytes; unique per seller.
    pub skill_id: Vec<u8>,
    /// Price per purchase; always positive.
    pub price: u64,
    /// Whether licenses sold from this listing expire.
    pub is_subscription: bool,
    /// Subscription length in seconds; `None` means the 30-day default.
    pub subscription_duration: Option<i64>,
    /// Set false by the seller to stop further purchases.
    pub is_active: bool,
    /// When the listing was created.
    pub created_at: i64,
}

/// Mathematical image of a [`SkillListing`].
#[verifier::ext_equal]
pub ghost struct ListingModel {
    pub seller: u64,
    pub skill_id: Seq<u8>,
    pub price: u64,
    pub is_subscription: bool,
    pub subscription_duration: Option<i64>,
    pub is_active: bool,
    pub created_at: i64,
}

impl View for SkillListing {
    type V = ListingModel;

    open spec fn view(&self) -> ListingModel {
        ListingModel {
            seller: self.seller,
            skill_id: self.skill_id@,
            price: self.price,
            is_subscription: self.is_subscription,
            subscription_duration: self.subscription_duration,
            is_active: self.is_active,
            created_at: self.created_at,
        }
    }
}

/// A buyer's proof-of-purchase record for one listing; created exactly once
/// per (buyer, listing) pair and never deleted.
#[derive(Clone, Copy, Debug)]
pub struct License {
    /// The buyer.
    pub owner: u64,
    /// Address (store position) of the listing this license was bought from.
    pub skill_listing: usize,
    /// Price paid at purchase time.
    pub purchase_price: u64,
    /// Fee computed at purchase time; informational, never recomputed.
    pub platform_fee: u64,
    /// Whether the license is usable at all.
    pub is_active: bool,
    /// How many times verification found the license active; never decreases.
    pub usage_count: u64,
    /// Fixed at creation; `None` means a perpetual license.
    pub expires_at: Option<i64>,
    /// When the license was created.
    pub created_at: i64,
    /// Time of the last counted use; zero until first use.
    pub last_used_at: i64,
}

/// The read result of the license verification state machine.
#[derive(Clone, Copy, Debug, PartialEq, Eq, Structural)]
pub enum LicenseStatus {
    Active,
    Inactive,
    Expired,
}

/// Funds held for one skill identifier until the seller claims them. All
/// buyers of one skill pay into the same escrow; a claim drains it whole.
#[derive(Debug)]
pub struct Escrow {
    /// The skill identifier the balance is held for.
    pub skill_id: Vec<u8>,
    /// Accumulated, not yet claimed, purchase payments.
    pub balance: u64,
}

/// Mathematical image of an [`Escrow`].
#[verifier::ext_equal]
pub ghost struct EscrowModel {
    pub skill_id: Seq<u8>,
    pub balance: u64,
}

impl View for Escrow {
    type V = EscrowModel;

    open spec fn view(&self) -> EscrowModel {
        EscrowModel { skill_id: self.skill_id@, balance: self.balance }
    }
}

/// Notification of a successful listing.
#[derive(Debug)]
pub struct SkillListed {
    pub seller: u64,
    pub skill_id: Vec<u8>,
    pub price: u64,
}

/// Notification of a successful purchase; `license` is the address of the
/// new license record.
#[derive(Debug)]
pub struct SkillPurchased {
    pub buyer: u64,
    pub seller: u64,
    pub skill_id: Vec<u8>,
    pub price: u64,
    pub license: usize,
}

/// Notification of a successful claim: `amount` went to the seller and
/// `fee` to the treasury.
#[derive(Debug)]
pub struct PaymentClaimed {
    pub seller: u64,
    pub skill_id: Vec<u8>,
    pub amount: u64,
    pub fee: u64,
}

/// The length a subscription runs: the listing's own duration if present,
/// else the 30-day default.
pub open spec fn subscription_length(duration: Option<i64>) -> i64 {
    match duration {
        Some(d) => d,
        None => DEFAULT_SUBSCRIPTION_DURATION,
    }
}

/// The expiry a license gets when bought at time `now`: `None` for a
/// perpetual (non-subscription) license. Given as a mathematical integer
/// because the sum may not fit in an `i64`.
pub open spec fn license_expiry(is_subscription: bool, duration: Option<i64>, now: i64) -> Option<int> {
    if is_subscription {
        Some(now + subscription_length(duration))
    } else {
        None
    }
}

/// What verification reads off a license at time `now`: the `is_active`
/// flag and the expiry jointly determine the state.
pub open spec fn license_status(lic: License, now: i64) -> LicenseStatus {
    if !lic.is_active {
        LicenseStatus::Inactive
    } else if lic.expires_at matches Some(e) && now > e {
        LicenseStatus::Expired
    } else {
        LicenseStatus::Active
    }
}

} // verus!
