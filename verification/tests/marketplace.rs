//! End-to-end tests of the marketplace state machine through its public
//! operations.

use skill_marketplace::errors::ErrorCode;
use skill_marketplace::ledger::Ledger;
use skill_marketplace::market::Market;
use skill_marketplace::state::{License, LicenseStatus};

const AUTHORITY: u64 = 1;
const TREASURY: u64 = 2;
const SELLER: u64 = 10;
const BUYER: u64 = 20;
const OTHER_BUYER: u64 = 21;
const NOW: i64 = 1_700_000_000;

fn setup(fee_bps: u16) -> (Market, Ledger) {
    let mut market = Market::new();
    market
        .initialize_marketplace(AUTHORITY, TREASURY, fee_bps)
        .unwrap();
    (market, Ledger::new())
}

fn id(s: &str) -> Vec<u8> {
    s.as_bytes().to_vec()
}

#[test]
fn initialize_rejects_fee_above_bound() {
    let mut market = Market::new();
    assert_eq!(
        market.initialize_marketplace(AUTHORITY, TREASURY, 1001),
        Err(ErrorCode::InvalidFee)
    );
    assert_eq!(
        market.initialize_marketplace(AUTHORITY, TREASURY, u16::MAX),
        Err(ErrorCode::InvalidFee)
    );
    assert!(market.marketplace.is_none());
}

#[test]
fn initialize_accepts_bound_fee() {
    let mut market = Market::new();
    assert_eq!(market.initialize_marketplace(AUTHORITY, TREASURY, 1000), Ok(()));
    let mp = market.marketplace.unwrap();
    assert_eq!(mp.authority, AUTHORITY);
    assert_eq!(mp.treasury, TREASURY);
    assert_eq!(mp.platform_fee_bps, 1000);
    assert_eq!(mp.skill_count, 0);
}

#[test]
fn initialize_accepts_zero_fee() {
    let mut market = Market::new();
    assert_eq!(market.initialize_marketplace(AUTHORITY, TREASURY, 0), Ok(()));
}

#[test]
fn initialize_runs_exactly_once() {
    let (mut market, _) = setup(500);
    assert_eq!(
        market.initialize_marketplace(AUTHORITY, TREASURY, 250),
        Err(ErrorCode::AlreadyExists)
    );
    assert_eq!(market.marketplace.unwrap().platform_fee_bps, 500);
}

#[test]
fn list_skill_rejects_zero_price() {
    let (mut market, _) = setup(500);
    assert_eq!(
        market.list_skill(SELLER, id("code-review"), 0, false, None, NOW).unwrap_err(),
        ErrorCode::InvalidPrice
    );
    assert_eq!(market.listings.len(), 0);
}

#[test]
fn list_skill_rejects_long_identifier() {
    let (mut market, _) = setup(500);
    let long = vec![b'a'; 65];
    assert_eq!(
        market.list_skill(SELLER, long, 100, false, None, NOW).unwrap_err(),
        ErrorCode::SkillIdTooLong
    );
    let exactly_64 = vec![b'a'; 64];
    assert!(market.list_skill(SELLER, exactly_64, 100, false, None, NOW).is_ok());
}

#[test]
fn list_skill_requires_initialized_marketplace() {
    let mut market = Market::new();
    assert_eq!(
        market.list_skill(SELLER, id("code-review"), 100, false, None, NOW).unwrap_err(),
        ErrorCode::NotFound
    );
}

#[test]
fn list_skill_creates_active_listing_and_counts_it() {
    let (mut market, _) = setup(500);
    let ev = market
        .list_skill(SELLER, id("code-review"), 1_000_000, false, None, NOW)
        .unwrap();
    assert_eq!(ev.seller, SELLER);
    assert_eq!(ev.skill_id, id("code-review"));
    assert_eq!(ev.price, 1_000_000);
    assert_eq!(market.marketplace.unwrap().skill_count, 1);
    let idx = market.find_listing(SELLER, &id("code-review")).unwrap();
    let listing = &market.listings[idx];
    assert!(listing.is_active);
    assert_eq!(listing.price, 1_000_000);
    assert_eq!(listing.created_at, NOW);
    assert!(!listing.is_subscription);
}

#[test]
fn list_skill_rejects_occupied_address() {
    let (mut market, _) = setup(500);
    market.list_skill(SELLER, id("code-review"), 100, false, None, NOW).unwrap();
    assert_eq!(
        market.list_skill(SELLER, id("code-review"), 200, false, None, NOW).unwrap_err(),
        ErrorCode::AlreadyExists
    );
    // A different seller may use the same identifier.
    assert!(market.list_skill(SELLER + 1, id("code-review"), 200, false, None, NOW).is_ok());
    assert_eq!(market.marketplace.unwrap().skill_count, 2);
}

#[test]
fn purchase_computes_and_stores_platform_fee() {
    let (mut market, mut ledger) = setup(500);
    market.list_skill(SELLER, id("code-review"), 1_000_000, false, None, NOW).unwrap();
    ledger.credit(BUYER, 3_000_000).unwrap();
    let ev = market
        .purchase_skill(&mut ledger, BUYER, 0, id("code-review"), NOW)
        .unwrap();
    assert_eq!(ev.buyer, BUYER);
    assert_eq!(ev.seller, SELLER);
    assert_eq!(ev.price, 1_000_000);
    assert_eq!(ev.license, 0);
    let license = &market.licenses[0];
    assert_eq!(license.platform_fee, 50_000);
    assert_eq!(license.purchase_price, 1_000_000);
    assert!(license.is_active);
    assert_eq!(license.usage_count, 0);
    assert_eq!(license.last_used_at, 0);
    assert_eq!(license.created_at, NOW);
    assert_eq!(ledger.balance_of(BUYER), 2_000_000);
    assert_eq!(market.escrow_balance(&id("code-review")), 1_000_000);
}

#[test]
fn purchase_rejects_mismatched_identifier() {
    let (mut market, mut ledger) = setup(500);
    market.list_skill(SELLER, id("code-review"), 100, false, None, NOW).unwrap();
    ledger.credit(BUYER, 1_000).unwrap();
    assert_eq!(
        market.purchase_skill(&mut ledger, BUYER, 0, id("another-skill"), NOW).unwrap_err(),
        ErrorCode::InvalidSkill
    );
    assert_eq!(ledger.balance_of(BUYER), 1_000);
    assert_eq!(market.licenses.len(), 0);
}

#[test]
fn purchase_rejects_unknown_listing() {
    let (mut market, mut ledger) = setup(500);
    assert_eq!(
        market.purchase_skill(&mut ledger, BUYER, 0, id("code-review"), NOW).unwrap_err(),
        ErrorCode::NotFound
    );
}

#[test]
fn purchase_rejects_second_license_for_same_buyer() {
    let (mut market, mut ledger) = setup(500);
    market.list_skill(SELLER, id("code-review"), 100, false, None, NOW).unwrap();
    ledger.credit(BUYER, 1_000).unwrap();
    market.purchase_skill(&mut ledger, BUYER, 0, id("code-review"), NOW).unwrap();
    assert_eq!(
        market.purchase_skill(&mut ledger, BUYER, 0, id("code-review"), NOW).unwrap_err(),
        ErrorCode::AlreadyExists
    );
    assert_eq!(ledger.balance_of(BUYER), 900);
    assert_eq!(market.escrow_balance(&id("code-review")), 100);
}

#[test]
fn purchase_rejects_insufficient_funds() {
    let (mut market, mut ledger) = setup(500);
    market.list_skill(SELLER, id("code-review"), 100, false, None, NOW).unwrap();
    ledger.credit(BUYER, 99).unwrap();
    assert_eq!(
        market.purchase_skill(&mut ledger, BUYER, 0, id("code-review"), NOW).unwrap_err(),
        ErrorCode::InsufficientFunds
    );
    assert_eq!(ledger.balance_of(BUYER), 99);
}

#[test]
fn purchase_detects_fee_overflow() {
    let (mut market, mut ledger) = setup(500);
    market.list_skill(SELLER, id("code-review"), u64::MAX, false, None, NOW).unwrap();
    assert_eq!(
        market.purchase_skill(&mut ledger, BUYER, 0, id("code-review"), NOW).unwrap_err(),
        ErrorCode::MathOverflow
    );
}

#[test]
fn purchase_detects_expiry_overflow() {
    let (mut market, mut ledger) = setup(500);
    market
        .list_skill(SELLER, id("code-review"), 100, true, Some(i64::MAX), NOW)
        .unwrap();
    ledger.credit(BUYER, 1_000).unwrap();
    assert_eq!(
        market.purchase_skill(&mut ledger, BUYER, 0, id("code-review"), NOW).unwrap_err(),
        ErrorCode::MathOverflow
    );
}

#[test]
fn perpetual_license_counts_five_uses() {
    let (mut market, mut ledger) = setup(500);
    market.list_skill(SELLER, id("code-review"), 100, false, None, NOW).unwrap();
    ledger.credit(BUYER, 1_000).unwrap();
    let ev = market.purchase_skill(&mut ledger, BUYER, 0, id("code-review"), NOW).unwrap();
    assert_eq!(market.licenses[ev.license].expires_at, None);
    // Any elapsed time at all: verify far in the future, five times.
    let far = NOW + 100 * 365 * 24 * 60 * 60;
    for call in 1..=5u64 {
        let status = market.verify_license(BUYER, ev.license, far).unwrap();
        assert_eq!(status, LicenseStatus::Active);
        assert_eq!(market.licenses[ev.license].usage_count, call);
        assert_eq!(market.licenses[ev.license].last_used_at, far);
    }
    assert_eq!(market.licenses[ev.license].usage_count, 5);
}

#[test]
fn subscription_license_expires_after_explicit_duration() {
    let (mut market, mut ledger) = setup(500);
    market
        .list_skill(SELLER, id("code-review"), 100, true, Some(1_000), NOW)
        .unwrap();
    ledger.credit(BUYER, 1_000).unwrap();
    let ev = market.purchase_skill(&mut ledger, BUYER, 0, id("code-review"), NOW).unwrap();
    assert_eq!(market.licenses[ev.license].expires_at, Some(NOW + 1_000));
    // At the expiry instant the license still verifies Active.
    assert_eq!(
        market.verify_license(BUYER, ev.license, NOW + 1_000).unwrap(),
        LicenseStatus::Active
    );
    assert_eq!(market.licenses[ev.license].usage_count, 1);
    // Strictly after it, Expired, and the counters stay untouched.
    assert_eq!(
        market.verify_license(BUYER, ev.license, NOW + 1_001).unwrap(),
        LicenseStatus::Expired
    );
    assert_eq!(market.licenses[ev.license].usage_count, 1);
    assert_eq!(market.licenses[ev.license].last_used_at, NOW + 1_000);
}

#[test]
fn subscription_defaults_to_thirty_days() {
    let (mut market, mut ledger) = setup(500);
    market.list_skill(SELLER, id("code-review"), 100, true, None, NOW).unwrap();
    ledger.credit(BUYER, 1_000).unwrap();
    let ev = market.purchase_skill(&mut ledger, BUYER, 0, id("code-review"), NOW).unwrap();
    assert_eq!(market.licenses[ev.license].expires_at, Some(NOW + 2_592_000));
}

#[test]
fn verify_rejects_non_owner() {
    let (mut market, mut ledger) = setup(500);
    market.list_skill(SELLER, id("code-review"), 100, false, None, NOW).unwrap();
    ledger.credit(BUYER, 1_000).unwrap();
    let ev = market.purchase_skill(&mut ledger, BUYER, 0, id("code-review"), NOW).unwrap();
    assert_eq!(
        market.verify_license(OTHER_BUYER, ev.license, NOW),
        Err(ErrorCode::Unauthorized)
    );
    assert_eq!(market.licenses[ev.license].usage_count, 0);
}

#[test]
fn verify_rejects_unknown_license() {
    let (mut market, _) = setup(500);
    assert_eq!(market.verify_license(BUYER, 0, NOW), Err(ErrorCode::NotFound));
}

#[test]
fn deactivated_license_reports_inactive_without_mutation() {
    let (mut market, _) = setup(500);
    market.licenses.push(License {
        owner: BUYER,
        skill_listing: 0,
        purchase_price: 100,
        platform_fee: 5,
        is_active: false,
        usage_count: 7,
        expires_at: None,
        created_at: NOW,
        last_used_at: 123,
    });
    assert_eq!(market.verify_license(BUYER, 0, NOW).unwrap(), LicenseStatus::Inactive);
    assert_eq!(market.licenses[0].usage_count, 7);
    assert_eq!(market.licenses[0].last_used_at, 123);
}

#[test]
fn update_status_rejects_non_seller() {
    let (mut market, _) = setup(500);
    market.list_skill(SELLER, id("code-review"), 100, false, None, NOW).unwrap();
    assert_eq!(
        market.update_skill_status(BUYER, 0, false),
        Err(ErrorCode::Unauthorized)
    );
    assert!(market.listings[0].is_active);
}

#[test]
fn seller_deactivation_stops_purchases() {
    let (mut market, mut ledger) = setup(500);
    market.list_skill(SELLER, id("code-review"), 100, false, None, NOW).unwrap();
    ledger.credit(BUYER, 1_000).unwrap();
    assert_eq!(market.update_skill_status(SELLER, 0, false), Ok(()));
    assert!(!market.listings[0].is_active);
    assert_eq!(
        market.purchase_skill(&mut ledger, BUYER, 0, id("code-review"), NOW).unwrap_err(),
        ErrorCode::SkillNotActive
    );
    // Reactivation reopens the listing.
    assert_eq!(market.update_skill_status(SELLER, 0, true), Ok(()));
    assert!(market.purchase_skill(&mut ledger, BUYER, 0, id("code-review"), NOW).is_ok());
}

#[test]
fn claim_splits_balance_exactly() {
    let (mut market, mut ledger) = setup(500);
    market.list_skill(SELLER, id("code-review"), 1_000_000, false, None, NOW).unwrap();
    ledger.credit(BUYER, 1_000_000).unwrap();
    market.purchase_skill(&mut ledger, BUYER, 0, id("code-review"), NOW).unwrap();
    assert_eq!(market.escrow_balance(&id("code-review")), 1_000_000);
    let ev = market.claim_payment(&mut ledger, SELLER, 0).unwrap();
    assert_eq!(ev.seller, SELLER);
    assert_eq!(ev.skill_id, id("code-review"));
    assert_eq!(ev.amount, 950_000);
    assert_eq!(ev.fee, 50_000);
    assert_eq!(ev.amount + ev.fee, 1_000_000);
    assert_eq!(ledger.balance_of(SELLER), 950_000);
    assert_eq!(ledger.balance_of(TREASURY), 50_000);
    assert_eq!(market.escrow_balance(&id("code-review")), 0);
}

#[test]
fn claim_rejects_non_seller() {
    let (mut market, mut ledger) = setup(500);
    market.list_skill(SELLER, id("code-review"), 100, false, None, NOW).unwrap();
    assert_eq!(
        market.claim_payment(&mut ledger, BUYER, 0).unwrap_err(),
        ErrorCode::Unauthorized
    );
}

#[test]
fn second_claim_sees_drained_escrow_not_an_error() {
    let (mut market, mut ledger) = setup(500);
    market.list_skill(SELLER, id("code-review"), 1_000_000, false, None, NOW).unwrap();
    ledger.credit(BUYER, 1_000_000).unwrap();
    market.purchase_skill(&mut ledger, BUYER, 0, id("code-review"), NOW).unwrap();
    market.claim_payment(&mut ledger, SELLER, 0).unwrap();
    let again = market.claim_payment(&mut ledger, SELLER, 0).unwrap();
    assert_eq!(again.amount, 0);
    assert_eq!(again.fee, 0);
    assert_eq!(ledger.balance_of(SELLER), 950_000);
}

#[test]
fn concurrent_purchases_accumulate_shared_escrow() {
    let (mut market, mut ledger) = setup(500);
    market.list_skill(SELLER, id("code-review"), 1_000_000, false, None, NOW).unwrap();
    ledger.credit(BUYER, 1_000_000).unwrap();
    ledger.credit(OTHER_BUYER, 1_000_000).unwrap();
    let first = market.purchase_skill(&mut ledger, BUYER, 0, id("code-review"), NOW).unwrap();
    let second = market
        .purchase_skill(&mut ledger, OTHER_BUYER, 0, id("code-review"), NOW)
        .unwrap();
    assert_ne!(first.license, second.license);
    assert_eq!(market.licenses[first.license].owner, BUYER);
    assert_eq!(market.licenses[second.license].owner, OTHER_BUYER);
    assert_eq!(market.escrow_balance(&id("code-review")), 2_000_000);
}

#[test]
fn claim_fee_is_computed_from_accumulated_balance() {
    // Two purchases accumulate before the claim: the fee is taken from the
    // whole balance, so the per-license platform_fee fields stay purely
    // informational.
    let (mut market, mut ledger) = setup(500);
    market.list_skill(SELLER, id("code-review"), 1_000_000, false, None, NOW).unwrap();
    ledger.credit(BUYER, 1_000_000).unwrap();
    ledger.credit(OTHER_BUYER, 1_000_000).unwrap();
    market.purchase_skill(&mut ledger, BUYER, 0, id("code-review"), NOW).unwrap();
    market
        .purchase_skill(&mut ledger, OTHER_BUYER, 0, id("code-review"), NOW)
        .unwrap();
    let ev = market.claim_payment(&mut ledger, SELLER, 0).unwrap();
    assert_eq!(ev.fee, 100_000);
    assert_eq!(ev.amount, 1_900_000);
    assert_eq!(
        market.licenses[0].platform_fee + market.licenses[1].platform_fee,
        ev.fee
    );
}

#[test]
fn distinct_skills_use_distinct_escrows() {
    let (mut market, mut ledger) = setup(500);
    market.list_skill(SELLER, id("code-review"), 100, false, None, NOW).unwrap();
    market.list_skill(SELLER, id("translation"), 300, false, None, NOW).unwrap();
    ledger.credit(BUYER, 1_000).unwrap();
    market.purchase_skill(&mut ledger, BUYER, 0, id("code-review"), NOW).unwrap();
    market.purchase_skill(&mut ledger, BUYER, 1, id("translation"), NOW).unwrap();
    assert_eq!(market.escrow_balance(&id("code-review")), 100);
    assert_eq!(market.escrow_balance(&id("translation")), 300);
}

#[test]
fn zero_fee_marketplace_charges_nothing() {
    let (mut market, mut ledger) = setup(0);
    market.list_skill(SELLER, id("code-review"), 1_000, false, None, NOW).unwrap();
    ledger.credit(BUYER, 1_000).unwrap();
    let ev = market.purchase_skill(&mut ledger, BUYER, 0, id("code-review"), NOW).unwrap();
    assert_eq!(market.licenses[ev.license].platform_fee, 0);
    let claimed = market.claim_payment(&mut ledger, SELLER, 0).unwrap();
    assert_eq!(claimed.amount, 1_000);
    assert_eq!(claimed.fee, 0);
}

#[test]
fn fee_rounds_down_and_seller_share_rounds_up() {
    // price 999 at 500 bps: exact fee would be 49.95, stored fee is 49.
    let (mut market, mut ledger) = setup(500);
    market.list_skill(SELLER, id("code-review"), 999, false, None, NOW).unwrap();
    ledger.credit(BUYER, 999).unwrap();
    market.purchase_skill(&mut ledger, BUYER, 0, id("code-review"), NOW).unwrap();
    assert_eq!(market.licenses[0].platform_fee, 49);
    let ev = market.claim_payment(&mut ledger, SELLER, 0).unwrap();
    assert_eq!(ev.fee, 49);
    assert_eq!(ev.amount, 950);
}

#[test]
fn ledger_credit_detects_overflow() {
    let mut ledger = Ledger::new();
    ledger.credit(BUYER, u64::MAX).unwrap();
    assert_eq!(ledger.credit(BUYER, 1), Err(ErrorCode::MathOverflow));
    assert_eq!(ledger.balance_of(BUYER), u64::MAX);
}

#[test]
fn claim_detects_payout_overflow_and_changes_nothing() {
    let (mut market, mut ledger) = setup(0);
    market.list_skill(SELLER, id("code-review"), 100, false, None, NOW).unwrap();
    ledger.credit(BUYER, 100).unwrap();
    market.purchase_skill(&mut ledger, BUYER, 0, id("code-review"), NOW).unwrap();
    // The seller's wallet cannot absorb the payout.
    ledger.credit(SELLER, u64::MAX - 50).unwrap();
    assert_eq!(
        market.claim_payment(&mut ledger, SELLER, 0).unwrap_err(),
        ErrorCode::MathOverflow
    );
    assert_eq!(market.escrow_balance(&id("code-review")), 100);
    assert_eq!(ledger.balance_of(SELLER), u64::MAX - 50);
    assert_eq!(ledger.balance_of(TREASURY), 0);
}
