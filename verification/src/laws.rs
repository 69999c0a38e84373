//! The laws the marketplace obeys, stated over the spec-level transitions
//! that the operations' contracts are tied to, and proved once and for all
//! inputs.

use vstd::prelude::*;
use crate::errors::ErrorCode;
use crate::fee::{fee_amount, lemma_fee_le_amount};
use crate::ledger::{
    lemma_wallet_credit, lemma_wallet_debit, wallet_balance, wallets_unique, WalletAccount,
};
use crate::market::{
    escrow_funds, fits_i64, has_license, lemma_escrow_credit, lemma_escrow_drain, model_wf,
    spec_claim, spec_initialize, spec_purchase, spec_verify, MarketModel,
};
use crate::state::{license_status, subscription_length, LicenseStatus};

verus! {

/// A deployment is initialized exactly once. On a fresh deployment any fee
/// above 1,000 basis points fails with the fee-bound error, any fee within
/// [0, 1000] succeeds — and after that first success every further attempt,
/// whatever its arguments, finds the singleton's address occupied and fails.
pub proof fn lemma_initialize_exactly_once(m: MarketModel, a1: u64, t1: u64, f1: u16, a2: u64, t2: u64, f2: u16)
    requires
        m.marketplace is None,
    ensures
        f1 > 1000 ==> spec_initialize(m, a1, t1, f1).1 == Err::<(), ErrorCode>(ErrorCode::InvalidFee),
        f1 <= 1000 ==> spec_initialize(m, a1, t1, f1).1 is Ok
            && spec_initialize(spec_initialize(m, a1, t1, f1).0, a2, t2, f2).1
                == Err::<(), ErrorCode>(ErrorCode::AlreadyExists),
{
}

/// What a successful purchase creates. The platform fee is
/// `floor(price * feeBps / 10000)`, computed once and stored on the new
/// license; the license starts active with zero uses; a subscription
/// listing yields `expiresAt = now + duration` (the listing's duration, or
/// the 30-day default), a non-subscription listing a perpetual license; the
/// escrow gains exactly the price and the buyer's wallet loses it.
pub proof fn lemma_purchase_success(m: MarketModel, led: Seq<WalletAccount>, buyer: u64, listing: usize, skill_id: Seq<u8>, now: i64)
    requires
        model_wf(m),
        wallets_unique(led),
        spec_purchase(m, led, buyer, listing, skill_id, now).2 is Ok,
    ensures
        ({
            let (m2, led2, res) = spec_purchase(m, led, buyer, listing, skill_id, now);
            let lst = m.listings[listing as int];
            let lic = m2.licenses[m.licenses.len() as int];
            &&& res == Ok::<int, ErrorCode>(m.licenses.len() as int)
            &&& m2.licenses.len() == m.licenses.len() + 1
            &&& lic.owner == buyer
            &&& lic.skill_listing == listing
            &&& lic.purchase_price == lst.price
            &&& lic.platform_fee == fee_amount(lst.price, m.marketplace->0.platform_fee_bps)
            &&& lic.is_active
            &&& lic.usage_count == 0
            &&& lic.last_used_at == 0
            &&& lic.created_at == now
            &&& (lst.is_subscription ==> lic.expires_at
                == Some((now + subscription_length(lst.subscription_duration)) as i64))
            &&& (!lst.is_subscription ==> lic.expires_at is None)
            &&& escrow_funds(m2.escrows, skill_id) == escrow_funds(m.escrows, skill_id) + lst.price
            &&& wallet_balance(led2, buyer) == wallet_balance(led, buyer) - lst.price
            &&& m2.listings == m.listings
            &&& m2.marketplace == m.marketplace
        }),
{
    let lst = m.listings[listing as int];
    lemma_escrow_credit(m.escrows, skill_id, lst.price);
    lemma_wallet_debit(led, buyer, lst.price);
}

/// A claim settles the whole escrow balance with nothing lost: the seller's
/// amount and the platform fee sum exactly to the pre-claim balance, the
/// fee is `floor(balance * feeBps / 10000)`, the escrow is left drained,
/// and (when seller and treasury differ) each party's wallet grows by
/// exactly its share.
pub proof fn lemma_claim_settles_exactly(m: MarketModel, led: Seq<WalletAccount>, caller: u64, listing: usize)
    requires
        model_wf(m),
        wallets_unique(led),
        spec_claim(m, led, caller, listing).2 is Ok,
    ensures
        ({
            let (m2, led2, res) = spec_claim(m, led, caller, listing);
            let lst = m.listings[listing as int];
            let balance = escrow_funds(m.escrows, lst.skill_id);
            let fee = fee_amount(balance, m.marketplace->0.platform_fee_bps) as u64;
            &&& res == Ok::<(u64, u64), ErrorCode>(((balance - fee) as u64, fee))
            &&& (balance - fee) + fee == balance
            &&& escrow_funds(m2.escrows, lst.skill_id) == 0
            &&& (m.marketplace->0.treasury != lst.seller
                ==> wallet_balance(led2, lst.seller) == wallet_balance(led, lst.seller) + (balance - fee)
                    && wallet_balance(led2, m.marketplace->0.treasury)
                        == wallet_balance(led, m.marketplace->0.treasury) + fee)
        }),
{
    let lst = m.listings[listing as int];
    let mp = m.marketplace->0;
    let balance = escrow_funds(m.escrows, lst.skill_id);
    lemma_fee_le_amount(balance, mp.platform_fee_bps);
    let fee = fee_amount(balance, mp.platform_fee_bps) as u64;
    let seller_amount = (balance - fee) as u64;
    lemma_wallet_credit(led, lst.seller, seller_amount);
    let led1 = crate::ledger::wallet_credit(led, lst.seller, seller_amount);
    lemma_wallet_credit(led1, mp.treasury, fee);
    lemma_escrow_drain(m.escrows, lst.skill_id);
}

/// A perpetual license — one without an expiry — verifies Active at any
/// time whatever, as long as its flag is set, and each such verification
/// counts exactly one use and stamps the time.
pub proof fn lemma_perpetual_license_active(m: MarketModel, license: usize, now: i64)
    requires
        license < m.licenses.len(),
        m.licenses[license as int].is_active,
        m.licenses[license as int].expires_at is None,
        m.licenses[license as int].usage_count < u64::MAX,
    ensures
        license_status(m.licenses[license as int], now) == LicenseStatus::Active,
        ({
            let (m2, res) = spec_verify(m, m.licenses[license as int].owner, license, now);
            &&& res == Ok::<LicenseStatus, ErrorCode>(LicenseStatus::Active)
            &&& m2.licenses[license as int].usage_count == m.licenses[license as int].usage_count + 1
            &&& m2.licenses[license as int].last_used_at == now
        }),
{
}

/// Verifying a license strictly after its expiry instant returns Expired
/// and mutates nothing: usage count and last-used time stay exactly as they
/// were.
pub proof fn lemma_expired_license_untouched(m: MarketModel, caller: u64, license: usize, now: i64)
    requires
        license < m.licenses.len(),
        caller == m.licenses[license as int].owner,
        m.licenses[license as int].is_active,
        m.licenses[license as int].expires_at matches Some(e) && now > e,
    ensures
        spec_verify(m, caller, license, now) == (m, Ok::<LicenseStatus, ErrorCode>(LicenseStatus::Expired)),
        license_status(m.licenses[license as int], now) == LicenseStatus::Expired,
{
}

/// A subscription with no explicit duration runs the 30-day default:
/// 2,592,000 seconds.
pub proof fn lemma_default_duration()
    ensures
        subscription_length(None::<i64>) == 2_592_000,
{
}

/// A deactivated listing rejects every purchase with the inactive-listing
/// error and leaves market and ledger untouched.
pub proof fn lemma_inactive_listing_rejects_purchase(m: MarketModel, led: Seq<WalletAccount>, buyer: u64, listing: usize, skill_id: Seq<u8>, now: i64)
    requires
        m.marketplace is Some,
        listing < m.listings.len(),
        m.listings[listing as int].skill_id == skill_id,
        !m.listings[listing as int].is_active,
    ensures
        spec_purchase(m, led, buyer, listing, skill_id, now)
            == (m, led, Err::<int, ErrorCode>(ErrorCode::SkillNotActive)),
{
}

/// Two purchases of the same active listing by different buyers — the
/// serialization of two concurrent purchases — both succeed, create two
/// distinct licenses, and leave the shared escrow holding the sum of both
/// prices on top of what it held before.
pub proof fn lemma_concurrent_purchases(m: MarketModel, led: Seq<WalletAccount>, b1: u64, b2: u64, listing: usize, skill_id: Seq<u8>, now1: i64, now2: i64)
    requires
        model_wf(m),
        wallets_unique(led),
        b1 != b2,
        m.marketplace is Some,
        listing < m.listings.len(),
        m.listings[listing as int].skill_id == skill_id,
        m.listings[listing as int].is_active,
        m.listings[listing as int].price * m.marketplace->0.platform_fee_bps <= u64::MAX,
        m.listings[listing as int].is_subscription
            ==> fits_i64(now1 + subscription_length(m.listings[listing as int].subscription_duration))
                && fits_i64(now2 + subscription_length(m.listings[listing as int].subscription_duration)),
        escrow_funds(m.escrows, skill_id) + 2 * m.listings[listing as int].price <= u64::MAX,
        !has_license(m.licenses, b1, listing),
        !has_license(m.licenses, b2, listing),
        wallet_balance(led, b1) >= m.listings[listing as int].price,
        wallet_balance(led, b2) >= m.listings[listing as int].price,
    ensures
        ({
            let (m1, led1, r1) = spec_purchase(m, led, b1, listing, skill_id, now1);
            let (m2, led2, r2) = spec_purchase(m1, led1, b2, listing, skill_id, now2);
            &&& r1 == Ok::<int, ErrorCode>(m.licenses.len() as int)
            &&& r2 == Ok::<int, ErrorCode>(m.licenses.len() as int + 1)
            &&& r1 != r2
            &&& m2.licenses.len() == m.licenses.len() + 2
            &&& m2.licenses[m.licenses.len() as int].owner == b1
            &&& m2.licenses[m.licenses.len() as int + 1].owner == b2
            &&& escrow_funds(m2.escrows, skill_id)
                == escrow_funds(m.escrows, skill_id) + 2 * m.listings[listing as int].price
        }),
{
    let price = m.listings[listing as int].price;
    let (m1, led1, r1) = spec_purchase(m, led, b1, listing, skill_id, now1);
    lemma_escrow_credit(m.escrows, skill_id, price);
    lemma_wallet_debit(led, b1, price);
    assert(m1.listings == m.listings);
    assert forall|i: int| 0 <= i < m1.licenses.len()
        implies !(m1.licenses[i].owner == b2 && m1.licenses[i].skill_listing == listing) by {
        if i < m.licenses.len() {
            assert(m1.licenses[i] == m.licenses[i]);
            if m.licenses[i].owner == b2 && m.licenses[i].skill_listing == listing {
                assert(has_license(m.licenses, b2, listing));
            }
        } else {
            assert(m1.licenses[i].owner == b1);
        }
    }
    assert(!has_license(m1.licenses, b2, listing));
    let (m2, led2, r2) = spec_purchase(m1, led1, b2, listing, skill_id, now2);
    lemma_escrow_credit(m1.escrows, skill_id, price);
    lemma_wallet_debit(led1, b2, price);
}

} // verus!

