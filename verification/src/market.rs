//! The marketplace state machine: registry, listings, escrows and licenses,
//! and the six operations that mutate them.
//!
//! Every operation validates before it mutates, so an error always leaves
//! both the market and the ledger exactly as they were. Records are created
//! at composite-key addresses — (seller, skill identifier) for a listing,
//! (buyer, listing) for a license, the skill identifier alone for an escrow —
//! and creation fails when the address is already occupied, so exactly one
//! creator wins.

use vstd::prelude::*;
use vstd::pervasive::VecAdditionalExecFns;
use crate::bytes::{bytes_clone, bytes_eq};
use crate::errors::ErrorCode;
use crate::fee::{fee_amount, platform_fee, MAX_FEE_BPS};
use crate::ledger::{wallet_balance, wallet_credit, wallet_debit, Ledger, WalletAccount};
use crate::state::{
    license_expiry, license_status, Escrow, EscrowModel, License,
    LicenseStatus, ListingModel, Marketplace, PaymentClaimed, SkillListed, SkillListing,
    SkillPurchased, DEFAULT_SUBSCRIPTION_DURATION,
};

verus! {

/// The whole transactional state the six operations act on, apart from the
/// injected ledger.
#[derive(Debug)]
pub struct Market {
    /// The singleton configuration; `None` until `initialize_marketplace`.
    pub marketplace: Option<Marketplace>,
    /// Listings, addressed by position; never removed.
    pub listings: Vec<SkillListing>,
    /// Licenses, addressed by position; never removed.
    pub licenses: Vec<License>,
    /// Escrow balances, one per skill identifier with purchases.
    pub escrows: Vec<Escrow>,
}

/// Mathematical image of a [`Market`].
#[verifier::ext_equal]
pub ghost struct MarketModel {
    pub marketplace: Option<Marketplace>,
    pub listings: Seq<ListingModel>,
    pub licenses: Seq<License>,
    pub escrows: Seq<EscrowModel>,
}

impl View for Market {
    type V = MarketModel;

    open spec fn view(&self) -> MarketModel {
        MarketModel {
            marketplace: self.marketplace,
            listings: Seq::new(self.listings@.len(), |i: int| self.listings@[i]@),
            licenses: self.licenses@,
            escrows: Seq::new(self.escrows@.len(), |i: int| self.escrows@[i]@),
        }
    }
}

/// The model of a market with nothing in it.
pub open spec fn empty_market() -> MarketModel {
    MarketModel {
        marketplace: None,
        listings: Seq::empty(),
        licenses: Seq::empty(),
        escrows: Seq::empty(),
    }
}

/// Whether a listing for (seller, skill_id) exists.
pub open spec fn has_listing(s: Seq<ListingModel>, seller: u64, skill_id: Seq<u8>) -> bool {
    exists|i: int| 0 <= i < s.len() && s[i].seller == seller && s[i].skill_id == skill_id
}

/// The address of the listing for (seller, skill_id); meaningful only when
/// `has_listing`.
pub open spec fn listing_at(s: Seq<ListingModel>, seller: u64, skill_id: Seq<u8>) -> int {
    choose|i: int| 0 <= i < s.len() && s[i].seller == seller && s[i].skill_id == skill_id
}

/// No two listings share a (seller, skill_id) address.
pub open spec fn listings_unique(s: Seq<ListingModel>) -> bool {
    forall|i: int, j: int| 0 <= i < j < s.len()
        ==> !(s[i].seller == s[j].seller && s[i].skill_id == s[j].skill_id)
}

/// Whether a license for (owner, listing) exists.
pub open spec fn has_license(s: Seq<License>, owner: u64, listing: usize) -> bool {
    exists|i: int| 0 <= i < s.len() && s[i].owner == owner && s[i].skill_listing == listing
}

/// The address of the license for (owner, listing); meaningful only when
/// `has_license`.
pub open spec fn license_at(s: Seq<License>, owner: u64, listing: usize) -> int {
    choose|i: int| 0 <= i < s.len() && s[i].owner == owner && s[i].skill_listing == listing
}

/// No two licenses share an (owner, listing) address.
pub open spec fn licenses_unique(s: Seq<License>) -> bool {
    forall|i: int, j: int| 0 <= i < j < s.len()
        ==> !(s[i].owner == s[j].owner && s[i].skill_listing == s[j].skill_listing)
}

/// Whether an escrow for `skill_id` exists.
pub open spec fn has_escrow(s: Seq<EscrowModel>, skill_id: Seq<u8>) -> bool {
    exists|i: int| 0 <= i < s.len() && s[i].skill_id == skill_id
}

/// The position of the escrow for `skill_id`; meaningful only when
/// `has_escrow`.
pub open spec fn escrow_at(s: Seq<EscrowModel>, skill_id: Seq<u8>) -> int {
    choose|i: int| 0 <= i < s.len() && s[i].skill_id == skill_id
}

/// The funds held in escrow for `skill_id`; zero when no purchase has
/// created the escrow yet.
pub open spec fn escrow_funds(s: Seq<EscrowModel>, skill_id: Seq<u8>) -> u64 {
    if has_escrow(s, skill_id) {
        s[escrow_at(s, skill_id)].balance
    } else {
        0u64
    }
}

/// Escrow table after `amount` is paid in for `skill_id`; the escrow is
/// implicitly created on the first purchase of a skill.
pub open spec fn escrow_credit(s: Seq<EscrowModel>, skill_id: Seq<u8>, amount: u64) -> Seq<EscrowModel> {
    if has_escrow(s, skill_id) {
        s.update(
            escrow_at(s, skill_id),
            (EscrowModel { skill_id, balance: (escrow_funds(s, skill_id) + amount) as u64 }),
        )
    } else {
        s.push(EscrowModel { skill_id, balance: amount })
    }
}

/// Escrow table after a claim drains the whole balance for `skill_id`; the
/// record stays, emptied, rather than being removed.
pub open spec fn escrow_drain(s: Seq<EscrowModel>, skill_id: Seq<u8>) -> Seq<EscrowModel> {
    if has_escrow(s, skill_id) {
        s.update(escrow_at(s, skill_id), (EscrowModel { skill_id, balance: 0u64 }))
    } else {
        s
    }
}

/// No two escrows share a skill identifier.
pub open spec fn escrows_unique(s: Seq<EscrowModel>) -> bool {
    forall|i: int, j: int| 0 <= i < j < s.len() ==> s[i].skill_id != s[j].skill_id
}

/// In a duplicate-free escrow table, the record at position `i` is the one
/// lookup by its skill identifier finds.
pub proof fn lemma_escrow_found(s: Seq<EscrowModel>, i: int)
    requires
        escrows_unique(s),
        0 <= i < s.len(),
    ensures
        has_escrow(s, s[i].skill_id),
        escrow_at(s, s[i].skill_id) == i,
{
    let sid = s[i].skill_id;
    assert(has_escrow(s, sid));
    let j = escrow_at(s, sid);
    assert(0 <= j < s.len() && s[j].skill_id == sid);
    if i < j {
        assert(s[i].skill_id != s[j].skill_id);
    } else if j < i {
        assert(s[j].skill_id != s[i].skill_id);
    }
}

/// Paying into one escrow raises exactly that balance, leaves every other
/// balance unchanged, and keeps the table duplicate-free.
pub proof fn lemma_escrow_credit(s: Seq<EscrowModel>, skill_id: Seq<u8>, amount: u64)
    requires
        escrows_unique(s),
        escrow_funds(s, skill_id) + amount <= u64::MAX,
    ensures
        escrows_unique(escrow_credit(s, skill_id, amount)),
        escrow_funds(escrow_credit(s, skill_id, amount), skill_id) == escrow_funds(s, skill_id) + amount,
        forall|o: Seq<u8>| o != skill_id
            ==> escrow_funds(escrow_credit(s, skill_id, amount), o) == escrow_funds(s, o),
{
    let t = escrow_credit(s, skill_id, amount);
    if has_escrow(s, skill_id) {
        let i = escrow_at(s, skill_id);
        assert(0 <= i < s.len() && s[i].skill_id == skill_id);
        assert forall|p: int, q: int| 0 <= p < q < t.len() implies t[p].skill_id != t[q].skill_id by {
            assert(t[p].skill_id == s[p].skill_id);
            assert(t[q].skill_id == s[q].skill_id);
        }
        lemma_escrow_found(t, i);
        assert forall|o: Seq<u8>| o != skill_id implies escrow_funds(t, o) == escrow_funds(s, o) by {
            lemma_escrow_other_funds(s, t, i, o);
        }
    } else {
        assert forall|p: int, q: int| 0 <= p < q < t.len() implies t[p].skill_id != t[q].skill_id by {
            if q < s.len() {
                assert(t[p].skill_id == s[p].skill_id);
                assert(t[q].skill_id == s[q].skill_id);
            } else {
                assert(t[q].skill_id == skill_id);
                assert(t[p].skill_id == s[p].skill_id);
                assert(!(0 <= p < s.len() && s[p].skill_id == skill_id));
            }
        }
        lemma_escrow_found(t, s.len() as int);
        assert forall|o: Seq<u8>| o != skill_id implies escrow_funds(t, o) == escrow_funds(s, o) by {
            if has_escrow(s, o) {
                let k = escrow_at(s, o);
                assert(0 <= k < s.len() && s[k].skill_id == o);
                assert(t[k] == s[k]);
                lemma_escrow_found(t, k);
            } else {
                if has_escrow(t, o) {
                    let k = escrow_at(t, o);
                    assert(0 <= k < t.len() && t[k].skill_id == o);
                    if k < s.len() {
                        assert(s[k].skill_id == o);
                    } else {
                        assert(t[k].skill_id == skill_id);
                    }
                }
            }
        }
    }
}

/// Draining one escrow zeroes exactly that balance, leaves every other
/// balance unchanged, and keeps the table duplicate-free.
pub proof fn lemma_escrow_drain(s: Seq<EscrowModel>, skill_id: Seq<u8>)
    requires
        escrows_unique(s),
    ensures
        escrows_unique(escrow_drain(s, skill_id)),
        escrow_funds(escrow_drain(s, skill_id), skill_id) == 0,
        forall|o: Seq<u8>| o != skill_id
            ==> escrow_funds(escrow_drain(s, skill_id), o) == escrow_funds(s, o),
{
    let t = escrow_drain(s, skill_id);
    if has_escrow(s, skill_id) {
        let i = escrow_at(s, skill_id);
        assert(0 <= i < s.len() && s[i].skill_id == skill_id);
        assert forall|p: int, q: int| 0 <= p < q < t.len() implies t[p].skill_id != t[q].skill_id by {
            assert(t[p].skill_id == s[p].skill_id);
            assert(t[q].skill_id == s[q].skill_id);
        }
        lemma_escrow_found(t, i);
        assert forall|o: Seq<u8>| o != skill_id implies escrow_funds(t, o) == escrow_funds(s, o) by {
            lemma_escrow_other_funds(s, t, i, o);
        }
    }
}

/// Updating escrow position `i` without changing its key leaves lookups for
/// every other skill identifier untouched.
proof fn lemma_escrow_other_funds(s: Seq<EscrowModel>, t: Seq<EscrowModel>, i: int, o: Seq<u8>)
    requires
        escrows_unique(s),
        0 <= i < s.len(),
        t.len() == s.len(),
        t[i].skill_id == s[i].skill_id,
        o != s[i].skill_id,
        forall|k: int| 0 <= k < s.len() && k != i ==> t[k] == s[k],
    ensures
        escrow_funds(t, o) == escrow_funds(s, o),
{
    assert(escrows_unique(t));
    if has_escrow(s, o) {
        let k = escrow_at(s, o);
        assert(0 <= k < s.len() && s[k].skill_id == o);
        assert(k != i);
        assert(t[k] == s[k]);
        lemma_escrow_found(t, k);
    } else {
        if has_escrow(t, o) {
            let k = escrow_at(t, o);
            assert(0 <= k < t.len() && t[k].skill_id == o);
            assert(k != i);
            assert(s[k].skill_id == o);
        }
    }
}

/// Every invariant the records promise: the fee bound and the skill count on
/// the registry, key uniqueness for listings, licenses and escrows, licenses
/// pointing at existing listings, and listing validity (positive price,
/// bounded identifier). Before initialization nothing else exists.
pub open spec fn model_wf(m: MarketModel) -> bool {
    &&& (m.marketplace matches Some(mp)
        ==> mp.platform_fee_bps <= MAX_FEE_BPS && mp.skill_count == m.listings.len())
    &&& (m.marketplace is None
        ==> m.listings.len() == 0 && m.licenses.len() == 0 && m.escrows.len() == 0)
    &&& listings_unique(m.listings)
    &&& licenses_unique(m.licenses)
    &&& (forall|i: int| 0 <= i < m.licenses.len()
        ==> (m.licenses[i].skill_listing as int) < m.listings.len())
    &&& escrows_unique(m.escrows)
    &&& (forall|i: int| 0 <= i < m.listings.len()
        ==> m.listings[i].price > 0 && m.listings[i].skill_id.len() <= 64)
}

impl Market {
    /// A well-formed market: see [`model_wf`].
    pub open spec fn wf(&self) -> bool {
        model_wf(self@)
    }

    /// A market with nothing in it; `initialize_marketplace` must run before
    /// anything else can.
    pub fn new() -> (m: Market)
        ensures
            m@ == empty_market(),
            m.wf(),
    {
        let m = Market {
            marketplace: None,
            listings: Vec::new(),
            licenses: Vec::new(),
            escrows: Vec::new(),
        };
        proof {
            assert(m@ =~= empty_market());
        }
        m
    }

    /// Recomputes the deterministic address of the listing created for
    /// (seller, skill_id), if one exists.
    pub fn find_listing(&self, seller: u64, skill_id: &Vec<u8>) -> (r: Option<usize>)
        requires
            self.wf(),
        ensures
            (r is Some) == has_listing(self@.listings, seller, skill_id@),
            r matches Some(i) ==> i < self@.listings.len()
                && self@.listings[i as int].seller == seller
                && self@.listings[i as int].skill_id == skill_id@
                && i as int == listing_at(self@.listings, seller, skill_id@),
    {
        let mut i: usize = 0;
        while i < self.listings.len()
            invariant
                i <= self.listings.len(),
                forall|j: int| 0 <= j < i
                    ==> !(self@.listings[j].seller == seller && self@.listings[j].skill_id == skill_id@),
                self.wf(),
            decreases self.listings.len() - i,
        {
            if self.listings[i].seller == seller && bytes_eq(&self.listings[i].skill_id, skill_id) {
                proof {
                    lemma_listing_found(self@.listings, i as int);
                }
                return Some(i);
            }
            i = i + 1;
        }
        proof {
            assert(!has_listing(self@.listings, seller, skill_id@));
        }
        None
    }

    /// Recomputes the deterministic address of the license created for
    /// (owner, listing), if one exists.
    pub fn find_license(&self, owner: u64, listing: usize) -> (r: Option<usize>)
        requires
            self.wf(),
        ensures
            (r is Some) == has_license(self@.licenses, owner, listing),
            r matches Some(i) ==> i < self@.licenses.len()
                && self@.licenses[i as int].owner == owner
                && self@.licenses[i as int].skill_listing == listing
                && i as int == license_at(self@.licenses, owner, listing),
    {
        let mut i: usize = 0;
        while i < self.licenses.len()
            invariant
                i <= self.licenses.len(),
                forall|j: int| 0 <= j < i
                    ==> !(self@.licenses[j].owner == owner && self@.licenses[j].skill_listing == listing),
                self.wf(),
            decreases self.licenses.len() - i,
        {
            if self.licenses[i].owner == owner && self.licenses[i].skill_listing == listing {
                proof {
                    lemma_license_found(self@.licenses, i as int);
                }
                return Some(i);
            }
            i = i + 1;
        }
        proof {
            assert(!has_license(self@.licenses, owner, listing));
        }
        None
    }

    /// Position of the escrow record for `skill_id`, if any purchase has
    /// created it.
    fn find_escrow_idx(&self, skill_id: &Vec<u8>) -> (r: Option<usize>)
        requires
            self.wf(),
        ensures
            (r is Some) == has_escrow(self@.escrows, skill_id@),
            r matches Some(i) ==> i < self@.escrows.len()
                && self@.escrows[i as int].skill_id == skill_id@
                && i as int == escrow_at(self@.escrows, skill_id@),
    {
        let mut i: usize = 0;
        while i < self.escrows.len()
            invariant
                i <= self.escrows.len(),
                forall|j: int| 0 <= j < i ==> self@.escrows[j].skill_id != skill_id@,
                self.wf(),
            decreases self.escrows.len() - i,
        {
            if bytes_eq(&self.escrows[i].skill_id, skill_id) {
                proof {
                    lemma_escrow_found(self@.escrows, i as int);
                }
                return Some(i);
            }
            i = i + 1;
        }
        proof {
            assert(!has_escrow(self@.escrows, skill_id@));
        }
        None
    }

    /// The funds currently held in escrow for `skill_id`.
    pub fn escrow_balance(&self, skill_id: &Vec<u8>) -> (r: u64)
        requires
            self.wf(),
        ensures
            r == escrow_funds(self@.escrows, skill_id@),
    {
        match self.find_escrow_idx(skill_id) {
            Some(i) => self.escrows[i].balance,
            None => 0,
        }
    }

    /// Creates the singleton registry. Fails with `InvalidFee` when the fee
    /// is above 1,000 basis points, and with `AlreadyExists` — the
    /// deterministic address is occupied — on any call after the first
    /// success.
    pub fn initialize_marketplace(&mut self, authority: u64, treasury: u64, platform_fee_bps: u16) -> (r: Result<(), ErrorCode>)
        requires
            old(self).wf(),
        ensures
            final(self).wf(),
            match r {
                Ok(()) => old(self)@.marketplace is None && platform_fee_bps <= MAX_FEE_BPS
                    && final(self)@ == (MarketModel {
                        marketplace: Some(Marketplace { authority, treasury, platform_fee_bps, skill_count: 0 }),
                        ..old(self)@
                    }),
                Err(e) => final(self)@ == old(self)@
                    && ((e == ErrorCode::AlreadyExists && old(self)@.marketplace is Some)
                        || (e == ErrorCode::InvalidFee && old(self)@.marketplace is None
                            && platform_fee_bps > MAX_FEE_BPS)),
            },
            ({
                let spec_r = spec_initialize(old(self)@, authority, treasury, platform_fee_bps);
                final(self)@ == spec_r.0 && r == spec_r.1
            }),
    {
        if self.marketplace.is_some() {
            return Err(ErrorCode::AlreadyExists);
        }
        if platform_fee_bps > MAX_FEE_BPS {
            return Err(ErrorCode::InvalidFee);
        }
        self.marketplace = Some(Marketplace { authority, treasury, platform_fee_bps, skill_count: 0 });
        proof {
            assert(final(self)@ =~= (MarketModel {
                marketplace: Some(Marketplace { authority, treasury, platform_fee_bps, skill_count: 0 }),
                ..old(self)@
            }));
        }
        Ok(())
    }
}

/// Why a listing attempt is rejected, or `None` when it must succeed:
/// identifier too long, non-positive price, registry not initialized yet,
/// the (seller, skill_id) address already occupied, or the skill counter at
/// its ceiling.
pub open spec fn list_error(m: MarketModel, seller: u64, skill_id: Seq<u8>, price: u64) -> Option<ErrorCode> {
    if skill_id.len() > 64 {
        Some(ErrorCode::SkillIdTooLong)
    } else if price == 0 {
        Some(ErrorCode::InvalidPrice)
    } else if m.marketplace is None {
        Some(ErrorCode::NotFound)
    } else if has_listing(m.listings, seller, skill_id) {
        Some(ErrorCode::AlreadyExists)
    } else if m.marketplace->0.skill_count == u64::MAX {
        Some(ErrorCode::MathOverflow)
    } else {
        None
    }
}

impl Market {
    /// Registers a skill listing at the (seller, skill_id) address, active
    /// and priced as given, and counts it in the registry. Exactly one of
    /// two concurrent attempts on the same address can succeed, since
    /// creation fails on an occupied address.
    pub fn list_skill(&mut self, seller: u64, skill_id: Vec<u8>, price: u64, is_subscription: bool, subscription_duration: Option<i64>, now: i64) -> (r: Result<SkillListed, ErrorCode>)
        requires
            old(self).wf(),
        ensures
            final(self).wf(),
            match r {
                Ok(ev) => list_error(old(self)@, seller, skill_id@, price) is None
                    && final(self)@ == (MarketModel {
                        marketplace: Some(Marketplace {
                            skill_count: (old(self)@.marketplace->0.skill_count + 1) as u64,
                            ..old(self)@.marketplace->0
                        }),
                        listings: old(self)@.listings.push(ListingModel {
                            seller,
                            skill_id: skill_id@,
                            price,
                            is_subscription,
                            subscription_duration,
                            is_active: true,
                            created_at: now,
                        }),
                        ..old(self)@
                    })
                    && ev.seller == seller && ev.skill_id@ == skill_id@ && ev.price == price,
                Err(e) => final(self)@ == old(self)@
                    && Some(e) == list_error(old(self)@, seller, skill_id@, price),
            },
    {
        if skill_id.len() > 64 {
            return Err(ErrorCode::SkillIdTooLong);
        }
        if price == 0 {
            return Err(ErrorCode::InvalidPrice);
        }
        let mp = match self.marketplace {
            Some(m) => m,
            None => {
                return Err(ErrorCode::NotFound);
            },
        };
        if self.find_listing(seller, &skill_id).is_some() {
            return Err(ErrorCode::AlreadyExists);
        }
        let new_count = match mp.skill_count.checked_add(1) {
            Some(c) => c,
            None => {
                return Err(ErrorCode::MathOverflow);
            },
        };
        let ev = SkillListed { seller, skill_id: bytes_clone(&skill_id), price };
        self.listings.push(SkillListing {
            seller,
            skill_id,
            price,
            is_subscription,
            subscription_duration,
            is_active: true,
            created_at: now,
        });
        self.marketplace = Some(Marketplace {
            authority: mp.authority,
            treasury: mp.treasury,
            platform_fee_bps: mp.platform_fee_bps,
            skill_count: new_count,
        });
        proof {
            let ol = old(self)@.listings;
            let nl = ListingModel {
                seller,
                skill_id: skill_id@,
                price,
                is_subscription,
                subscription_duration,
                is_active: true,
                created_at: now,
            };
            assert(self@.listings =~= ol.push(nl));
            assert forall|p: int, q: int| 0 <= p < q < self@.listings.len()
                implies !(self@.listings[p].seller == self@.listings[q].seller
                    && self@.listings[p].skill_id == self@.listings[q].skill_id) by {
                if q < ol.len() {
                    assert(self@.listings[p] == ol[p]);
                    assert(self@.listings[q] == ol[q]);
                } else {
                    assert(self@.listings[q] == nl);
                    assert(self@.listings[p] == ol[p]);
                    if ol[p].seller == seller && ol[p].skill_id == skill_id@ {
                        assert(has_listing(ol, seller, skill_id@));
                    }
                }
            }
            assert(self@ =~= (MarketModel {
                marketplace: Some(Marketplace {
                    skill_count: (old(self)@.marketplace->0.skill_count + 1) as u64,
                    ..old(self)@.marketplace->0
                }),
                listings: ol.push(nl),
                ..old(self)@
            }));
        }
        Ok(ev)
    }

    /// Toggles the listing's active flag; nothing else changes. Only the
    /// listing's seller may do this, and deactivation is the only way to
    /// stop purchases — listings are never deleted.
    pub fn update_skill_status(&mut self, caller: u64, listing: usize, is_active: bool) -> (r: Result<(), ErrorCode>)
        requires
            old(self).wf(),
        ensures
            final(self).wf(),
            match r {
                Ok(()) => listing < old(self)@.listings.len()
                    && caller == old(self)@.listings[listing as int].seller
                    && final(self)@ == (MarketModel {
                        listings: old(self)@.listings.update(
                            listing as int,
                            (ListingModel { is_active, ..old(self)@.listings[listing as int] }),
                        ),
                        ..old(self)@
                    }),
                Err(e) => final(self)@ == old(self)@
                    && ((e == ErrorCode::NotFound && listing >= old(self)@.listings.len())
                        || (e == ErrorCode::Unauthorized && listing < old(self)@.listings.len()
                            && caller != old(self)@.listings[listing as int].seller)),
            },
    {
        if listing >= self.listings.len() {
            return Err(ErrorCode::NotFound);
        }
        if self.listings[listing].seller != caller {
            return Err(ErrorCode::Unauthorized);
        }
        let seller = self.listings[listing].seller;
        let price = self.listings[listing].price;
        let is_subscription = self.listings[listing].is_subscription;
        let subscription_duration = self.listings[listing].subscription_duration;
        let created_at = self.listings[listing].created_at;
        let sid = bytes_clone(&self.listings[listing].skill_id);
        self.listings.set(listing, SkillListing {
            seller,
            skill_id: sid,
            price,
            is_subscription,
            subscription_duration,
            is_active,
            created_at,
        });
        proof {
            let ol = old(self)@.listings;
            let ul = ListingModel { is_active, ..ol[listing as int] };
            assert(self@.listings =~= ol.update(listing as int, ul));
            assert forall|p: int, q: int| 0 <= p < q < self@.listings.len()
                implies !(self@.listings[p].seller == self@.listings[q].seller
                    && self@.listings[p].skill_id == self@.listings[q].skill_id) by {
                assert(self@.listings[p].seller == ol[p].seller);
                assert(self@.listings[p].skill_id == ol[p].skill_id);
                assert(self@.listings[q].seller == ol[q].seller);
                assert(self@.listings[q].skill_id == ol[q].skill_id);
            }
            assert(self@ =~= (MarketModel { listings: ol.update(listing as int, ul), ..old(self)@ }));
        }
        Ok(())
    }
}

/// The initialization transition: what `initialize_marketplace` does to
/// the model, and which error it reports.
pub open spec fn spec_initialize(m: MarketModel, authority: u64, treasury: u64, platform_fee_bps: u16) -> (MarketModel, Result<(), ErrorCode>) {
    if m.marketplace is Some {
        (m, Err(ErrorCode::AlreadyExists))
    } else if platform_fee_bps > MAX_FEE_BPS {
        (m, Err(ErrorCode::InvalidFee))
    } else {
        (
            MarketModel {
                marketplace: Some(Marketplace { authority, treasury, platform_fee_bps, skill_count: 0 }),
                ..m
            },
            Ok(()),
        )
    }
}

/// Whether a mathematical integer fits in an `i64`.
pub open spec fn fits_i64(x: int) -> bool {
    i64::MIN <= x <= i64::MAX
}

/// The purchase transition: what `purchase_skill` does to the market and
/// the ledger, and which error it reports, as a function of the old state.
/// On success the result carries the address of the new license.
pub open spec fn spec_purchase(m: MarketModel, led: Seq<WalletAccount>, buyer: u64, listing: usize, skill_id: Seq<u8>, now: i64) -> (MarketModel, Seq<WalletAccount>, Result<int, ErrorCode>) {
    if m.marketplace is None || listing >= m.listings.len() {
        (m, led, Err(ErrorCode::NotFound))
    } else {
        let mp = m.marketplace->0;
        let lst = m.listings[listing as int];
        if lst.skill_id != skill_id {
            (m, led, Err(ErrorCode::InvalidSkill))
        } else if !lst.is_active {
            (m, led, Err(ErrorCode::SkillNotActive))
        } else if lst.price * mp.platform_fee_bps > u64::MAX {
            (m, led, Err(ErrorCode::MathOverflow))
        } else if license_expiry(lst.is_subscription, lst.subscription_duration, now)
            matches Some(t) && !fits_i64(t) {
            (m, led, Err(ErrorCode::MathOverflow))
        } else if escrow_funds(m.escrows, skill_id) + lst.price > u64::MAX {
            (m, led, Err(ErrorCode::MathOverflow))
        } else if has_license(m.licenses, buyer, listing) {
            (m, led, Err(ErrorCode::AlreadyExists))
        } else if wallet_balance(led, buyer) < lst.price {
            (m, led, Err(ErrorCode::InsufficientFunds))
        } else {
            let lic = License {
                owner: buyer,
                skill_listing: listing,
                purchase_price: lst.price,
                platform_fee: fee_amount(lst.price, mp.platform_fee_bps) as u64,
                is_active: true,
                usage_count: 0,
                expires_at: match license_expiry(lst.is_subscription, lst.subscription_duration, now) {
                    Some(t) => Some(t as i64),
                    None => None,
                },
                created_at: now,
                last_used_at: 0,
            };
            (
                MarketModel {
                    licenses: m.licenses.push(lic),
                    escrows: escrow_credit(m.escrows, skill_id, lst.price),
                    ..m
                },
                wallet_debit(led, buyer, lst.price),
                Ok(m.licenses.len() as int),
            )
        }
    }
}

/// The claim transition: what `claim_payment` does to the market and the
/// ledger. On success the result carries (seller amount, platform fee).
pub open spec fn spec_claim(m: MarketModel, led: Seq<WalletAccount>, caller: u64, listing: usize) -> (MarketModel, Seq<WalletAccount>, Result<(u64, u64), ErrorCode>) {
    if m.marketplace is None || listing >= m.listings.len() {
        (m, led, Err(ErrorCode::NotFound))
    } else {
        let mp = m.marketplace->0;
        let lst = m.listings[listing as int];
        if caller != lst.seller {
            (m, led, Err(ErrorCode::Unauthorized))
        } else {
            let balance = escrow_funds(m.escrows, lst.skill_id);
            if balance * mp.platform_fee_bps > u64::MAX {
                (m, led, Err(ErrorCode::MathOverflow))
            } else {
                let fee = fee_amount(balance, mp.platform_fee_bps) as u64;
                let seller_amount = (balance - fee) as u64;
                let led1 = wallet_credit(led, lst.seller, seller_amount);
                if wallet_balance(led, lst.seller) + seller_amount > u64::MAX {
                    (m, led, Err(ErrorCode::MathOverflow))
                } else if wallet_balance(led1, mp.treasury) + fee > u64::MAX {
                    (m, led, Err(ErrorCode::MathOverflow))
                } else {
                    (
                        MarketModel { escrows: escrow_drain(m.escrows, lst.skill_id), ..m },
                        wallet_credit(led1, mp.treasury, fee),
                        Ok((seller_amount, fee)),
                    )
                }
            }
        }
    }
}

/// The verification transition: the status read off the license, and the
/// usage bookkeeping done only when it is Active.
pub open spec fn spec_verify(m: MarketModel, caller: u64, license: usize, now: i64) -> (MarketModel, Result<LicenseStatus, ErrorCode>) {
    if license >= m.licenses.len() {
        (m, Err(ErrorCode::NotFound))
    } else {
        let lic = m.licenses[license as int];
        if caller != lic.owner {
            (m, Err(ErrorCode::Unauthorized))
        } else if !lic.is_active {
            (m, Ok(LicenseStatus::Inactive))
        } else if lic.expires_at matches Some(e) && now > e {
            (m, Ok(LicenseStatus::Expired))
        } else if lic.usage_count == u64::MAX {
            (m, Err(ErrorCode::MathOverflow))
        } else {
            (
                MarketModel {
                    licenses: m.licenses.update(license as int, (License {
                        usage_count: (lic.usage_count + 1) as u64,
                        last_used_at: now,
                        ..lic
                    })),
                    ..m
                },
                Ok(LicenseStatus::Active),
            )
        }
    }
}

impl Market {
    /// Pays `price` from the buyer into the skill's escrow and creates the
    /// license at the (buyer, listing) address. Validation — identifier
    /// match, listing active, fee and expiry arithmetic, one license per
    /// buyer and listing, buyer funds — all happens before any state moves,
    /// so an error leaves market and ledger untouched.
    pub fn purchase_skill(&mut self, ledger: &mut Ledger, buyer: u64, listing: usize, skill_id: Vec<u8>, now: i64) -> (r: Result<SkillPurchased, ErrorCode>)
        requires
            old(self).wf(),
            old(ledger).wf(),
        ensures
            final(self).wf(),
            final(ledger).wf(),
            ({
                let spec_r = spec_purchase(old(self)@, old(ledger)@, buyer, listing, skill_id@, now);
                &&& final(self)@ == spec_r.0
                &&& final(ledger)@ == spec_r.1
                &&& match r {
                    Ok(ev) => spec_r.2 == Ok::<int, ErrorCode>(old(self)@.licenses.len() as int)
                        && ev.license == old(self)@.licenses.len()
                        && ev.buyer == buyer
                        && ev.seller == old(self)@.listings[listing as int].seller
                        && ev.skill_id@ == skill_id@
                        && ev.price == old(self)@.listings[listing as int].price,
                    Err(e) => spec_r.2 == Err::<int, ErrorCode>(e),
                }
            }),
    {
        let mp = match self.marketplace {
            Some(m) => m,
            None => {
                return Err(ErrorCode::NotFound);
            },
        };
        if listing >= self.listings.len() {
            return Err(ErrorCode::NotFound);
        }
        if !bytes_eq(&self.listings[listing].skill_id, &skill_id) {
            return Err(ErrorCode::InvalidSkill);
        }
        if !self.listings[listing].is_active {
            return Err(ErrorCode::SkillNotActive);
        }
        let price = self.listings[listing].price;
        let seller = self.listings[listing].seller;
        let is_subscription = self.listings[listing].is_subscription;
        let subscription_duration = self.listings[listing].subscription_duration;
        let fee = match platform_fee(price, mp.platform_fee_bps) {
            Some(f) => f,
            None => {
                return Err(ErrorCode::MathOverflow);
            },
        };
        let expires_at: Option<i64> = if is_subscription {
            let d = match subscription_duration {
                Some(d) => d,
                None => DEFAULT_SUBSCRIPTION_DURATION,
            };
            match now.checked_add(d) {
                Some(t) => Some(t),
                None => {
                    return Err(ErrorCode::MathOverflow);
                },
            }
        } else {
            None
        };
        let escrow_idx = self.find_escrow_idx(&skill_id);
        let cur = match escrow_idx {
            Some(i) => self.escrows[i].balance,
            None => 0,
        };
        let new_escrow_balance = match cur.checked_add(price) {
            Some(v) => v,
            None => {
                return Err(ErrorCode::MathOverflow);
            },
        };
        if self.find_license(buyer, listing).is_some() {
            return Err(ErrorCode::AlreadyExists);
        }
        if ledger.balance_of(buyer) < price {
            return Err(ErrorCode::InsufficientFunds);
        }
        // Every check has passed; the mutations below cannot fail.
        match ledger.debit(buyer, price) {
            Ok(()) => {},
            Err(e) => {
                return Err(e);
            },
        }
        match escrow_idx {
            Some(i) => {
                self.escrows.set(i, Escrow { skill_id: bytes_clone(&skill_id), balance: new_escrow_balance });
            },
            None => {
                self.escrows.push(Escrow { skill_id: bytes_clone(&skill_id), balance: new_escrow_balance });
            },
        }
        let license_idx = self.licenses.len();
        self.licenses.push(License {
            owner: buyer,
            skill_listing: listing,
            purchase_price: price,
            platform_fee: fee,
            is_active: true,
            usage_count: 0,
            expires_at,
            created_at: now,
            last_used_at: 0,
        });
        proof {
            let om = old(self)@;
            let spec_r = spec_purchase(om, old(ledger)@, buyer, listing, skill_id@, now);
            lemma_escrow_credit(om.escrows, skill_id@, price);
            assert(self@.escrows =~= escrow_credit(om.escrows, skill_id@, price));
            assert(self@.listings =~= om.listings);
            assert(self@ =~= spec_r.0);
            assert forall|p: int, q: int| 0 <= p < q < self@.licenses.len()
                implies !(self@.licenses[p].owner == self@.licenses[q].owner
                    && self@.licenses[p].skill_listing == self@.licenses[q].skill_listing) by {
                if q < om.licenses.len() {
                    assert(self@.licenses[p] == om.licenses[p]);
                    assert(self@.licenses[q] == om.licenses[q]);
                } else {
                    assert(self@.licenses[p] == om.licenses[p]);
                    if om.licenses[p].owner == buyer && om.licenses[p].skill_listing == listing {
                        assert(has_license(om.licenses, buyer, listing));
                    }
                }
            }
        }
        Ok(SkillPurchased { buyer, seller, skill_id, price, license: license_idx })
    }

    /// Pays the skill's whole escrow balance out: the fee share to the
    /// treasury, the rest to the seller, authorized by the escrow itself
    /// rather than any outside signer. A claim on an already-drained escrow
    /// succeeds with zero amounts rather than failing.
    pub fn claim_payment(&mut self, ledger: &mut Ledger, caller: u64, listing: usize) -> (r: Result<PaymentClaimed, ErrorCode>)
        requires
            old(self).wf(),
            old(ledger).wf(),
        ensures
            final(self).wf(),
            final(ledger).wf(),
            ({
                let spec_r = spec_claim(old(self)@, old(ledger)@, caller, listing);
                &&& final(self)@ == spec_r.0
                &&& final(ledger)@ == spec_r.1
                &&& match r {
                    Ok(ev) => spec_r.2 == Ok::<(u64, u64), ErrorCode>((ev.amount, ev.fee))
                        && ev.seller == old(self)@.listings[listing as int].seller
                        && ev.skill_id@ == old(self)@.listings[listing as int].skill_id
                        && ev.amount + ev.fee
                            == escrow_funds(old(self)@.escrows, old(self)@.listings[listing as int].skill_id),
                    Err(e) => spec_r.2 == Err::<(u64, u64), ErrorCode>(e),
                }
            }),
    {
        let mp = match self.marketplace {
            Some(m) => m,
            None => {
                return Err(ErrorCode::NotFound);
            },
        };
        if listing >= self.listings.len() {
            return Err(ErrorCode::NotFound);
        }
        if self.listings[listing].seller != caller {
            return Err(ErrorCode::Unauthorized);
        }
        let seller = self.listings[listing].seller;
        let skill_id = bytes_clone(&self.listings[listing].skill_id);
        let escrow_idx = self.find_escrow_idx(&skill_id);
        let balance = match escrow_idx {
            Some(i) => self.escrows[i].balance,
            None => 0,
        };
        let fee = match platform_fee(balance, mp.platform_fee_bps) {
            Some(f) => f,
            None => {
                return Err(ErrorCode::MathOverflow);
            },
        };
        proof {
            crate::fee::lemma_fee_le_amount(balance, mp.platform_fee_bps);
        }
        let seller_amount = balance - fee;
        let seller_bal = ledger.balance_of(seller);
        if seller_bal > u64::MAX - seller_amount {
            return Err(ErrorCode::MathOverflow);
        }
        proof {
            crate::ledger::lemma_wallet_credit(old(ledger)@, seller, seller_amount);
        }
        let treasury_bal_after = if mp.treasury == seller {
            seller_bal + seller_amount
        } else {
            ledger.balance_of(mp.treasury)
        };
        if treasury_bal_after > u64::MAX - fee {
            return Err(ErrorCode::MathOverflow);
        }
        // Every check has passed; drain the escrow and pay both parties.
        match escrow_idx {
            Some(i) => {
                self.escrows.set(i, Escrow { skill_id: bytes_clone(&skill_id), balance: 0 });
            },
            None => {},
        }
        match ledger.credit(seller, seller_amount) {
            Ok(()) => {},
            Err(e) => {
                return Err(e);
            },
        }
        match ledger.credit(mp.treasury, fee) {
            Ok(()) => {},
            Err(e) => {
                return Err(e);
            },
        }
        proof {
            let om = old(self)@;
            lemma_escrow_drain(om.escrows, skill_id@);
            assert(self@.escrows =~= escrow_drain(om.escrows, skill_id@));
            assert(self@.listings =~= om.listings);
            assert(self@ =~= spec_claim(om, old(ledger)@, caller, listing).0);
        }
        Ok(PaymentClaimed { seller, skill_id, amount: seller_amount, fee })
    }

    /// The license verification state machine: reports Inactive or Expired
    /// without touching anything, and counts a use — usage count up by one,
    /// last-used time set — exactly when the license is Active. Each Active
    /// verification counts; this is deliberately not idempotent.
    pub fn verify_license(&mut self, caller: u64, license: usize, now: i64) -> (r: Result<LicenseStatus, ErrorCode>)
        requires
            old(self).wf(),
        ensures
            final(self).wf(),
            ({
                let spec_r = spec_verify(old(self)@, caller, license, now);
                &&& final(self)@ == spec_r.0
                &&& r == spec_r.1
                &&& (r matches Ok(st) ==> st == license_status(old(self)@.licenses[license as int], now))
            }),
    {
        if license >= self.licenses.len() {
            return Err(ErrorCode::NotFound);
        }
        let lic = self.licenses[license];
        if lic.owner != caller {
            return Err(ErrorCode::Unauthorized);
        }
        if !lic.is_active {
            return Ok(LicenseStatus::Inactive);
        }
        if let Some(e) = lic.expires_at {
            if now > e {
                return Ok(LicenseStatus::Expired);
            }
        }
        let new_count = match lic.usage_count.checked_add(1) {
            Some(c) => c,
            None => {
                return Err(ErrorCode::MathOverflow);
            },
        };
        self.licenses.set(license, License { usage_count: new_count, last_used_at: now, ..lic });
        proof {
            let om = old(self)@;
            let ul = License { usage_count: (lic.usage_count + 1) as u64, last_used_at: now, ..lic };
            assert(self@.licenses =~= om.licenses.update(license as int, ul));
            assert forall|p: int, q: int| 0 <= p < q < self@.licenses.len()
                implies !(self@.licenses[p].owner == self@.licenses[q].owner
                    && self@.licenses[p].skill_listing == self@.licenses[q].skill_listing) by {
                assert(self@.licenses[p].owner == om.licenses[p].owner);
                assert(self@.licenses[p].skill_listing == om.licenses[p].skill_listing);
                assert(self@.licenses[q].owner == om.licenses[q].owner);
                assert(self@.licenses[q].skill_listing == om.licenses[q].skill_listing);
            }
            assert(self@ =~= spec_verify(om, caller, license, now).0);
        }
        Ok(LicenseStatus::Active)
    }
}

/// In a duplicate-free listing table, the record at position `i` is the one
/// lookup by its composite key finds.
pub proof fn lemma_listing_found(s: Seq<ListingModel>, i: int)
    requires
        listings_unique(s),
        0 <= i < s.len(),
    ensures
        has_listing(s, s[i].seller, s[i].skill_id),
        listing_at(s, s[i].seller, s[i].skill_id) == i,
{
    let seller = s[i].seller;
    let sid = s[i].skill_id;
    assert(has_listing(s, seller, sid));
    let j = listing_at(s, seller, sid);
    assert(0 <= j < s.len() && s[j].seller == seller && s[j].skill_id == sid);
    if i < j {
        assert(!(s[i].seller == s[j].seller && s[i].skill_id == s[j].skill_id));
    } else if j < i {
        assert(!(s[j].seller == s[i].seller && s[j].skill_id == s[i].skill_id));
    }
}

/// In a duplicate-free license table, the record at position `i` is the one
/// lookup by its composite key finds.
pub proof fn lemma_license_found(s: Seq<License>, i: int)
    requires
        licenses_unique(s),
        0 <= i < s.len(),
    ensures
        has_license(s, s[i].owner, s[i].skill_listing),
        license_at(s, s[i].owner, s[i].skill_listing) == i,
{
    let owner = s[i].owner;
    let l = s[i].skill_listing;
    assert(has_license(s, owner, l));
    let j = license_at(s, owner, l);
    assert(0 <= j < s.len() && s[j].owner == owner && s[j].skill_listing == l);
    if i < j {
        assert(!(s[i].owner == s[j].owner && s[i].skill_listing == s[j].skill_listing));
    } else if j < i {
        assert(!(s[j].owner == s[i].owner && s[j].skill_listing == s[i].skill_listing));
    }
}

} // verus!
