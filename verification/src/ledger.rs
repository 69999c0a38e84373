//! Model of the external fungible-token ledger.
//!
//! The marketplace core only computes which amounts move between which
//! parties; the balances themselves live in this injected collaborator. A
//! debit fails with `InsufficientFunds` or succeeds atomically; a credit
//! opens the account if it does not exist yet.

use vstd::prelude::*;
use vstd::pervasive::VecAdditionalExecFns;
use crate::errors::ErrorCode;

verus! {

/// One party's balance.
#[derive(Clone, Copy, Debug)]
pub struct WalletAccount {
    pub owner: u64,
    pub balance: u64,
}

/// The balance-holding ledger, keyed by owner identity.
#[derive(Debug)]
pub struct Ledger {
    accounts: Vec<WalletAccount>,
}

impl View for Ledger {
    type V = Seq<WalletAccount>;

    closed spec fn view(&self) -> Seq<WalletAccount> {
        self.accounts@
    }
}

/// Whether `owner` holds an account.
pub open spec fn has_wallet(s: Seq<WalletAccount>, owner: u64) -> bool {
    exists|i: int| 0 <= i < s.len() && s[i].owner == owner
}

/// The position of `owner`'s account; meaningful only when `has_wallet`.
pub open spec fn wallet_at(s: Seq<WalletAccount>, owner: u64) -> int {
    choose|i: int| 0 <= i < s.len() && s[i].owner == owner
}

/// The balance the ledger holds for `owner`; a party without an account
/// holds nothing.
pub open spec fn wallet_balance(s: Seq<WalletAccount>, owner: u64) -> u64 {
    if has_wallet(s, owner) {
        s[wallet_at(s, owner)].balance
    } else {
        0u64
    }
}

/// Ledger contents after `amount` is credited to `owner`, opening the
/// account when absent.
pub open spec fn wallet_credit(s: Seq<WalletAccount>, owner: u64, amount: u64) -> Seq<WalletAccount> {
    if has_wallet(s, owner) {
        s.update(
            wallet_at(s, owner),
            (WalletAccount { owner, balance: (wallet_balance(s, owner) + amount) as u64 }),
        )
    } else {
        s.push(WalletAccount { owner, balance: amount })
    }
}

/// Ledger contents after `amount` is debited from `owner`.
pub open spec fn wallet_debit(s: Seq<WalletAccount>, owner: u64, amount: u64) -> Seq<WalletAccount> {
    if has_wallet(s, owner) {
        s.update(
            wallet_at(s, owner),
            (WalletAccount { owner, balance: (wallet_balance(s, owner) - amount) as u64 }),
        )
    } else {
        s
    }
}

/// No two accounts share an owner.
pub open spec fn wallets_unique(s: Seq<WalletAccount>) -> bool {
    forall|i: int, j: int| 0 <= i < j < s.len() ==> s[i].owner != s[j].owner
}

/// In a duplicate-free ledger, the account at position `i` is the one that
/// lookup by its owner finds.
pub proof fn lemma_wallet_found(s: Seq<WalletAccount>, i: int)
    requires
        wallets_unique(s),
        0 <= i < s.len(),
    ensures
        has_wallet(s, s[i].owner),
        wallet_at(s, s[i].owner) == i,
{
    let owner = s[i].owner;
    assert(has_wallet(s, owner));
    let j = wallet_at(s, owner);
    assert(0 <= j < s.len() && s[j].owner == owner);
    if i < j {
        assert(s[i].owner != s[j].owner);
    } else if j < i {
        assert(s[j].owner != s[i].owner);
    }
}

/// A credit raises exactly the target balance, leaves every other balance
/// unchanged, and keeps the ledger duplicate-free.
pub proof fn lemma_wallet_credit(s: Seq<WalletAccount>, owner: u64, amount: u64)
    requires
        wallets_unique(s),
        wallet_balance(s, owner) + amount <= u64::MAX,
    ensures
        wallets_unique(wallet_credit(s, owner, amount)),
        wallet_balance(wallet_credit(s, owner, amount), owner) == wallet_balance(s, owner) + amount,
        forall|o: u64| o != owner ==> wallet_balance(wallet_credit(s, owner, amount), o) == wallet_balance(s, o),
{
    let t = wallet_credit(s, owner, amount);
    if has_wallet(s, owner) {
        let i = wallet_at(s, owner);
        assert(0 <= i < s.len() && s[i].owner == owner);
        assert forall|p: int, q: int| 0 <= p < q < t.len() implies t[p].owner != t[q].owner by {
            assert(t[p].owner == s[p].owner);
            assert(t[q].owner == s[q].owner);
        }
        lemma_wallet_found(t, i);
        assert forall|o: u64| o != owner implies wallet_balance(t, o) == wallet_balance(s, o) by {
            lemma_wallet_other_balance(s, t, i, o);
        }
    } else {
        assert forall|p: int, q: int| 0 <= p < q < t.len() implies t[p].owner != t[q].owner by {
            if q < s.len() {
                assert(t[p].owner == s[p].owner);
                assert(t[q].owner == s[q].owner);
            } else {
                assert(t[q].owner == owner);
                assert(t[p].owner == s[p].owner);
                assert(!(0 <= p < s.len() && s[p].owner == owner));
            }
        }
        lemma_wallet_found(t, s.len() as int);
        assert forall|o: u64| o != owner implies wallet_balance(t, o) == wallet_balance(s, o) by {
            lemma_wallet_other_balance_push(s, t, owner, o);
        }
    }
}

/// A covered debit lowers exactly the target balance, leaves every other
/// balance unchanged, and keeps the ledger duplicate-free.
pub proof fn lemma_wallet_debit(s: Seq<WalletAccount>, owner: u64, amount: u64)
    requires
        wallets_unique(s),
        amount <= wallet_balance(s, owner),
    ensures
        wallets_unique(wallet_debit(s, owner, amount)),
        wallet_balance(wallet_debit(s, owner, amount), owner) == wallet_balance(s, owner) - amount,
        forall|o: u64| o != owner ==> wallet_balance(wallet_debit(s, owner, amount), o) == wallet_balance(s, o),
{
    let t = wallet_debit(s, owner, amount);
    if has_wallet(s, owner) {
        let i = wallet_at(s, owner);
        assert(0 <= i < s.len() && s[i].owner == owner);
        assert forall|p: int, q: int| 0 <= p < q < t.len() implies t[p].owner != t[q].owner by {
            assert(t[p].owner == s[p].owner);
            assert(t[q].owner == s[q].owner);
        }
        lemma_wallet_found(t, i);
        assert forall|o: u64| o != owner implies wallet_balance(t, o) == wallet_balance(s, o) by {
            lemma_wallet_other_balance(s, t, i, o);
        }
    }
}

/// Updating position `i` without changing its owner leaves lookups for
/// every other owner untouched.
proof fn lemma_wallet_other_balance(s: Seq<WalletAccount>, t: Seq<WalletAccount>, i: int, o: u64)
    requires
        wallets_unique(s),
        0 <= i < s.len(),
        t.len() == s.len(),
        t[i].owner == s[i].owner,
        o != s[i].owner,
        forall|k: int| 0 <= k < s.len() && k != i ==> t[k] == s[k],
    ensures
        wallet_balance(t, o) == wallet_balance(s, o),
{
    assert(wallets_unique(t));
    if has_wallet(s, o) {
        let k = wallet_at(s, o);
        assert(0 <= k < s.len() && s[k].owner == o);
        assert(k != i);
        assert(t[k] == s[k]);
        lemma_wallet_found(t, k);
    } else {
        if has_wallet(t, o) {
            let k = wallet_at(t, o);
            assert(0 <= k < t.len() && t[k].owner == o);
            assert(k != i);
            assert(s[k].owner == o);
        }
    }
}

/// Appending an account for a fresh owner leaves lookups for every other
/// owner untouched.
proof fn lemma_wallet_other_balance_push(s: Seq<WalletAccount>, t: Seq<WalletAccount>, owner: u64, o: u64)
    requires
        wallets_unique(s),
        !has_wallet(s, owner),
        t.len() == s.len() + 1,
        t[s.len() as int].owner == owner,
        o != owner,
        forall|k: int| 0 <= k < s.len() ==> t[k] == s[k],
    ensures
        wallet_balance(t, o) == wallet_balance(s, o),
{
    if has_wallet(s, o) {
        let k = wallet_at(s, o);
        assert(0 <= k < s.len() && s[k].owner == o);
        assert(t[k] == s[k]);
        assert(wallets_unique(t)) by {
            assert forall|p: int, q: int| 0 <= p < q < t.len() implies t[p].owner != t[q].owner by {
                if q < s.len() {
                    assert(t[p].owner == s[p].owner);
                    assert(t[q].owner == s[q].owner);
                } else {
                    assert(t[p].owner == s[p].owner);
                    assert(!(0 <= p < s.len() && s[p].owner == owner));
                }
            }
        }
        lemma_wallet_found(t, k);
    } else {
        if has_wallet(t, o) {
            let k = wallet_at(t, o);
            assert(0 <= k < t.len() && t[k].owner == o);
            if k < s.len() {
                assert(s[k].owner == o);
            } else {
                assert(t[k].owner == owner);
            }
        }
    }
}

impl Ledger {
    /// A well-formed ledger holds at most one account per owner.
    pub open spec fn wf(&self) -> bool {
        wallets_unique(self@)
    }

    /// An empty ledger.
    pub fn new() -> (l: Ledger)
        ensures
            l@ == Seq::<WalletAccount>::empty(),
            l.wf(),
    {
        Ledger { accounts: Vec::new() }
    }

    /// Position of `owner`'s account, if it exists.
    fn find_idx(&self, owner: u64) -> (r: Option<usize>)
        requires
            self.wf(),
        ensures
            (r is Some) == has_wallet(self@, owner),
            r matches Some(i) ==> i < self@.len() && self@[i as int].owner == owner
                && i as int == wallet_at(self@, owner),
    {
        let mut i: usize = 0;
        while i < self.accounts.len()
            invariant
                i <= self.accounts.len(),
                forall|j: int| 0 <= j < i ==> self.accounts@[j].owner != owner,
                self.wf(),
            decreases self.accounts.len() - i,
        {
            if self.accounts[i].owner == owner {
                proof {
                    lemma_wallet_found(self@, i as int);
                }
                return Some(i);
            }
            i = i + 1;
        }
        proof {
            assert(!has_wallet(self@, owner));
        }
        None
    }

    /// The balance held for `owner` (zero when no account exists).
    pub fn balance_of(&self, owner: u64) -> (r: u64)
        requires
            self.wf(),
        ensures
            r == wallet_balance(self@, owner),
    {
        match self.find_idx(owner) {
            Some(i) => self.accounts[i].balance,
            None => 0,
        }
    }

    /// Adds `amount` to `owner`'s balance, opening the account when absent.
    /// Fails with `MathOverflow`, and changes nothing, when the new balance
    /// would not fit.
    pub fn credit(&mut self, owner: u64, amount: u64) -> (r: Result<(), ErrorCode>)
        requires
            old(self).wf(),
        ensures
            final(self).wf(),
            match r {
                Ok(()) => wallet_balance(old(self)@, owner) + amount <= u64::MAX
                    && final(self)@ == wallet_credit(old(self)@, owner, amount),
                Err(e) => e == ErrorCode::MathOverflow
                    && wallet_balance(old(self)@, owner) + amount > u64::MAX
                    && final(self)@ == old(self)@,
            },
    {
        match self.find_idx(owner) {
            Some(i) => {
                let b = self.accounts[i].balance;
                match b.checked_add(amount) {
                    Some(nb) => {
                        self.accounts.set(i, WalletAccount { owner, balance: nb });
                        Ok(())
                    },
                    None => Err(ErrorCode::MathOverflow),
                }
            },
            None => {
                self.accounts.push(WalletAccount { owner, balance: amount });
                Ok(())
            },
        }
    }

    /// Removes `amount` from `owner`'s balance. Fails with
    /// `InsufficientFunds`, and changes nothing, when the balance does not
    /// cover the amount.
    pub fn debit(&mut self, owner: u64, amount: u64) -> (r: Result<(), ErrorCode>)
        requires
            old(self).wf(),
        ensures
            final(self).wf(),
            match r {
                Ok(()) => amount <= wallet_balance(old(self)@, owner)
                    && final(self)@ == wallet_debit(old(self)@, owner, amount),
                Err(e) => e == ErrorCode::InsufficientFunds
                    && amount > wallet_balance(old(self)@, owner)
                    && final(self)@ == old(self)@,
            },
    {
        match self.find_idx(owner) {
            Some(i) => {
                let b = self.accounts[i].balance;
                if b < amount {
                    Err(ErrorCode::InsufficientFunds)
                } else {
                    self.accounts.set(i, WalletAccount { owner, balance: b - amount });
                    Ok(())
                }
            },
            None => {
                if amount == 0 {
                    proof {
                        assert(self@ =~= wallet_debit(old(self)@, owner, amount));
                    }
                    Ok(())
                } else {
                    Err(ErrorCode::InsufficientFunds)
                }
            },
        }
    }
}

} // verus!
