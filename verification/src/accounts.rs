//! Accounts and the balance state of the validator set.
//!
//! An account is an opaque address: the lowercase hex encoding of a
//! Dilithium public key. The state keeps an ordered list of accounts —
//! iteration order is the canonical Merkle-leaf order — and one balance per
//! account, in the same order.

use vstd::prelude::*;

use crate::bytesutil::bytes_clone;
use crate::bytesutil::bytes_eq;

verus! {

/// An account, identified by its address bytes.
pub struct Account {
    pub address: Vec<u8>,
}

impl Account {
    /// A copy of this account.
    pub fn duplicate(&self) -> (r: Account)
        ensures
            r.address@ == self.address@,
    {
        Account { address: bytes_clone(&self.address) }
    }

    /// Address equality.
    pub fn same_address(&self, other: &Account) -> (r: bool)
        ensures
            r == (self.address@ == other.address@),
    {
        bytes_eq(&self.address, &other.address)
    }
}

/// The first index holding `addr`, or the length when absent.
pub open spec fn find_account(accounts: Seq<Account>, addr: Seq<u8>) -> int
    decreases accounts.len(),
{
    if accounts.len() == 0 {
        0
    } else if accounts[0].address@ == addr {
        0
    } else {
        1 + find_account(accounts.skip(1), addr)
    }
}

/// Whether some account in the list has `addr`.
pub open spec fn has_account(accounts: Seq<Account>, addr: Seq<u8>) -> bool {
    exists|i: int| 0 <= i < accounts.len() && (#[trigger] accounts[i]).address@ == addr
}

pub proof fn lemma_find_account(accounts: Seq<Account>, addr: Seq<u8>)
    ensures
        0 <= find_account(accounts, addr) <= accounts.len(),
        find_account(accounts, addr) < accounts.len() <==> has_account(accounts, addr),
        find_account(accounts, addr) < accounts.len() ==> accounts[find_account(
            accounts,
            addr,
        )].address@ == addr,
        forall|i: int|
            0 <= i < find_account(accounts, addr) ==> (#[trigger] accounts[i]).address@ != addr,
    decreases accounts.len(),
{
    if accounts.len() == 0 {
    } else if accounts[0].address@ == addr {
    } else {
        lemma_find_account(accounts.skip(1), addr);
        let sub = accounts.skip(1);
        assert(forall|i: int| 0 <= i < sub.len() ==> sub[i] == accounts[i + 1]);
        if has_account(sub, addr) {
            let w = choose|i: int| 0 <= i < sub.len() && (#[trigger] sub[i]).address@ == addr;
            assert(accounts[w + 1].address@ == addr);
        }
        if has_account(accounts, addr) {
            let w = choose|i: int|
                0 <= i < accounts.len() && (#[trigger] accounts[i]).address@ == addr;
            assert(w >= 1);
            assert(sub[w - 1].address@ == addr);
        }
        assert forall|i: int|
            0 <= i < find_account(accounts, addr) implies (#[trigger] accounts[i]).address@
            != addr by {
            if i >= 1 {
                assert(accounts[i] == sub[i - 1]);
            }
        }
    }
}

/// Balance state: accounts in canonical order and one balance each.
pub struct State {
    pub accounts: Vec<Account>,
    pub balances: Vec<u64>,
}

impl State {
    /// One balance per account, and no address twice.
    pub open spec fn wf(&self) -> bool {
        &&& self.accounts@.len() == self.balances@.len()
        &&& forall|i: int, j: int|
            0 <= i < j < self.accounts@.len() ==> (#[trigger] self.accounts@[i]).address@ != (
            #[trigger] self.accounts@[j]).address@
    }

    /// The balance recorded for `addr`; zero when absent.
    pub open spec fn balance_of(&self, addr: Seq<u8>) -> int {
        if has_account(self.accounts@, addr) {
            self.balances@[find_account(self.accounts@, addr)] as int
        } else {
            0
        }
    }

    /// An empty state.
    pub fn new() -> (s: State)
        ensures
            s.wf(),
            s.accounts@.len() == 0,
    {
        State { accounts: Vec::new(), balances: Vec::new() }
    }

    /// The index of `account`, if present.
    fn find(&self, account: &Account) -> (r: Option<usize>)
        requires
            self.wf(),
        ensures
            match r {
                Some(i) => i < self.accounts@.len() && i == find_account(
                    self.accounts@,
                    account.address@,
                ) && has_account(self.accounts@, account.address@),
                None => !has_account(self.accounts@, account.address@),
            },
    {
        proof {
            lemma_find_account(self.accounts@, account.address@);
        }
        let mut i: usize = 0;
        while i < self.accounts.len()
            invariant
                i <= self.accounts@.len(),
                forall|k: int|
                    0 <= k < i ==> (#[trigger] self.accounts@[k]).address@ != account.address@,
            decreases self.accounts@.len() - i,
        {
            if self.accounts[i].same_address(account) {
                proof {
                    lemma_find_first(self.accounts@, account.address@, i as int);
                }
                return Some(i);
            }
            i = i + 1;
        }
        None
    }

    /// Add `account` with a zero balance when its address is new.
    pub fn add_account(&mut self, account: Account)
        requires
            old(self).wf(),
        ensures
            final(self).wf(),
            has_account(final(self).accounts@, account.address@),
            !has_account(old(self).accounts@, account.address@) ==> final(self).accounts@
                == old(self).accounts@ + seq![account] && final(self).balances@ == old(
                self,
            ).balances@ + seq![0u64],
            has_account(old(self).accounts@, account.address@) ==> final(self).accounts@ == old(
                self,
            ).accounts@ && final(self).balances@ == old(self).balances@,
    {
        let ghost addr = account.address@;
        match self.find(&account) {
            Some(_) => {
            },
            None => {
                self.accounts.push(account);
                self.balances.push(0);
                proof {
                    let n = old(self).accounts@.len() as int;
                    assert((#[trigger] self.accounts@[n]).address@ == addr);
                }
            },
        }
    }

    /// Set the balance of an existing account. Returns whether the account
    /// was found.
    pub fn set_balance(&mut self, account: &Account, amount: u64) -> (r: bool)
        requires
            old(self).wf(),
        ensures
            final(self).wf(),
            r == has_account(old(self).accounts@, account.address@),
            final(self).accounts@ == old(self).accounts@,
            r ==> final(self).balances@ == old(self).balances@.update(
                find_account(old(self).accounts@, account.address@),
                amount,
            ),
            !r ==> final(self).balances@ == old(self).balances@,
    {
        match self.find(account) {
            Some(i) => {
                self.balances.set(i, amount);
                true
            },
            None => false,
        }
    }

    /// Read the balance of `account`; zero when absent.
    pub fn get_balance(&self, account: &Account) -> (r: u64)
        requires
            self.wf(),
        ensures
            r as int == self.balance_of(account.address@),
    {
        match self.find(account) {
            Some(i) => self.balances[i],
            None => 0,
        }
    }

    /// Add `amount` to an existing account's balance. Returns false and
    /// changes nothing when the account is missing or the sum would not
    /// fit.
    pub fn stake(&mut self, account: &Account, amount: u64) -> (r: bool)
        requires
            old(self).wf(),
        ensures
            final(self).wf(),
            final(self).accounts@ == old(self).accounts@,
            r == (has_account(old(self).accounts@, account.address@) && old(self).balance_of(
                account.address@,
            ) + amount <= u64::MAX),
            r ==> final(self).balances@ == old(self).balances@.update(
                find_account(old(self).accounts@, account.address@),
                (old(self).balance_of(account.address@) + amount) as u64,
            ),
            !r ==> final(self).balances@ == old(self).balances@,
    {
        match self.find(account) {
            Some(i) => {
                let b = self.balances[i];
                if amount <= u64::MAX - b {
                    self.balances.set(i, b + amount);
                    true
                } else {
                    false
                }
            },
            None => false,
        }
    }

    /// Take `amount` from an existing account's balance. Returns false and
    /// changes nothing when the account is missing or short.
    pub fn unstake(&mut self, account: &Account, amount: u64) -> (r: bool)
        requires
            old(self).wf(),
        ensures
            final(self).wf(),
            final(self).accounts@ == old(self).accounts@,
            r == (has_account(old(self).accounts@, account.address@) && amount <= old(
                self,
            ).balance_of(account.address@)),
            r ==> final(self).balances@ == old(self).balances@.update(
                find_account(old(self).accounts@, account.address@),
                (old(self).balance_of(account.address@) - amount) as u64,
            ),
            !r ==> final(self).balances@ == old(self).balances@,
    {
        match self.find(account) {
            Some(i) => {
                let b = self.balances[i];
                if amount <= b {
                    self.balances.set(i, b - amount);
                    true
                } else {
                    false
                }
            },
            None => false,
        }
    }

    /// Move `amount` from one account to another. Returns false and
    /// changes nothing when either account is missing, the sender is
    /// short, or the recipient's balance would not fit.
    pub fn transfer(&mut self, from: &Account, to: &Account, amount: u64) -> (r: bool)
        requires
            old(self).wf(),
        ensures
            final(self).wf(),
            final(self).accounts@ == old(self).accounts@,
            r == (has_account(old(self).accounts@, from.address@) && has_account(
                old(self).accounts@,
                to.address@,
            ) && amount <= old(self).balance_of(from.address@) && (from.address@ == to.address@
                || old(self).balance_of(to.address@) + amount <= u64::MAX)),
            r && from.address@ != to.address@ ==> final(self).balance_of(from.address@) == old(
                self,
            ).balance_of(from.address@) - amount && final(self).balance_of(to.address@) == old(
                self,
            ).balance_of(to.address@) + amount,
            from.address@ == to.address@ || !r ==> final(self).balances@ == old(self).balances@,
            r && from.address@ != to.address@ ==> final(self).balances@ == old(
                self,
            ).balances@.update(
                find_account(old(self).accounts@, from.address@),
                (old(self).balance_of(from.address@) - amount) as u64,
            ).update(
                find_account(old(self).accounts@, to.address@),
                (old(self).balance_of(to.address@) + amount) as u64,
            ),
    {
        if from.same_address(to) {
            match self.find(from) {
                Some(_) => {
                    let b = self.get_balance(from);
                    return amount <= b;
                },
                None => {
                    return false;
                },
            }
        }
        let fi = match self.find(from) {
            Some(i) => i,
            None => {
                return false;
            },
        };
        let ti = match self.find(to) {
            Some(i) => i,
            None => {
                return false;
            },
        };
        let fb = self.balances[fi];
        let tb = self.balances[ti];
        if amount > fb || amount > u64::MAX - tb {
            return false;
        }
        self.balances.set(fi, fb - amount);
        self.balances.set(ti, tb + amount);
        proof {
            lemma_find_account(self.accounts@, from.address@);
            lemma_find_account(self.accounts@, to.address@);
        }
        true
    }
}

/// Appending an account with a different address changes neither whether
/// `addr` is present nor where it is found.
pub proof fn lemma_find_append(accounts: Seq<Account>, x: Account, addr: Seq<u8>)
    requires
        x.address@ != addr,
    ensures
        has_account(accounts.push(x), addr) == has_account(accounts, addr),
        has_account(accounts, addr) ==> find_account(accounts.push(x), addr) == find_account(
            accounts,
            addr,
        ),
    decreases accounts.len(),
{
    let ext = accounts.push(x);
    if has_account(accounts, addr) {
        let w = choose|i: int| 0 <= i < accounts.len() && (#[trigger] accounts[i]).address@ == addr;
        assert((#[trigger] ext[w]).address@ == addr);
    }
    if has_account(ext, addr) {
        let w = choose|i: int| 0 <= i < ext.len() && (#[trigger] ext[i]).address@ == addr;
        assert(w < accounts.len());
        assert((#[trigger] accounts[w]).address@ == addr);
    }
    if accounts.len() == 0 {
    } else if accounts[0].address@ == addr {
        assert(ext[0] == accounts[0]);
    } else {
        lemma_find_append(accounts.skip(1), x, addr);
        let sub = accounts.skip(1);
        assert(forall|i: int| 0 <= i < sub.len() ==> sub[i] == accounts[i + 1]);
        assert(sub.push(x) =~= ext.skip(1));
        assert(ext[0] == accounts[0]);
        if has_account(accounts, addr) {
            let w = choose|i: int|
                0 <= i < accounts.len() && (#[trigger] accounts[i]).address@ == addr;
            assert(w >= 1);
            assert((#[trigger] sub[w - 1]).address@ == addr);
            assert(find_account(accounts, addr) == 1 + find_account(sub, addr));
            assert(find_account(ext, addr) == 1 + find_account(ext.skip(1), addr));
        }
    }
}

/// When everything before `i` misses and `i` hits, `i` is the find result.
pub proof fn lemma_find_first(accounts: Seq<Account>, addr: Seq<u8>, i: int)
    requires
        0 <= i < accounts.len(),
        accounts[i].address@ == addr,
        forall|k: int| 0 <= k < i ==> (#[trigger] accounts[k]).address@ != addr,
    ensures
        find_account(accounts, addr) == i,
    decreases i,
{
    if i == 0 {
    } else {
        let sub = accounts.skip(1);
        assert(forall|k: int| 0 <= k < sub.len() ==> sub[k] == accounts[k + 1]);
        lemma_find_first(sub, addr, i - 1);
    }
}

} // verus!
