//! The validator set: staked accounts, their hash-chain commitments and
//! their latest reveals.

use vstd::prelude::*;

use crate::accounts::has_account;
use crate::accounts::Account;
use crate::accounts::State;
use crate::config::STAKING_AMOUNT;
use crate::hashchain::HashChainCom;
use crate::transaction::Transaction;
use crate::transaction::TransactionType;

verus! {

/// Ordered staked accounts with per-validator commitments and reveals.
pub struct Validator {
    pub state: State,
    pub hash_chain_com: Vec<(Account, HashChainCom)>,
    pub next_block_hash: Vec<(Account, Vec<u8>)>,
}

/// The first commitment entry for `addr`, or the length when absent.
pub open spec fn find_com(coms: Seq<(Account, HashChainCom)>, addr: Seq<u8>) -> int
    decreases coms.len(),
{
    if coms.len() == 0 {
        0
    } else if coms[0].0.address@ == addr {
        0
    } else {
        1 + find_com(coms.skip(1), addr)
    }
}

/// Whether some commitment entry is keyed by `addr`.
pub open spec fn has_com(coms: Seq<(Account, HashChainCom)>, addr: Seq<u8>) -> bool {
    exists|i: int| 0 <= i < coms.len() && (#[trigger] coms[i]).0.address@ == addr
}

pub proof fn lemma_find_com(coms: Seq<(Account, HashChainCom)>, addr: Seq<u8>)
    ensures
        0 <= find_com(coms, addr) <= coms.len(),
        find_com(coms, addr) < coms.len() <==> has_com(coms, addr),
        find_com(coms, addr) < coms.len() ==> coms[find_com(coms, addr)].0.address@ == addr,
    decreases coms.len(),
{
    if coms.len() == 0 {
    } else if coms[0].0.address@ == addr {
    } else {
        lemma_find_com(coms.skip(1), addr);
        let sub = coms.skip(1);
        assert(forall|i: int| 0 <= i < sub.len() ==> sub[i] == coms[i + 1]);
        if has_com(sub, addr) {
            let w = choose|i: int| 0 <= i < sub.len() && (#[trigger] sub[i]).0.address@ == addr;
            assert(coms[w + 1].0.address@ == addr);
        }
        if has_com(coms, addr) {
            let w = choose|i: int| 0 <= i < coms.len() && (#[trigger] coms[i]).0.address@ == addr;
            assert(w >= 1);
            assert(sub[w - 1].0.address@ == addr);
        }
    }
}

/// The commitment hex stored for `addr`; empty when absent.
pub open spec fn com_of(coms: Seq<(Account, HashChainCom)>, addr: Seq<u8>) -> Seq<u8> {
    if has_com(coms, addr) {
        coms[find_com(coms, addr)].1.hash_chain_index@
    } else {
        Seq::<u8>::empty()
    }
}

/// Buffer entry `i` is a qualifying stake whose address does not recur
/// among the first `upto` entries after it, so applying those entries
/// leaves its amount as the account's balance.
pub open spec fn credited_upto(
    accounts: Seq<Account>,
    txns: Seq<Transaction>,
    i: int,
    upto: int,
) -> bool {
    &&& 0 <= i < upto <= accounts.len()
    &&& accounts.len() <= txns.len()
    &&& txns[i].txn_type == TransactionType::STAKE
    &&& txns[i].amount >= crate::config::STAKING_AMOUNT
    &&& forall|j: int| i < j < upto ==> (#[trigger] accounts[j]).address@ != accounts[i].address@
}

/// Buffer entry `i` is a qualifying stake whose address does not recur
/// anywhere later in the buffer: applying the whole buffer credits it.
pub open spec fn buffered_stake_credited(
    accounts: Seq<Account>,
    txns: Seq<Transaction>,
    i: int,
) -> bool {
    credited_upto(accounts, txns, i, accounts.len() as int)
}

impl Validator {
    pub open spec fn wf(&self) -> bool {
        self.state.wf()
    }

    /// An empty validator set.
    pub fn new() -> (v: Validator)
        ensures
            v.wf(),
            v.state.accounts@.len() == 0,
            v.hash_chain_com@.len() == 0,
    {
        Validator { state: State::new(), hash_chain_com: Vec::new(), next_block_hash: Vec::new() }
    }

    /// Admit an account: register it, and when the transaction is a stake
    /// of at least `STAKING_AMOUNT`, set its balance to the staked
    /// amount. Returns whether the stake was credited.
    pub fn add_validator(&mut self, account: Account, txn: &Transaction) -> (r: bool)
        requires
            old(self).wf(),
        ensures
            final(self).wf(),
            has_account(final(self).state.accounts@, account.address@),
            r == (txn.txn_type == TransactionType::STAKE && txn.amount >= STAKING_AMOUNT),
            r ==> final(self).state.balance_of(account.address@) == txn.amount,
            final(self).hash_chain_com@ == old(self).hash_chain_com@,
            final(self).state.accounts@ == old(self).state.accounts@ || final(self).state.accounts@
                == old(self).state.accounts@ + seq![final(self).state.accounts@.last()],
            forall|a: Seq<u8>|
                a != account.address@ ==> #[trigger] final(self).state.balance_of(a) == old(
                    self,
                ).state.balance_of(a),
    {
        let ghost old_accounts = self.state.accounts@;
        let ghost old_balances = self.state.balances@;
        let addr_copy = account.duplicate();
        self.state.add_account(account);
        proof {
            if self.state.accounts@ != old_accounts {
                assert(self.state.accounts@ =~= old_accounts.push(self.state.accounts@.last()));
                assert(self.state.balances@ =~= old_balances.push(0u64));
            }
            assert forall|a: Seq<u8>|
                a != addr_copy.address@ implies #[trigger] self.state.balance_of(a) == old(
                self,
            ).state.balance_of(a) by {
                lemma_balance_frame_append(old_accounts, old_balances, self.state, addr_copy.address@, a);
            }
        }
        let ghost mid = *self;
        let r = if txn.txn_type == TransactionType::STAKE && txn.amount >= STAKING_AMOUNT {
            let ok = self.state.set_balance(&addr_copy, txn.amount);
            proof {
                assert(ok);
                crate::accounts::lemma_find_account(self.state.accounts@, addr_copy.address@);
            }
            true
        } else {
            false
        };
        proof {
            assert forall|a: Seq<u8>|
                a != addr_copy.address@ implies #[trigger] self.state.balance_of(a)
                == mid.state.balance_of(a) by {
                if crate::accounts::has_account(self.state.accounts@, a) {
                    crate::accounts::lemma_find_account(self.state.accounts@, a);
                    crate::accounts::lemma_find_account(self.state.accounts@, addr_copy.address@);
                    let fa = crate::accounts::find_account(self.state.accounts@, a);
                    let fb = crate::accounts::find_account(
                        self.state.accounts@,
                        addr_copy.address@,
                    );
                    assert(fa != fb);
                }
            }
        }
        r
    }

    /// Credit every buffered stake account with its buffered transaction.
    pub fn apply_buffer(&mut self, accounts: &Vec<Account>, txns: &Vec<Transaction>)
        requires
            old(self).wf(),
            accounts@.len() <= txns@.len(),
        ensures
            final(self).wf(),
            forall|i: int|
                0 <= i < accounts@.len() ==> has_account(
                    final(self).state.accounts@,
                    (#[trigger] accounts@[i]).address@,
                ),
            forall|i: int|
                buffered_stake_credited(accounts@, txns@, i) ==> final(self).state.balance_of(
                    (#[trigger] accounts@[i]).address@,
                ) == txns@[i].amount,
    {
        let mut i: usize = 0;
        #[verifier::loop_isolation(false)]
        while i < accounts.len()
            invariant
                i <= accounts@.len(),
                self.wf(),
                forall|k: int|
                    0 <= k < i ==> has_account(
                        self.state.accounts@,
                        (#[trigger] accounts@[k]).address@,
                    ),
                forall|k: int|
                    0 <= k < i && credited_upto(accounts@, txns@, k, i as int)
                        ==> self.state.balance_of((#[trigger] accounts@[k]).address@)
                        == txns@[k].amount,
            decreases accounts@.len() - i,
        {
            let ghost prev = self.state.accounts@;
            let ghost prev_state = *self;
            let entry = accounts[i].duplicate();
            self.add_validator(entry, &txns[i]);
            proof {
                assert forall|k: int|
                    0 <= k < i + 1 implies has_account(
                    self.state.accounts@,
                    (#[trigger] accounts@[k]).address@,
                ) by {
                    if k < i {
                        lemma_has_account_grow(prev, self.state.accounts@, accounts@[k].address@);
                    }
                }
                assert forall|k: int|
                    0 <= k < i + 1 && credited_upto(accounts@, txns@, k, i + 1)
                    implies self.state.balance_of((#[trigger] accounts@[k]).address@)
                    == txns@[k].amount by {
                    if k < i {
                        assert(accounts@[i as int].address@ != accounts@[k].address@);
                        assert(self.state.balance_of(accounts@[k].address@)
                            == prev_state.state.balance_of(accounts@[k].address@));
                        assert(credited_upto(accounts@, txns@, k, i as int));
                    }
                }
            }
            i = i + 1;
        }
        proof {
            assert forall|i: int|
                buffered_stake_credited(accounts@, txns@, i) implies self.state.balance_of(
                (#[trigger] accounts@[i]).address@,
            ) == txns@[i].amount by {
                assert(credited_upto(accounts@, txns@, i, accounts@.len() as int));
            }
        }
    }

    /// The stored commitment for `account`, if any.
    pub fn get_validator_commitment(&self, account: &Account) -> (r: Option<HashChainCom>)
        ensures
            match r {
                Some(c) => has_com(self.hash_chain_com@, account.address@)
                    && c.hash_chain_index@ == com_of(self.hash_chain_com@, account.address@),
                None => !has_com(self.hash_chain_com@, account.address@),
            },
    {
        proof {
            lemma_find_com(self.hash_chain_com@, account.address@);
        }
        let mut i: usize = 0;
        while i < self.hash_chain_com.len()
            invariant
                i <= self.hash_chain_com@.len(),
                forall|k: int|
                    0 <= k < i ==> (#[trigger] self.hash_chain_com@[k]).0.address@
                        != account.address@,
            decreases self.hash_chain_com@.len() - i,
        {
            if self.hash_chain_com[i].0.same_address(account) {
                proof {
                    lemma_find_com_first(self.hash_chain_com@, account.address@, i as int);
                }
                return Some(self.hash_chain_com[i].1.duplicate());
            }
            i = i + 1;
        }
        None
    }

    /// Store or replace the commitment for `account`.
    pub fn update_validator_com(&mut self, account: Account, com: HashChainCom)
        ensures
            has_com(final(self).hash_chain_com@, account.address@),
            final(self).state == old(self).state,
    {
        let mut i: usize = 0;
        while i < self.hash_chain_com.len()
            invariant
                i <= self.hash_chain_com@.len(),
                self.hash_chain_com@.len() == old(self).hash_chain_com@.len(),
                self.state == old(self).state,
                self.next_block_hash == old(self).next_block_hash,
            decreases self.hash_chain_com@.len() - i,
        {
            if self.hash_chain_com[i].0.same_address(&account) {
                self.hash_chain_com.set(i, (account, com));
                proof {
                    assert((#[trigger] self.hash_chain_com@[i as int]).0.address@
                        == self.hash_chain_com@[i as int].0.address@);
                }
                return ;
            }
            i = i + 1;
        }
        let ghost n = self.hash_chain_com@.len() as int;
        self.hash_chain_com.push((account, com));
        proof {
            assert((#[trigger] self.hash_chain_com@[n]).0.address@
                == self.hash_chain_com@[n].0.address@);
        }
    }

    /// Forget every stored commitment.
    pub fn reset_validator_com(&mut self)
        ensures
            final(self).hash_chain_com@.len() == 0,
            final(self).state == old(self).state,
    {
        self.hash_chain_com.clear();
    }

    /// Whether every validator account has sent a commitment.
    pub fn hash_chain_received(&self) -> (r: bool)
        ensures
            r == (self.hash_chain_com@.len() == self.state.accounts@.len()),
    {
        self.hash_chain_com.len() == self.state.accounts.len()
    }
}

/// Adding an account with a different address leaves `a`'s balance as it
/// was.
proof fn lemma_balance_frame_append(
    old_accounts: Seq<Account>,
    old_balances: Seq<u64>,
    cur: State,
    added: Seq<u8>,
    a: Seq<u8>,
)
    requires
        a != added,
        (cur.accounts@ == old_accounts && cur.balances@ == old_balances) || (cur.accounts@.len()
            == old_accounts.len() + 1 && cur.accounts@ == old_accounts.push(
            cur.accounts@.last(),
        ) && cur.accounts@.last().address@ == added && cur.balances@ == old_balances.push(0u64)),
        old_accounts.len() == old_balances.len(),
    ensures
        ({
            let was = if crate::accounts::has_account(old_accounts, a) {
                old_balances[crate::accounts::find_account(old_accounts, a)] as int
            } else {
                0int
            };
            cur.balance_of(a) == was
        }),
{
    if cur.accounts@ == old_accounts && cur.balances@ == old_balances {
    } else {
        let x = cur.accounts@.last();
        assert(cur.accounts@ =~= old_accounts.push(x));
        crate::accounts::lemma_find_append(old_accounts, x, a);
        if crate::accounts::has_account(old_accounts, a) {
            crate::accounts::lemma_find_account(old_accounts, a);
        }
    }
}

/// Adding accounts never removes one.
proof fn lemma_has_account_grow(prev: Seq<Account>, cur: Seq<Account>, addr: Seq<u8>)
    requires
        has_account(prev, addr),
        prev == cur || cur == prev + seq![cur.last()],
    ensures
        has_account(cur, addr),
{
    if cur != prev {
        let w = choose|i: int| 0 <= i < prev.len() && (#[trigger] prev[i]).address@ == addr;
        assert((#[trigger] cur[w]).address@ == addr);
    }
}

/// When everything before `i` misses and `i` hits, `i` is the find
/// result.
proof fn lemma_find_com_first(coms: Seq<(Account, HashChainCom)>, addr: Seq<u8>, i: int)
    requires
        0 <= i < coms.len(),
        coms[i].0.address@ == addr,
        forall|k: int| 0 <= k < i ==> (#[trigger] coms[k]).0.address@ != addr,
    ensures
        find_com(coms, addr) == i,
    decreases i,
{
    if i == 0 {
    } else {
        let sub = coms.skip(1);
        assert(forall|k: int| 0 <= k < sub.len() ==> sub[k] == coms[k + 1]);
        lemma_find_com_first(sub, addr, i - 1);
    }
}

} // verus!
