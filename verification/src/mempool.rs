//! Pending transactions, kept in arrival order.

use vstd::prelude::*;

use crate::bytesutil::bytes_eq;
use crate::transaction::Transaction;

verus! {

/// The pool of transactions waiting to be drained into a block.
pub struct Mempool {
    pub transactions: Vec<Transaction>,
}

impl Mempool {
    /// An empty pool.
    pub fn new() -> (m: Mempool)
        ensures
            m.transactions@.len() == 0,
    {
        Mempool { transactions: Vec::new() }
    }

    /// Append a transaction.
    pub fn add_transaction(&mut self, txn: Transaction)
        ensures
            final(self).transactions@ == old(self).transactions@ + seq![txn],
    {
        self.transactions.push(txn);
    }

    /// Drop every transaction whose hash equals the given one, keeping the
    /// order of the rest.
    pub fn delete_transaction(&mut self, txn: &Transaction)
        ensures
            final(self).transactions@ == old(self).transactions@.filter(
                |t: Transaction| t.hash@ != txn.hash@,
            ),
    {
        let ghost pred = |t: Transaction| t.hash@ != txn.hash@;
        let ghost orig = self.transactions@;
        let mut i: usize = 0;
        let ghost j: int = 0;
        proof {
            reveal(Seq::<_>::filter);
            assert(orig.take(0).filter(pred) =~= Seq::<Transaction>::empty());
            assert(self.transactions@ =~= orig.take(0).filter(pred) + orig.skip(0));
        }
        #[verifier::loop_isolation(false)]
        while i < self.transactions.len()
            invariant
                0 <= j <= orig.len(),
                i == orig.take(j).filter(pred).len(),
                self.transactions@ == orig.take(j).filter(pred) + orig.skip(j),
                self.transactions@.len() - i == orig.len() - j,
            decreases self.transactions@.len() - i,
        {
            proof {
                assert(self.transactions@[i as int] == orig.skip(j)[0]);
                assert(orig.skip(j)[0] == orig[j]);
                assert(orig.take(j + 1).drop_last() =~= orig.take(j));
                assert(orig.take(j + 1).last() == orig[j]);
            }
            if bytes_eq(&self.transactions[i].hash, &txn.hash) {
                self.transactions.remove(i);
                proof {
                    reveal(Seq::<_>::filter);
                    assert(!pred(orig[j]));
                    assert(orig.take(j + 1).filter(pred) == orig.take(j).filter(pred));
                    assert(self.transactions@ =~= orig.take(j + 1).filter(pred) + orig.skip(
                        j + 1,
                    ));
                }
            } else {
                proof {
                    reveal(Seq::<_>::filter);
                    assert(pred(orig[j]));
                    assert(orig.take(j + 1).filter(pred) == orig.take(j).filter(pred).push(
                        orig[j],
                    ));
                    assert(self.transactions@ =~= orig.take(j + 1).filter(pred) + orig.skip(
                        j + 1,
                    ));
                }
                i = i + 1;
            }
            proof {
                j = j + 1;
            }
        }
        proof {
            reveal(Seq::<_>::filter);
            assert(orig.take(orig.len() as int) =~= orig);
            assert(orig.skip(orig.len() as int) =~= Seq::<Transaction>::empty());
            assert(self.transactions@ =~= orig.filter(pred));
        }
    }

    /// A copy of the whole pool.
    pub fn get_mempool(&self) -> (r: Vec<Transaction>)
        ensures
            r@.len() == self.transactions@.len(),
            forall|k: int|
                0 <= k < r@.len() ==> (#[trigger] r@[k]).hash@ == self.transactions@[k].hash@
                    && r@[k].amount == self.transactions@[k].amount,
    {
        let mut r: Vec<Transaction> = Vec::new();
        let mut i: usize = 0;
        while i < self.transactions.len()
            invariant
                i <= self.transactions@.len(),
                r@.len() == i,
                forall|k: int|
                    0 <= k < i ==> (#[trigger] r@[k]).hash@ == self.transactions@[k].hash@
                        && r@[k].amount == self.transactions@[k].amount,
            decreases self.transactions@.len() - i,
        {
            r.push(self.transactions[i].duplicate());
            i = i + 1;
        }
        r
    }

    /// Whether a transaction with this hash is pending.
    pub fn txn_exists(&self, hash: &Vec<u8>) -> (r: bool)
        ensures
            r == exists|k: int|
                0 <= k < self.transactions@.len() && (#[trigger] self.transactions@[k]).hash@
                    == hash@,
    {
        let mut i: usize = 0;
        while i < self.transactions.len()
            invariant
                i <= self.transactions@.len(),
                forall|k: int| 0 <= k < i ==> (#[trigger] self.transactions@[k]).hash@ != hash@,
            decreases self.transactions@.len() - i,
        {
            if bytes_eq(&self.transactions[i].hash, hash) {
                return true;
            }
            i = i + 1;
        }
        false
    }

    /// Take up to `limit` transactions from the end of the pool, removing
    /// them.
    pub fn get_transactions(&mut self, limit: usize) -> (r: Vec<Transaction>)
        ensures
            ({
                let n = if limit <= old(self).transactions@.len() {
                    limit as int
                } else {
                    old(self).transactions@.len() as int
                };
                &&& final(self).transactions@ == old(self).transactions@.take(
                    old(self).transactions@.len() - n,
                )
                &&& r@ == old(self).transactions@.skip(old(self).transactions@.len() - n)
            }),
    {
        let len = self.transactions.len();
        let count = if limit < len {
            limit
        } else {
            len
        };
        let r = self.transactions.split_off(len - count);
        proof {
            assert(final(self).transactions@ =~= old(self).transactions@.take(len - count));
            assert(r@ =~= old(self).transactions@.skip(len - count));
        }
        r
    }

    /// Drop everything.
    pub fn clear(&mut self)
        ensures
            final(self).transactions@.len() == 0,
    {
        self.transactions.clear();
    }
}

/// A filter whose predicate holds everywhere keeps the list whole.
pub proof fn lemma_filter_none(s: Seq<Transaction>, p: spec_fn(Transaction) -> bool)
    requires
        forall|t: Transaction| #[trigger] p(t),
    ensures
        s.filter(p) == s,
    decreases s.len(),
{
    reveal(Seq::<_>::filter);
    if s.len() == 0 {
        assert(s.filter(p) =~= s);
    } else {
        lemma_filter_none(s.drop_last(), p);
        assert(p(s.last()));
        assert(s.filter(p) =~= s);
    }
}

/// Filtering twice filters by the conjunction.
pub proof fn lemma_filter_filter(
    s: Seq<Transaction>,
    p: spec_fn(Transaction) -> bool,
    q: spec_fn(Transaction) -> bool,
)
    ensures
        s.filter(p).filter(q) == s.filter(|t: Transaction| p(t) && q(t)),
    decreases s.len(),
{
    reveal(Seq::<_>::filter);
    let pq = |t: Transaction| p(t) && q(t);
    if s.len() == 0 {
        assert(s.filter(p) =~= Seq::<Transaction>::empty());
        assert(s.filter(p).filter(q) =~= Seq::<Transaction>::empty());
        assert(s.filter(pq) =~= Seq::<Transaction>::empty());
    } else {
        let x = s.last();
        let sub = s.drop_last();
        lemma_filter_filter(sub, p, q);
        if p(x) {
            assert(s.filter(p) == sub.filter(p).push(x));
            assert(sub.filter(p).push(x).drop_last() =~= sub.filter(p));
            assert(sub.filter(p).push(x).last() == x);
            if q(x) {
                assert(s.filter(p).filter(q) == sub.filter(p).filter(q).push(x));
                assert(s.filter(pq) == sub.filter(pq).push(x));
            } else {
                assert(s.filter(p).filter(q) == sub.filter(p).filter(q));
                assert(s.filter(pq) == sub.filter(pq));
            }
        } else {
            assert(s.filter(p) == sub.filter(p));
            assert(s.filter(pq) == sub.filter(pq));
        }
    }
}

} // verus!
