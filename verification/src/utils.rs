//! Seed derivation and the weighted leader-election lottery.
//!
//! The epoch seed XOR-folds every validator's commitment bytes into a
//! 32-byte buffer; the slot seed XORs the proposer's revealed hash into
//! the previous seed. Election hashes the seed with each validator's
//! commitment, reads the first eight digest bytes big-endian, and scales
//! by stake; the validator with the highest score wins, ties going to the
//! earliest in iteration order.

use vstd::prelude::*;

use crate::accounts::Account;
use crate::bytesutil::be_to_u64;
use crate::bytesutil::be_value;
use crate::bytesutil::bytes_clone;
use crate::bytesutil::vec_extend;
use crate::crypto::sha3_256;
use crate::crypto::sha3_of;
use crate::validator::com_of;
use crate::validator::has_com;
use crate::validator::Validator;

verus! {

/// A 32-byte slot or epoch seed.
pub struct Seed {
    pub seed: Vec<u8>,
}

/// 32 zero bytes.
pub open spec fn zero32() -> Seq<u8> {
    Seq::new(32, |i: int| 0u8)
}

/// XOR a commitment's bytes into the first positions of a 32-byte buffer.
pub open spec fn xor32(acc: Seq<u8>, s: Seq<u8>) -> Seq<u8> {
    Seq::new(32, |i: int|
        if i < s.len() {
            (acc[i] ^ s[i]) as u8
        } else {
            acc[i]
        })
}

/// Fold all commitments into the zero buffer, in order.
pub open spec fn epoch_seed_spec(coms: Seq<Seq<u8>>) -> Seq<u8>
    decreases coms.len(),
{
    if coms.len() == 0 {
        zero32()
    } else {
        xor32(epoch_seed_spec(coms.drop_last()), coms.last())
    }
}

/// The stored commitment strings of a validator set, in entry order.
pub open spec fn coms_view(v: Validator) -> Seq<Seq<u8>> {
    Seq::new(v.hash_chain_com@.len(), |i: int| v.hash_chain_com@[i].1.hash_chain_index@)
}

/// The slot seed: the proposer's reveal XORed into the previous seed,
/// byte by byte over the first 32 positions.
pub open spec fn block_seed_spec(h: Seq<u8>, prev: Seq<u8>) -> Seq<u8> {
    Seq::new(32, |i: int|
        if i < h.len() {
            (h[i] ^ prev[i]) as u8
        } else {
            0u8
        })
}

/// The seed buffer always holds 32 bytes.
proof fn lemma_epoch_seed_len(s: Seq<Seq<u8>>)
    ensures
        epoch_seed_spec(s).len() == 32,
{
}

/// XOR-folding two commitments commutes.
proof fn lemma_xor32_swap(a: Seq<u8>, x: Seq<u8>, y: Seq<u8>)
    requires
        a.len() == 32,
    ensures
        xor32(xor32(a, x), y) == xor32(xor32(a, y), x),
{
    assert forall|i: int|
        0 <= i < 32 implies xor32(xor32(a, x), y)[i] == xor32(xor32(a, y), x)[i] by {
        if i < x.len() && i < y.len() {
            let p = a[i];
            let q = x[i];
            let r = y[i];
            assert((p ^ q) ^ r == (p ^ r) ^ q) by (bit_vector);
        }
    }
    assert(xor32(xor32(a, x), y) =~= xor32(xor32(a, y), x));
}

/// Extracting any one commitment out of the fold folds it last.
proof fn lemma_epoch_seed_extract(s: Seq<Seq<u8>>, j: int)
    requires
        0 <= j < s.len(),
    ensures
        epoch_seed_spec(s) == xor32(epoch_seed_spec(s.remove(j)), s[j]),
    decreases s.len(),
{
    if j == s.len() - 1 {
        assert(s.remove(j) =~= s.drop_last());
    } else {
        let y = s.last();
        let dl = s.drop_last();
        lemma_epoch_seed_extract(dl, j);
        lemma_epoch_seed_len(dl.remove(j));
        lemma_xor32_swap(epoch_seed_spec(dl.remove(j)), s[j], y);
        assert(s.remove(j).drop_last() =~= dl.remove(j));
        assert(s.remove(j).last() == y);
        assert(dl[j] == s[j]);
    }
}

/// The epoch seed is order-independent by construction: commitment lists
/// holding the same multiset of strings, in any order, XOR-fold to the
/// same seed.
pub proof fn lemma_epoch_seed_order_independent(s1: Seq<Seq<u8>>, s2: Seq<Seq<u8>>)
    requires
        s1.to_multiset() == s2.to_multiset(),
    ensures
        epoch_seed_spec(s1) == epoch_seed_spec(s2),
    decreases s1.len(),
{
    broadcast use vstd::seq_lib::group_to_multiset_ensures;

    if s1.len() == 0 {
        assert(s2.to_multiset().len() == 0);
        assert(s2.len() == 0);
    } else {
        let x = s1.last();
        assert(s1.contains(x));
        assert(s1.to_multiset().count(x) > 0);
        assert(s2.to_multiset().count(x) > 0);
        assert(s2.contains(x));
        let j = choose|j: int| 0 <= j < s2.len() && s2[j] == x;
        lemma_epoch_seed_extract(s2, j);
        assert(s1.drop_last() =~= s1.remove(s1.len() - 1));
        assert(s1.remove(s1.len() - 1).to_multiset() =~= s1.to_multiset().remove(x));
        assert(s2.remove(j).to_multiset() =~= s2.to_multiset().remove(x));
        lemma_epoch_seed_order_independent(s1.drop_last(), s2.remove(j));
    }
}

impl Seed {
    pub open spec fn wf(&self) -> bool {
        self.seed@.len() == 32
    }

    /// The epoch seed: XOR of every stored commitment.
    pub fn new_epoch_seed(validator: &Validator) -> (s: Seed)
        ensures
            s.wf(),
            s.seed@ == epoch_seed_spec(coms_view(*validator)),
    {
        let mut seed: Vec<u8> = Vec::new();
        let mut z: usize = 0;
        while z < 32
            invariant
                z <= 32,
                seed@ =~= zero32().take(z as int),
            decreases 32 - z,
        {
            seed.push(0);
            proof {
                assert(seed@ =~= zero32().take(z + 1));
            }
            z = z + 1;
        }
        proof {
            assert(seed@ =~= zero32());
        }
        let mut c: usize = 0;
        #[verifier::loop_isolation(false)]
        while c < validator.hash_chain_com.len()
            invariant
                c <= validator.hash_chain_com@.len(),
                seed@.len() == 32,
                seed@ == epoch_seed_spec(coms_view(*validator).take(c as int)),
            decreases validator.hash_chain_com@.len() - c,
        {
            let ghost prev_seed = seed@;
            let com = &validator.hash_chain_com[c].1.hash_chain_index;
            let mut i: usize = 0;
            while i < 32 && i < com.len()
                invariant
                    i <= 32,
                    seed@.len() == 32,
                    com@ == coms_view(*validator)[c as int],
                    forall|k: int|
                        0 <= k < i ==> seed@[k] == xor32(prev_seed, com@)[k],
                    forall|k: int| i <= k < 32 ==> seed@[k] == prev_seed[k],
                decreases 32 - i,
            {
                let b = seed[i] ^ com[i];
                seed.set(i, b);
                i = i + 1;
            }
            proof {
                assert(seed@ =~= xor32(prev_seed, com@));
                assert(coms_view(*validator).take(c + 1).drop_last() =~= coms_view(
                    *validator,
                ).take(c as int));
                assert(coms_view(*validator).take(c + 1).last() == com@);
            }
            c = c + 1;
        }
        proof {
            assert(coms_view(*validator).take(validator.hash_chain_com@.len() as int)
                =~= coms_view(*validator));
        }
        Seed { seed }
    }

    /// A copy of the seed bytes.
    pub fn get_seed(&self) -> (r: Vec<u8>)
        ensures
            r@ == self.seed@,
    {
        bytes_clone(&self.seed)
    }
}

/// Derive the next slot seed from the proposer's reveal and the previous
/// seed.
pub fn get_block_seed(proposer_hash: &Vec<u8>, prev_seed: &Seed) -> (s: Seed)
    requires
        prev_seed.wf(),
    ensures
        s.wf(),
        s.seed@ == block_seed_spec(proposer_hash@, prev_seed.seed@),
{
    let mut seed: Vec<u8> = Vec::new();
    let mut i: usize = 0;
    while i < 32
        invariant
            i <= 32,
            prev_seed.seed@.len() == 32,
            seed@.len() == i,
            forall|k: int|
                0 <= k < i ==> seed@[k] == block_seed_spec(proposer_hash@, prev_seed.seed@)[k],
        decreases 32 - i,
    {
        if i < proposer_hash.len() {
            seed.push(proposer_hash[i] ^ prev_seed.seed[i]);
        } else {
            seed.push(0);
        }
        i = i + 1;
    }
    proof {
        assert(seed@ =~= block_seed_spec(proposer_hash@, prev_seed.seed@));
    }
    Seed { seed }
}

/// A validator's lottery score: the first eight bytes of
/// `SHA3-256(seed || commitment)` read big-endian, times its stake; zero
/// for a validator without a stored commitment.
pub open spec fn score_at(seed: Seq<u8>, v: Validator, i: int) -> int {
    let addr = v.state.accounts@[i].address@;
    if has_com(v.hash_chain_com@, addr) {
        be_value(sha3_of(seed + com_of(v.hash_chain_com@, addr)).take(8)) * v.state.balance_of(
            addr,
        )
    } else {
        0
    }
}

/// The first index among `0 .. k` with the maximal score.
pub open spec fn winner_upto(seed: Seq<u8>, v: Validator, k: int) -> int
    decreases k,
{
    if k <= 1 {
        0
    } else {
        let w = winner_upto(seed, v, k - 1);
        if score_at(seed, v, k - 1) > score_at(seed, v, w) {
            k - 1
        } else {
            w
        }
    }
}

/// Elect the block proposer for a seed: the stake-scaled hash lottery
/// over the validator set, ties resolved to the earliest validator.
/// `None` exactly when the set is empty.
pub fn select_block_proposer(seed: &Seed, validator: &Validator) -> (r: Option<Account>)
    requires
        validator.wf(),
    ensures
        match r {
            Some(a) => validator.state.accounts@.len() > 0 && a.address@
                == validator.state.accounts@[winner_upto(
                seed.seed@,
                *validator,
                validator.state.accounts@.len() as int,
            )].address@,
            None => validator.state.accounts@.len() == 0,
        },
{
    if validator.state.accounts.len() == 0 {
        return None;
    }
    let mut best: usize = 0;
    let mut best_score: u128 = score_of(seed, validator, 0);
    let mut i: usize = 1;
    #[verifier::loop_isolation(false)]
    while i < validator.state.accounts.len()
        invariant
            1 <= i <= validator.state.accounts@.len(),
            best < i,
            best as int == winner_upto(seed.seed@, *validator, i as int),
            best_score as int == score_at(seed.seed@, *validator, best as int),
        decreases validator.state.accounts@.len() - i,
    {
        let s = score_of(seed, validator, i);
        if s > best_score {
            best = i;
            best_score = s;
        }
        i = i + 1;
    }
    Some(validator.state.accounts[best].duplicate())
}

/// Executable score of validator `i`.
fn score_of(seed: &Seed, validator: &Validator, i: usize) -> (r: u128)
    requires
        validator.wf(),
        i < validator.state.accounts@.len(),
    ensures
        r as int == score_at(seed.seed@, *validator, i as int),
{
    let account = &validator.state.accounts[i];
    match validator.get_validator_commitment(account) {
        Some(com) => {
            let mut buf = bytes_clone(&seed.seed);
            vec_extend(&mut buf, &com.hash_chain_index);
            proof {
                assert(buf@ =~= seed.seed@ + com_of(
                    validator.hash_chain_com@,
                    account.address@,
                ));
            }
            let digest = sha3_256(&buf);
            let numeric = be_to_u64(&digest);
            let stake = validator.state.get_balance(account);
            proof {
                assert((numeric as int) * (stake as int) <= 0xffff_ffff_ffff_ffff
                    * 0xffff_ffff_ffff_ffff) by (nonlinear_arith)
                    requires
                        0 <= numeric <= 0xffff_ffff_ffff_ffff,
                        0 <= stake <= 0xffff_ffff_ffff_ffff,
                {
                }
            }
            (numeric as u128) * (stake as u128)
        },
        None => 0,
    }
}

} // verus!
