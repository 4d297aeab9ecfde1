//! Per-validator epoch commitment: a seeded chain of SHA3-256 preimages.
//!
//! The chain holds `EPOCH_DURATION + 2` digests: `h[0]` is the hash of a
//! random nonce and every later link is the hash of the one before. The
//! last link is the commitment, published at epoch start; the reveal for
//! slot `s` is `h[EPOCH_DURATION - s + 1]`, disclosed one per slot in
//! decreasing index order. A verifier hashes a claimed reveal `s` times
//! and compares against the commitment.

use vstd::prelude::*;

use crate::accounts::Account;
use crate::bytesutil::bytes_clone;
use crate::bytesutil::u64_be_spec;
use crate::bytesutil::u64_to_be;
use crate::config::EPOCH_DURATION;
use crate::crypto::random_u64;
use crate::crypto::sha3_256;
use crate::crypto::sha3_of;
use crate::hexstr::hex_decode;
use crate::hexstr::hex_encode;
use crate::hexstr::hex_parse;
use crate::hexstr::hex_seq;
use crate::hexstr::valid_hex;
use crate::merkle::bytes_view;

verus! {

/// SHA3-256 applied `k` times to `x`.
pub open spec fn iter_sha3(x: Seq<u8>, k: nat) -> Seq<u8>
    decreases k,
{
    if k == 0 {
        x
    } else {
        sha3_of(iter_sha3(x, (k - 1) as nat))
    }
}

/// A chain of digests, each the SHA3-256 hash of the one before.
pub struct HashChain {
    pub hash_chain: Vec<Vec<u8>>,
}

/// A validator's published commitment: the hex of the chain's last link.
pub struct HashChainCom {
    pub hash_chain_index: Vec<u8>,
    pub sender: Account,
}

impl HashChainCom {
    /// A field-for-field copy.
    pub fn duplicate(&self) -> (r: HashChainCom)
        ensures
            r.hash_chain_index@ == self.hash_chain_index@,
            r.sender.address@ == self.sender.address@,
    {
        HashChainCom {
            hash_chain_index: bytes_clone(&self.hash_chain_index),
            sender: self.sender.duplicate(),
        }
    }
}

/// A revealed preimage for one slot of an epoch.
pub struct HashChainMessage {
    pub hash: Vec<u8>,
    pub sender: Account,
    pub epoch: u64,
}

impl HashChain {
    /// The chain links as byte strings.
    pub open spec fn view_chain(&self) -> Seq<Seq<u8>> {
        bytes_view(self.hash_chain@)
    }

    /// Every link is the hash of the one before, and the chain covers one
    /// epoch.
    pub open spec fn wf(&self) -> bool {
        &&& self.view_chain().len() == EPOCH_DURATION + 2
        &&& forall|i: int|
            1 <= i < self.view_chain().len() ==> #[trigger] self.view_chain()[i] == sha3_of(
                self.view_chain()[i - 1],
            )
    }

    /// An empty placeholder chain, replaced at the first epoch rollover.
    pub fn empty() -> (c: HashChain)
        ensures
            c.hash_chain@.len() == 0,
    {
        HashChain { hash_chain: Vec::new() }
    }

    /// Sample a nonce and grow the chain for one epoch.
    pub fn new() -> (c: HashChain)
        ensures
            c.wf(),
            exists|nonce: u64|
                c.view_chain()[0] == sha3_of(#[trigger] u64_be_spec(nonce)),
    {
        let nonce = random_u64();
        let nonce_bytes = u64_to_be(nonce);
        let mut hash_chain: Vec<Vec<u8>> = Vec::new();
        hash_chain.push(sha3_256(&nonce_bytes));
        let mut i: usize = 0;
        while i < (EPOCH_DURATION as usize) + 1
            invariant
                i <= EPOCH_DURATION + 1,
                hash_chain@.len() == i + 1,
                hash_chain@[0]@ == sha3_of(u64_be_spec(nonce)),
                forall|k: int|
                    1 <= k < hash_chain@.len() ==> (#[trigger] hash_chain@[k])@ == sha3_of(
                        hash_chain@[k - 1]@,
                    ),
            decreases EPOCH_DURATION + 1 - i,
        {
            let last = &hash_chain[hash_chain.len() - 1];
            let next = sha3_256(last);
            hash_chain.push(next);
            i = i + 1;
        }
        let c = HashChain { hash_chain };
        proof {
            assert(forall|k: int|
                1 <= k < c.view_chain().len() ==> #[trigger] c.view_chain()[k] == sha3_of(
                    c.view_chain()[k - 1],
                ));
            assert(c.view_chain()[0] == sha3_of(u64_be_spec(nonce)));
        }
        c
    }

    /// The hex of the link at `index`, wrapped as a commitment message for
    /// `sender`.
    pub fn get_hash(&self, index: usize, sender: Account) -> (r: HashChainCom)
        requires
            index < self.hash_chain@.len(),
        ensures
            r.hash_chain_index@ == hex_seq(self.view_chain()[index as int]),
            r.sender.address@ == sender.address@,
    {
        let hex = hex_encode(&self.hash_chain[index]);
        HashChainCom { hash_chain_index: hex, sender }
    }
}

/// Check a claimed reveal for slot `index` against a commitment: decode
/// the hex reveal, hash it `index` times, and compare the hex of the
/// result with the commitment. A reveal that is not valid hex is rejected.
pub fn verify_hash_chain_index(commitment: &Vec<u8>, index: u64, received_hash: &Vec<u8>) -> (r:
    bool)
    requires
        index <= EPOCH_DURATION,
    ensures
        r == (valid_hex(received_hash@) && hex_seq(
            iter_sha3(hex_parse(received_hash@), index as nat),
        ) == commitment@),
{
    let decoded = match hex_decode(received_hash) {
        Some(d) => d,
        None => {
            return false;
        },
    };
    let ghost start = hex_parse(received_hash@);
    let mut cur = decoded;
    let mut k: u64 = 0;
    while k < index
        invariant
            k <= index,
            cur@ == iter_sha3(start, k as nat),
        decreases index - k,
    {
        cur = sha3_256(&cur);
        k = k + 1;
    }
    let computed = hex_encode(&cur);
    crate::bytesutil::bytes_eq(&computed, commitment)
}

/// Hash-chain round trip: hashing the reveal for slot `s` exactly `s`
/// times yields the commitment, for every slot of the epoch.
pub proof fn lemma_hash_chain_round_trip(c: HashChain, s: u64)
    requires
        c.wf(),
        s <= EPOCH_DURATION,
    ensures
        iter_sha3(
            c.view_chain()[EPOCH_DURATION + 1 - s],
            s as nat,
        ) == c.view_chain()[EPOCH_DURATION + 1],
{
    lemma_iter_links(c, EPOCH_DURATION + 1 - s as int, s as nat);
}

/// Hashing the link at `i` exactly `k` times lands on the link at `i + k`.
proof fn lemma_iter_links(c: HashChain, i: int, k: nat)
    requires
        c.wf(),
        0 <= i,
        i + k < c.view_chain().len(),
    ensures
        iter_sha3(c.view_chain()[i], k) == c.view_chain()[i + k],
    decreases k,
{
    if k > 0 {
        lemma_iter_links(c, i, (k - 1) as nat);
        assert(c.view_chain()[i + k] == sha3_of(c.view_chain()[i + k - 1]));
    }
}

/// At slot zero the check is trivial: the reveal must equal the
/// commitment itself.
pub proof fn lemma_verify_at_slot_zero(reveal_bytes: Seq<u8>, commitment: Seq<u8>)
    ensures
        (hex_seq(iter_sha3(reveal_bytes, 0)) == commitment) <==> (hex_seq(reveal_bytes)
            == commitment),
{
}

} // verus!
