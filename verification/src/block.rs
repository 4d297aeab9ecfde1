//! Blocks: the per-slot containers of transactions.

use vstd::prelude::*;

use crate::accounts::Account;
use crate::bytesutil::bytes_clone;
use crate::ccok::Certificate;
use crate::merkle::hash_leaves;
use crate::merkle::root_spec;
use crate::merkle::MerkleTreeBuilder;
use crate::transaction::Transaction;
use crate::utils::zero32;
use crate::utils::Seed;

verus! {

/// The transaction hashes a block commits to, in order.
pub open spec fn tx_hashes(txs: Seq<Transaction>) -> Seq<Seq<u8>> {
    Seq::new(txs.len(), |i: int| txs[i].hash@)
}

/// The block hash: the Merkle root over the transaction hashes, or 32
/// zero bytes for an empty block.
pub open spec fn block_root_spec(txs: Seq<Transaction>) -> Seq<u8> {
    if txs.len() == 0 {
        zero32()
    } else {
        root_spec(hash_leaves(tx_hashes(txs)))
    }
}

/// One block of the chain.
pub struct Block {
    pub id: u64,
    pub hash: Vec<u8>,
    pub previous_hash: Vec<u8>,
    pub timestamp: u64,
    pub txn: Vec<Transaction>,
    pub proposer_address: Account,
    pub proposer_hash: Vec<u8>,
    pub seed: Seed,
    pub certificate: Option<Certificate>,
}

impl Block {
    /// The hash field matches the Merkle root of the transactions.
    pub open spec fn hash_ok(&self) -> bool {
        self.hash@ == block_root_spec(self.txn@)
    }

    /// Assemble a block and set its hash from its transactions.
    pub fn new(
        id: u64,
        previous_hash: Vec<u8>,
        timestamp: u64,
        txn: Vec<Transaction>,
        proposer_address: Account,
        proposer_hash: Vec<u8>,
        seed: Seed,
        certificate: Option<Certificate>,
    ) -> (b: Block)
        ensures
            b.id == id,
            b.previous_hash@ == previous_hash@,
            b.timestamp == timestamp,
            b.txn@ == txn@,
            b.proposer_address.address@ == proposer_address.address@,
            b.proposer_hash@ == proposer_hash@,
            b.seed.seed@ == seed.seed@,
            b.hash_ok(),
            b.certificate is Some <==> certificate is Some,
    {
        let mut block = Block {
            id,
            hash: Vec::new(),
            previous_hash,
            timestamp,
            txn,
            proposer_address,
            proposer_hash,
            seed,
            certificate,
        };
        block.hash = block.compute_merkle_root();
        block
    }

    /// The Merkle root over the transaction hashes; zero for no
    /// transactions.
    pub fn compute_merkle_root(&self) -> (r: Vec<u8>)
        ensures
            r@ == block_root_spec(self.txn@),
    {
        if self.txn.len() == 0 {
            let mut z: Vec<u8> = Vec::new();
            let mut i: usize = 0;
            while i < 32
                invariant
                    i <= 32,
                    z@ =~= zero32().take(i as int),
                decreases 32 - i,
            {
                z.push(0);
                proof {
                    assert(z@ =~= zero32().take(i + 1));
                }
                i = i + 1;
            }
            proof {
                assert(z@ =~= zero32());
            }
            z
        } else {
            let mut leaves: Vec<Vec<u8>> = Vec::new();
            let mut i: usize = 0;
            while i < self.txn.len()
                invariant
                    i <= self.txn@.len(),
                    leaves@.len() == i,
                    forall|k: int| 0 <= k < i ==> (#[trigger] leaves@[k])@ == self.txn@[k].hash@,
                decreases self.txn@.len() - i,
            {
                leaves.push(bytes_clone(&self.txn[i].hash));
                i = i + 1;
            }
            let mut tree = MerkleTreeBuilder::new();
            tree.build(&leaves);
            proof {
                assert(crate::merkle::bytes_view(leaves@) =~= tx_hashes(self.txn@));
            }
            tree.root()
        }
    }
}

} // verus!
