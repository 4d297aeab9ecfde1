//! The per-slot blockchain driver: elect, propose, verify, execute,
//! collect signatures, and build the compact certificate.

use vstd::prelude::*;

use crate::accounts::Account;
use crate::accounts::State;
use crate::block::Block;
use crate::bytesutil::bytes_clone;
use crate::bytesutil::bytes_eq;
use crate::ccok::Builder as CertBuilder;
use crate::ccok::Certificate;
use crate::ccok::Params;
use crate::ccok::Participant;
use crate::config::EPOCH_DURATION;
use crate::config::STAKING_AMOUNT;
use crate::epoch::Epoch;
use crate::hashchain::verify_hash_chain_index;
use crate::hexstr::hex_seq;
use crate::hashchain::HashChain;
use crate::hexstr::hex_encode;
use crate::mempool::Mempool;
use crate::merkle::MerkleTreeBuilder;
use crate::p2p::BlockSignature;
use crate::transaction::Transaction;
use crate::transaction::TransactionType;
use crate::utils::get_block_seed;
use crate::utils::select_block_proposer;
use crate::utils::Seed;
use crate::validator::Validator;
use crate::wallet::Wallet;

verus! {

/// The first pending entry keyed by `id`, or the length when absent.
pub open spec fn pending_index_of(pending: Seq<(u64, Vec<BlockSignature>)>, id: u64) -> int
    decreases pending.len(),
{
    if pending.len() == 0 {
        0
    } else if pending[0].0 == id {
        0
    } else {
        1 + pending_index_of(pending.skip(1), id)
    }
}

/// Whether some pending entry is keyed by `id`.
pub open spec fn has_pending_entry(pending: Seq<(u64, Vec<BlockSignature>)>, id: u64) -> bool {
    exists|e: int| 0 <= e < pending.len() && (#[trigger] pending[e]).0 == id
}

/// Whether a signature list holds one from `sender`.
pub open spec fn entry_has_sender(sigs: Seq<BlockSignature>, sender: Seq<u8>) -> bool {
    exists|s: int| 0 <= s < sigs.len() && (#[trigger] sigs[s]).sender.address@ == sender
}

/// Whether a signature from `sender` is recorded for block `id`.
pub open spec fn has_pending_sig(
    pending: Seq<(u64, Vec<BlockSignature>)>,
    id: u64,
    sender: Seq<u8>,
) -> bool {
    exists|e: int|
        0 <= e < pending.len() && (#[trigger] pending[e]).0 == id && entry_has_sender(
            pending[e].1@,
            sender,
        )
}

/// How many signatures block `bs.block_id` holds once `bs` is recorded:
/// the first matching entry's count, plus one when its sender is new.
pub open spec fn pending_count_after(
    pending: Seq<(u64, Vec<BlockSignature>)>,
    bs: BlockSignature,
) -> int {
    if has_pending_entry(pending, bs.block_id) {
        let e = pending_index_of(pending, bs.block_id);
        pending[e].1@.len() + (if entry_has_sender(pending[e].1@, bs.sender.address@) {
            0int
        } else {
            1int
        })
    } else {
        1
    }
}

/// The block hash the certificate is built over: the first collected
/// signature's, or the inbound one's when the entry starts with it.
pub open spec fn entry_first_hash(
    pending: Seq<(u64, Vec<BlockSignature>)>,
    bs: BlockSignature,
) -> Seq<u8> {
    if has_pending_entry(pending, bs.block_id) && pending[pending_index_of(
        pending,
        bs.block_id,
    )].1@.len() > 0 {
        pending[pending_index_of(pending, bs.block_id)].1@[0].block_hash@
    } else {
        bs.block_hash@
    }
}

/// The participant snapshot lists the validator accounts in order, each
/// with its stake.
pub open spec fn participants_match_snapshot(parts: Seq<Participant>, v: Validator) -> bool {
    &&& parts.len() == v.state.accounts@.len()
    &&& forall|i: int|
        0 <= i < parts.len() ==> (#[trigger] parts[i]).public_key@
            == v.state.accounts@[i].address@ && parts[i].weight as int == v.state.balance_of(
            v.state.accounts@[i].address@,
        )
}

/// The whole stake of the first `n` validators, skipping an addend that
/// would not fit in a u64.
pub open spec fn snapshot_stake_sum(v: Validator, n: int) -> int
    decreases n,
{
    if n <= 0 {
        0
    } else {
        let w = v.state.balance_of(v.state.accounts@[n - 1].address@);
        let rest = snapshot_stake_sum(v, n - 1);
        if rest + w <= u64::MAX {
            rest + w
        } else {
            rest
        }
    }
}

/// The certificate was built by some builder over the validator snapshot
/// taken in iteration order, with the whole stake as the proven weight
/// and the party tree over that snapshot.
pub open spec fn certificate_snapshot_built(v: Validator, msg: Seq<u8>, cert: Certificate) -> bool {
    exists|b: crate::ccok::Builder|
        {
            &&& #[trigger] crate::ccok::built_rel(b, cert)
            &&& b.wf()
            &&& participants_match_snapshot(b.participants@, v)
            &&& b.params.msg@ == msg
            &&& b.params.security_param == 128
            &&& b.params.proven_weight as int == snapshot_stake_sum(v, v.state.accounts@.len() as int)
            &&& b.party_tree_root@ == crate::merkle::root_spec(
                crate::merkle::hash_leaves(crate::ccok::parts_enc(b.participants@)),
            )
            &&& b.signed_weight >= b.params.proven_weight
        }
}

/// When everything before `i` misses and `i` hits, `i` is the first
/// pending entry for the id.
proof fn lemma_pending_first(pending: Seq<(u64, Vec<BlockSignature>)>, id: u64, i: int)
    requires
        0 <= i < pending.len(),
        pending[i].0 == id,
        forall|k: int| 0 <= k < i ==> (#[trigger] pending[k]).0 != id,
    ensures
        pending_index_of(pending, id) == i,
        has_pending_entry(pending, id),
    decreases i,
{
    assert((#[trigger] pending[i]).0 == id);
    if i == 0 {
    } else {
        let sub = pending.skip(1);
        assert(forall|k: int| 0 <= k < sub.len() ==> sub[k] == pending[k + 1]);
        lemma_pending_first(sub, id, i - 1);
    }
}

/// A block is admitted: it is genesis, or it extends the chain head and
/// its proposer's reveal hashes to the stored commitment at the current
/// slot.
pub open spec fn block_verifies(bc: Blockchain, block: Block) -> bool {
    block.id == 1 || (bc.chain@.len() > 0 && block.previous_hash@ == bc.chain@.last().hash@
        && crate::validator::has_com(
        bc.validator.hash_chain_com@,
        block.proposer_address.address@,
    ) && crate::hexstr::valid_hex(block.proposer_hash@) && hex_seq(
        crate::hashchain::iter_sha3(
            crate::hexstr::hex_parse(block.proposer_hash@),
            bc.epoch.timestamp as nat,
        ),
    ) == crate::validator::com_of(
        bc.validator.hash_chain_com@,
        block.proposer_address.address@,
    ))
}

/// Whether a block's transaction list carries hash `h`.
pub open spec fn in_block(txns: Seq<Transaction>, h: Seq<u8>) -> bool {
    exists|i: int| 0 <= i < txns.len() && (#[trigger] txns[i]).hash@ == h
}

/// The balances after a transfer: the amount moves when both accounts
/// exist, the sender can pay and the recipient's balance still fits;
/// otherwise, or for a self-transfer, nothing changes.
pub open spec fn transfer_bals(
    accounts: Seq<Account>,
    bals: Seq<u64>,
    from: Seq<u8>,
    to: Seq<u8>,
    amount: u64,
) -> Seq<u64> {
    let fi = crate::accounts::find_account(accounts, from);
    let ti = crate::accounts::find_account(accounts, to);
    if crate::accounts::has_account(accounts, from) && crate::accounts::has_account(accounts, to)
        && from != to && amount <= bals[fi] && bals[ti] + amount <= u64::MAX {
        bals.update(fi, (bals[fi] - amount) as u64).update(ti, (bals[ti] + amount) as u64)
    } else {
        bals
    }
}

/// The balances after one block transaction is applied: a verified
/// transfer moves its amount; every other kind leaves the balances alone.
pub open spec fn apply_txn_bals(accounts: Seq<Account>, bals: Seq<u64>, t: Transaction) -> Seq<
    u64,
> {
    if crate::transaction::txn_valid_spec(t) && t.txn_type == TransactionType::TRANSACTION {
        transfer_bals(accounts, bals, t.sender.address@, t.recipient.address@, t.amount)
    } else {
        bals
    }
}

/// The balances after a whole transaction list is applied, in order.
pub open spec fn apply_txns_bals(
    accounts: Seq<Account>,
    bals: Seq<u64>,
    txns: Seq<Transaction>,
) -> Seq<u64>
    decreases txns.len(),
{
    if txns.len() == 0 {
        bals
    } else {
        apply_txn_bals(accounts, apply_txns_bals(accounts, bals, txns.drop_last()), txns.last())
    }
}

/// Stake transactions waiting for the next epoch boundary.
pub struct Buffer {
    pub accounts: Vec<Account>,
    pub txns: Vec<Transaction>,
}

impl Buffer {
    pub fn new() -> (b: Buffer)
        ensures
            b.accounts@.len() == 0,
            b.txns@.len() == 0,
    {
        Buffer { accounts: Vec::new(), txns: Vec::new() }
    }

    pub fn reset(&mut self)
        ensures
            final(self).accounts@.len() == 0,
            final(self).txns@.len() == 0,
    {
        self.accounts.clear();
        self.txns.clear();
    }
}

/// The node's whole consensus state.
pub struct Blockchain {
    pub chain: Vec<Block>,
    pub mempool: Mempool,
    pub wallet: Wallet,
    pub state: State,
    pub validator: Validator,
    pub epoch: Epoch,
    pub buffer: Buffer,
    pub hash_chain: HashChain,
    pub pending_signatures: Vec<(u64, Vec<BlockSignature>)>,
    pub last_certificate: Option<(u64, Certificate)>,
}

impl Blockchain {
    pub open spec fn wf(&self) -> bool {
        &&& self.state.wf()
        &&& self.validator.wf()
        &&& self.buffer.accounts@.len() <= self.buffer.txns@.len()
        &&& self.wallet.wf()
    }

    /// Start a chain: the local wallet self-stakes and becomes the first
    /// validator, and its account is funded.
    pub fn new(wallet: Wallet) -> (bc: Blockchain)
        requires
            wallet.wf(),
        ensures
            bc.wf(),
            bc.chain@.len() == 0,
            crate::accounts::has_account(bc.validator.state.accounts@, wallet.address_view()),
            bc.validator.state.balance_of(wallet.address_view()) == STAKING_AMOUNT,
            bc.state.balance_of(wallet.address_view()) == 10000,
    {
        let mut blockchain = Blockchain {
            chain: Vec::new(),
            mempool: Mempool::new(),
            wallet,
            state: State::new(),
            validator: Validator::new(),
            epoch: Epoch::new(),
            buffer: Buffer::new(),
            hash_chain: HashChain::empty(),
            pending_signatures: Vec::new(),
            last_certificate: None,
        };
        let address = blockchain.wallet.get_public_key();
        let account = Account { address };
        let txn = Transaction::new(
            &blockchain.wallet,
            account.duplicate(),
            account.duplicate(),
            STAKING_AMOUNT,
            0,
            TransactionType::STAKE,
        );
        blockchain.validator.add_validator(account.duplicate(), &txn);
        blockchain.fund_wallet(10000);
        blockchain
    }

    /// Elect the proposer for a seed over the current validator set.
    pub fn select_block_proposer(&self, seed: &Seed) -> (r: Option<Account>)
        requires
            self.wf(),
        ensures
            match r {
                Some(a) => self.validator.state.accounts@.len() > 0 && a.address@
                    == self.validator.state.accounts@[crate::utils::winner_upto(
                    seed.seed@,
                    self.validator,
                    self.validator.state.accounts@.len() as int,
                )].address@,
                None => self.validator.state.accounts@.len() == 0,
            },
    {
        select_block_proposer(seed, &self.validator)
    }

    /// The epoch seed from the current commitments.
    pub fn new_epoch(&self) -> (s: Seed)
        ensures
            s.wf(),
            s.seed@ == crate::utils::epoch_seed_spec(crate::utils::coms_view(self.validator)),
    {
        Seed::new_epoch_seed(&self.validator)
    }

    /// Apply a verified transfer to the balance state.
    fn execute_transaction(&mut self, transaction: &Transaction)
        requires
            old(self).wf(),
        ensures
            final(self).wf(),
            final(self).chain@ == old(self).chain@,
            final(self).state.accounts@ == old(self).state.accounts@,
            final(self).state.balances@ == (if crate::transaction::txn_valid_spec(*transaction) {
                transfer_bals(
                    old(self).state.accounts@,
                    old(self).state.balances@,
                    transaction.sender.address@,
                    transaction.recipient.address@,
                    transaction.amount,
                )
            } else {
                old(self).state.balances@
            }),
            final(self).buffer.accounts@ == old(self).buffer.accounts@,
            final(self).buffer.txns@ == old(self).buffer.txns@,
            final(self).mempool.transactions@ == old(self).mempool.transactions@,
            final(self).validator == old(self).validator,
            final(self).epoch == old(self).epoch,
            final(self).wallet == old(self).wallet,
            final(self).pending_signatures@ == old(self).pending_signatures@,
            final(self).last_certificate == old(self).last_certificate,
    {
        if transaction.verify() {
            let ghost from = transaction.sender.address@;
            let ghost to = transaction.recipient.address@;
            let r = self.state.transfer(
                &transaction.sender,
                &transaction.recipient,
                transaction.amount,
            );
            proof {
                crate::accounts::lemma_find_account(old(self).state.accounts@, from);
                crate::accounts::lemma_find_account(old(self).state.accounts@, to);
            }
        }
    }

    /// Buffer a verified stake until the epoch boundary.
    fn handle_stake(&mut self, transaction: &Transaction)
        requires
            old(self).wf(),
        ensures
            final(self).wf(),
            final(self).chain@ == old(self).chain@,
            final(self).state == old(self).state,
            final(self).mempool.transactions@ == old(self).mempool.transactions@,
            final(self).validator == old(self).validator,
            final(self).epoch == old(self).epoch,
            final(self).wallet == old(self).wallet,
            final(self).pending_signatures@ == old(self).pending_signatures@,
            final(self).last_certificate == old(self).last_certificate,
            crate::transaction::txn_valid_spec(*transaction) ==> final(self).buffer.accounts@.len()
                == old(self).buffer.accounts@.len() + 1 && final(self).buffer.accounts@.take(
                old(self).buffer.accounts@.len() as int,
            ) == old(self).buffer.accounts@ && final(self).buffer.accounts@.last().address@
                == transaction.sender.address@ && final(self).buffer.txns@.len() == old(
                self,
            ).buffer.txns@.len() + 1 && final(self).buffer.txns@.take(
                old(self).buffer.txns@.len() as int,
            ) == old(self).buffer.txns@ && crate::transaction::txn_matches(
                final(self).buffer.txns@.last(),
                *transaction,
            ),
            !crate::transaction::txn_valid_spec(*transaction) ==> final(self).buffer.accounts@
                == old(self).buffer.accounts@ && final(self).buffer.txns@ == old(
                self,
            ).buffer.txns@,
    {
        if transaction.verify() {
            self.buffer.accounts.push(transaction.sender.duplicate());
            self.buffer.txns.push(transaction.duplicate());
            proof {
                assert(self.buffer.accounts@.take(old(self).buffer.accounts@.len() as int)
                    =~= old(self).buffer.accounts@);
                assert(self.buffer.txns@.take(old(self).buffer.txns@.len() as int) =~= old(
                    self,
                ).buffer.txns@);
            }
        }
    }

    /// Dispatch a transaction by its kind.
    fn handle_transaction(&mut self, transaction: &Transaction)
        requires
            old(self).wf(),
        ensures
            final(self).wf(),
            final(self).chain@ == old(self).chain@,
            final(self).state.accounts@ == old(self).state.accounts@,
            final(self).state.balances@ == apply_txn_bals(
                old(self).state.accounts@,
                old(self).state.balances@,
                *transaction,
            ),
            final(self).mempool.transactions@ == old(self).mempool.transactions@,
            final(self).validator == old(self).validator,
            final(self).epoch == old(self).epoch,
            final(self).wallet == old(self).wallet,
            final(self).pending_signatures@ == old(self).pending_signatures@,
            final(self).last_certificate == old(self).last_certificate,
            final(self).buffer.accounts@.take(old(self).buffer.accounts@.len() as int) == old(
                self,
            ).buffer.accounts@,
            final(self).buffer.txns@.take(old(self).buffer.txns@.len() as int) == old(
                self,
            ).buffer.txns@,
            final(self).buffer.accounts@.len() >= old(self).buffer.accounts@.len(),
            final(self).buffer.txns@.len() >= old(self).buffer.txns@.len(),
    {
        proof {
            assert(old(self).buffer.accounts@.take(old(self).buffer.accounts@.len() as int)
                =~= old(self).buffer.accounts@);
            assert(old(self).buffer.txns@.take(old(self).buffer.txns@.len() as int) =~= old(
                self,
            ).buffer.txns@);
        }
        if transaction.txn_type == TransactionType::TRANSACTION {
            self.execute_transaction(transaction);
        } else if transaction.txn_type == TransactionType::STAKE {
            self.handle_stake(transaction);
        }
    }

    /// Epoch boundary: credit the buffered stakes, clear the buffer and
    /// restart the slot counter.
    pub fn end_of_epoch(&mut self)
        requires
            old(self).wf(),
        ensures
            final(self).wf(),
            final(self).epoch.timestamp == 0,
            final(self).buffer.accounts@.len() == 0,
            final(self).buffer.txns@.len() == 0,
            final(self).chain@ == old(self).chain@,
            forall|i: int|
                0 <= i < old(self).buffer.accounts@.len() ==> crate::accounts::has_account(
                    final(self).validator.state.accounts@,
                    (#[trigger] old(self).buffer.accounts@[i]).address@,
                ),
            forall|i: int|
                0 <= i < old(self).buffer.accounts@.len() ==> (crate::validator::buffered_stake_credited(
                    old(self).buffer.accounts@,
                    old(self).buffer.txns@,
                    i,
                ) ==> final(self).validator.state.balance_of(
                    old(self).buffer.accounts@[i].address@,
                ) == old(self).buffer.txns@[i].amount),
    {
        self.validator.apply_buffer(&self.buffer.accounts, &self.buffer.txns);
        self.buffer.reset();
        self.epoch.reset();
    }

    /// The seed for the next slot: fold the last block's reveal into its
    /// seed, or derive a fresh epoch seed on an empty chain.
    pub fn get_next_seed(&self) -> (s: Seed)
        requires
            self.wf(),
        ensures
            s.wf(),
            self.chain@.len() > 0 ==> s.seed@ == crate::utils::block_seed_spec(
                self.chain@.last().proposer_hash@,
                self.chain@.last().seed.seed@,
            ) || self.chain@.last().seed.seed@.len() != 32,
            self.chain@.len() == 0 ==> s.seed@ == crate::utils::epoch_seed_spec(
                crate::utils::coms_view(self.validator),
            ),
    {
        if self.chain.len() > 0 {
            let latest = &self.chain[self.chain.len() - 1];
            if latest.seed.seed.len() == 32 {
                get_block_seed(&latest.proposer_hash, &latest.seed)
            } else {
                Seed::new_epoch_seed(&self.validator)
            }
        } else {
            Seed::new_epoch_seed(&self.validator)
        }
    }

    /// Propose a block, attaching the stored certificate when it belongs
    /// to the immediately preceding block.
    pub fn propose_block(
        &mut self,
        proposer_hash: Vec<u8>,
        proposer_address: Account,
        txns: Vec<Transaction>,
        seed: Seed,
    ) -> (b: Block)
        requires
            old(self).wf(),
        ensures
            final(self).wf(),
            b.hash_ok(),
            old(self).chain@.len() == 0 ==> b.id == 1,
            old(self).chain@.len() > 0 && old(self).chain@.last().id < u64::MAX ==> b.id == old(
                self,
            ).chain@.last().id + 1 && b.previous_hash@ == old(self).chain@.last().hash@,
            b.certificate is Some <==> (old(self).last_certificate matches Some((k, _)) && k == (
            if old(self).chain@.len() == 0 {
                0u64
            } else {
                old(self).chain@.last().id
            })),
            final(self).last_certificate is None || (final(self).last_certificate matches Some(
                (k, _),
            ) && k == b.id),
    {
        let cert_to_attach: Option<Certificate> = match self.last_certificate.take() {
            Some((cert_block_id, cert)) => {
                let last_block_id: u64 = if self.chain.len() > 0 {
                    self.chain[self.chain.len() - 1].id
                } else {
                    0
                };
                if cert_block_id == last_block_id {
                    Some(cert)
                } else {
                    None
                }
            },
            None => None,
        };
        self.propose_block_with_certificate(proposer_hash, proposer_address, txns, seed, cert_to_attach)
    }

    /// Assemble the next block, sign its hash locally and feed the
    /// signature into collection.
    pub fn propose_block_with_certificate(
        &mut self,
        proposer_hash: Vec<u8>,
        proposer_address: Account,
        txns: Vec<Transaction>,
        seed: Seed,
        certificate: Option<Certificate>,
    ) -> (b: Block)
        requires
            old(self).wf(),
        ensures
            final(self).wf(),
            b.hash_ok(),
            old(self).chain@.len() == 0 ==> b.id == 1,
            old(self).chain@.len() > 0 && old(self).chain@.last().id < u64::MAX ==> b.id == old(
                self,
            ).chain@.last().id + 1 && b.previous_hash@ == old(self).chain@.last().hash@,
            b.certificate is Some <==> certificate is Some,
            final(self).last_certificate == old(self).last_certificate || (
            final(self).last_certificate matches Some((k, _)) && k == b.id),
    {
        let block = if self.chain.len() == 0 {
            let mut zero_prev: Vec<u8> = Vec::new();
            let mut i: usize = 0;
            while i < 32
                invariant
                    i <= 32,
                decreases 32 - i,
            {
                zero_prev.push(0);
                i = i + 1;
            }
            Block::new(
                1,
                zero_prev,
                self.epoch.timestamp,
                Vec::new(),
                proposer_address,
                proposer_hash,
                seed,
                certificate,
            )
        } else {
            let latest = &self.chain[self.chain.len() - 1];
            let next_id = if latest.id < u64::MAX {
                latest.id + 1
            } else {
                latest.id
            };
            Block::new(
                next_id,
                bytes_clone(&latest.hash),
                latest.timestamp,
                txns,
                proposer_address,
                proposer_hash,
                seed,
                certificate,
            )
        };
        let block_hash_hex = hex_encode(&block.hash);
        let local_pub = self.wallet.get_public_key();
        let signature = self.wallet.sign_message(&block_hash_hex);
        let block_sig = BlockSignature {
            block_id: block.id,
            block_hash: block_hash_hex,
            sender: Account { address: local_pub },
            signature,
        };
        self.collect_block_signature(block_sig);
        block
    }

    /// Verify a block: genesis is admitted, any other block must extend
    /// the chain head and carry a reveal matching the proposer's
    /// commitment at the current slot.
    pub fn verify_block(&self, block: &Block) -> (r: bool)
        requires
            self.wf(),
            self.epoch.timestamp <= EPOCH_DURATION,
        ensures
            r == block_verifies(*self, *block),
    {
        if block.id == 1 {
            return true;
        }
        if self.chain.len() == 0 {
            return false;
        }
        let previous_block = &self.chain[self.chain.len() - 1];
        if !bytes_eq(&block.previous_hash, &previous_block.hash) {
            return false;
        }
        let commitment = match self.validator.get_validator_commitment(&block.proposer_address) {
            Some(c) => c,
            None => {
                return false;
            },
        };
        verify_hash_chain_index(
            &commitment.hash_chain_index,
            self.epoch.timestamp,
            &block.proposer_hash,
        )
    }

    /// Execute a block: apply its verified transactions to the balance
    /// state, drop its transactions from the mempool, and append it to
    /// the chain.
    #[verifier::rlimit(100)]
    pub fn execute_block(&mut self, block: Block)
        requires
            old(self).wf(),
        ensures
            final(self).wf(),
            final(self).chain@ == old(self).chain@ + seq![block],
            final(self).state.accounts@ == old(self).state.accounts@,
            final(self).state.balances@ == apply_txns_bals(
                old(self).state.accounts@,
                old(self).state.balances@,
                block.txn@,
            ),
            final(self).mempool.transactions@ == old(self).mempool.transactions@.filter(
                |t: Transaction| !in_block(block.txn@, t.hash@),
            ),
            final(self).validator == old(self).validator,
            final(self).epoch == old(self).epoch,
            final(self).wallet == old(self).wallet,
            final(self).pending_signatures@ == old(self).pending_signatures@,
            final(self).last_certificate == old(self).last_certificate,
            final(self).buffer.accounts@.take(old(self).buffer.accounts@.len() as int) == old(
                self,
            ).buffer.accounts@,
            final(self).buffer.txns@.take(old(self).buffer.txns@.len() as int) == old(
                self,
            ).buffer.txns@,
    {
        let ghost acc0 = self.state.accounts@;
        let ghost bals0 = self.state.balances@;
        let ghost buf_acc0 = self.buffer.accounts@;
        let ghost buf_txn0 = self.buffer.txns@;
        proof {
            assert(buf_acc0.take(buf_acc0.len() as int) =~= buf_acc0);
            assert(buf_txn0.take(buf_txn0.len() as int) =~= buf_txn0);
            assert(block.txn@.take(0) =~= Seq::<Transaction>::empty());
        }
        let mut i: usize = 0;
        #[verifier::loop_isolation(false)]
        while i < block.txn.len()
            invariant
                self.wf(),
                i <= block.txn@.len(),
                self.chain@ == old(self).chain@,
                self.state.accounts@ == acc0,
                self.state.balances@ == apply_txns_bals(acc0, bals0, block.txn@.take(i as int)),
                self.mempool.transactions@ == old(self).mempool.transactions@,
                self.validator == old(self).validator,
                self.epoch == old(self).epoch,
                self.wallet == old(self).wallet,
                self.pending_signatures@ == old(self).pending_signatures@,
                self.last_certificate == old(self).last_certificate,
                self.buffer.accounts@.take(buf_acc0.len() as int) == buf_acc0,
                self.buffer.txns@.take(buf_txn0.len() as int) == buf_txn0,
                self.buffer.accounts@.len() >= buf_acc0.len(),
                self.buffer.txns@.len() >= buf_txn0.len(),
            decreases block.txn@.len() - i,
        {
            let ghost pre_bals = self.state.balances@;
            let ghost pre_buf_acc = self.buffer.accounts@;
            let ghost pre_buf_txn = self.buffer.txns@;
            if block.txn[i].verify() {
                let txn = block.txn[i].duplicate();
                self.handle_transaction(&txn);
                proof {
                    assert(apply_txn_bals(acc0, pre_bals, txn) == apply_txn_bals(
                        acc0,
                        pre_bals,
                        block.txn@[i as int],
                    ));
                    assert(self.buffer.accounts@.take(buf_acc0.len() as int)
                        =~= pre_buf_acc.take(buf_acc0.len() as int));
                    assert(self.buffer.txns@.take(buf_txn0.len() as int) =~= pre_buf_txn.take(
                        buf_txn0.len() as int,
                    ));
                }
            } else {
                proof {
                    assert(apply_txn_bals(acc0, pre_bals, block.txn@[i as int]) == pre_bals);
                }
            }
            proof {
                assert(block.txn@.take(i + 1).drop_last() =~= block.txn@.take(i as int));
                assert(block.txn@.take(i + 1).last() == block.txn@[i as int]);
            }
            i = i + 1;
        }
        proof {
            assert(block.txn@.take(block.txn@.len() as int) =~= block.txn@);
        }
        let ghost pool0 = self.mempool.transactions@;
        let ghost old_loop_state = self.state;
        let ghost old_loop_buf_acc = self.buffer.accounts@;
        let ghost old_loop_buf_txn = self.buffer.txns@;
        proof {
            assert(block.txn@.take(0) =~= Seq::<Transaction>::empty());
            assert(pool0.filter(
                |t: Transaction| !in_block(block.txn@.take(0), t.hash@),
            ) =~= pool0) by {
                reveal(Seq::<_>::filter);
                crate::mempool::lemma_filter_none(pool0, |t: Transaction| !in_block(block.txn@.take(0), t.hash@));
            }
        }
        let mut j: usize = 0;
        #[verifier::loop_isolation(false)]
        while j < block.txn.len()
            invariant
                j <= block.txn@.len(),
                self.wf(),
                self.chain@ == old(self).chain@,
                self.state == old_loop_state,
                self.validator == old(self).validator,
                self.epoch == old(self).epoch,
                self.wallet == old(self).wallet,
                self.pending_signatures@ == old(self).pending_signatures@,
                self.last_certificate == old(self).last_certificate,
                self.buffer.accounts@ == old_loop_buf_acc,
                self.buffer.txns@ == old_loop_buf_txn,
                self.mempool.transactions@ == pool0.filter(
                    |t: Transaction| !in_block(block.txn@.take(j as int), t.hash@),
                ),
            decreases block.txn@.len() - j,
        {
            let ghost fj = |t: Transaction| !in_block(block.txn@.take(j as int), t.hash@);
            let txn = block.txn[j].duplicate();
            let ghost g = |t: Transaction| t.hash@ != txn.hash@;
            self.mempool.delete_transaction(&txn);
            proof {
                crate::mempool::lemma_filter_filter(pool0, fj, g);
                let fj1 = |t: Transaction| !in_block(block.txn@.take(j + 1), t.hash@);
                assert forall|t: Transaction| #[trigger] fj1(t) == (fj(t) && g(t)) by {
                    if in_block(block.txn@.take(j + 1), t.hash@) {
                        let w = choose|w: int|
                            0 <= w < block.txn@.take(j + 1).len() && (#[trigger] block.txn@.take(
                                j + 1,
                            )[w]).hash@ == t.hash@;
                        if w < j {
                            assert((#[trigger] block.txn@.take(j as int)[w]).hash@ == t.hash@);
                        } else {
                            assert(block.txn@.take(j + 1)[w] == block.txn@[j as int]);
                        }
                    }
                    if in_block(block.txn@.take(j as int), t.hash@) {
                        let w = choose|w: int|
                            0 <= w < block.txn@.take(j as int).len() && (
                            #[trigger] block.txn@.take(j as int)[w]).hash@ == t.hash@;
                        assert((#[trigger] block.txn@.take(j + 1)[w]).hash@ == t.hash@);
                    }
                    if t.hash@ == txn.hash@ {
                        assert((#[trigger] block.txn@.take(j + 1)[j as int]).hash@ == t.hash@);
                    }
                }
                assert((|t: Transaction| fj(t) && g(t)) =~= fj1);
                assert(self.mempool.transactions@ == pool0.filter(fj1));
            }
            j = j + 1;
        }
        proof {
            assert(block.txn@.take(block.txn@.len() as int) =~= block.txn@);
            let ffin = |t: Transaction| !in_block(block.txn@.take(block.txn@.len() as int), t.hash@);
            let fall = |t: Transaction| !in_block(block.txn@, t.hash@);
            assert(ffin =~= fall);
        }
        self.chain.push(block);
    }

    /// The current validator set.
    pub fn get_validators(&self) -> (r: &Validator)
        ensures
            r == self.validator,
    {
        &self.validator
    }

    /// Whether a block with the same id is already on the chain.
    pub fn block_exists(&self, block: &Block) -> (r: bool)
        ensures
            r == exists|i: int|
                0 <= i < self.chain@.len() && (#[trigger] self.chain@[i]).id == block.id,
    {
        let mut i: usize = 0;
        while i < self.chain.len()
            invariant
                i <= self.chain@.len(),
                forall|k: int| 0 <= k < i ==> (#[trigger] self.chain@[k]).id != block.id,
            decreases self.chain@.len() - i,
        {
            if self.chain[i].id == block.id {
                return true;
            }
            i = i + 1;
        }
        false
    }

    /// The id of the chain head; 1 on an empty chain.
    pub fn get_latest_block_id(&self) -> (r: u64)
        ensures
            self.chain@.len() == 0 ==> r == 1,
            self.chain@.len() > 0 ==> r == self.chain@.last().id,
    {
        if self.chain.len() == 0 {
            1
        } else {
            self.chain[self.chain.len() - 1].id
        }
    }

    /// Set the local wallet's balance.
    pub fn fund_wallet(&mut self, amount: u64)
        requires
            old(self).wf(),
        ensures
            final(self).wf(),
            final(self).chain@ == old(self).chain@,
            final(self).wallet == old(self).wallet,
            final(self).validator == old(self).validator,
            crate::accounts::has_account(
                final(self).state.accounts@,
                old(self).wallet.address_view(),
            ),
            final(self).state.balance_of(old(self).wallet.address_view()) == amount,
    {
        let address = self.wallet.get_public_key();
        let account = Account { address };
        self.state.add_account(account.duplicate());
        let ok = self.state.set_balance(&account, amount);
        proof {
            assert(ok);
            crate::accounts::lemma_find_account(self.state.accounts@, account.address@);
        }
    }

    /// Whether a signature from `addr` is already recorded for block
    /// `id`.
    pub(crate) fn has_sig_for(&self, id: u64, addr: &Vec<u8>) -> (r: bool)
        ensures
            r == has_pending_sig(self.pending_signatures@, id, addr@),
    {
        let mut e: usize = 0;
        while e < self.pending_signatures.len()
            invariant
                e <= self.pending_signatures@.len(),
                forall|k: int|
                    0 <= k < e && (#[trigger] self.pending_signatures@[k]).0 == id
                        ==> !entry_has_sender(self.pending_signatures@[k].1@, addr@),
            decreases self.pending_signatures@.len() - e,
        {
            if self.pending_signatures[e].0 == id {
                let mut s: usize = 0;
                while s < self.pending_signatures[e].1.len()
                    invariant
                        e < self.pending_signatures@.len(),
                        self.pending_signatures@[e as int].0 == id,
                        s <= self.pending_signatures@[e as int].1@.len(),
                        forall|k: int|
                            0 <= k < s ==> (
                            #[trigger] self.pending_signatures@[e as int].1@[k]).sender.address@
                                != addr@,
                    decreases self.pending_signatures@[e as int].1@.len() - s,
                {
                    if self.pending_signatures[e].1[s].sender.same_address(
                        &Account { address: crate::bytesutil::bytes_clone(addr) },
                    ) {
                        proof {
                            assert(entry_has_sender(
                                self.pending_signatures@[e as int].1@,
                                addr@,
                            ));
                            assert((#[trigger] self.pending_signatures@[e as int]).0 == id);
                        }
                        return true;
                    }
                    s = s + 1;
                }
            }
            e = e + 1;
        }
        proof {
            if has_pending_sig(self.pending_signatures@, id, addr@) {
                let w = choose|w: int|
                    0 <= w < self.pending_signatures@.len() && (
                    #[trigger] self.pending_signatures@[w]).0 == id && entry_has_sender(
                        self.pending_signatures@[w].1@,
                        addr@,
                    );
                assert(false);
            }
        }
        false
    }

    /// The index of the pending-signature entry for a block id, if any.
    fn find_pending(&self, block_id: u64) -> (r: Option<usize>)
        ensures
            match r {
                Some(i) => i < self.pending_signatures@.len()
                    && self.pending_signatures@[i as int].0 == block_id && forall|k: int|
                    0 <= k < i ==> (#[trigger] self.pending_signatures@[k]).0 != block_id,
                None => forall|k: int|
                    0 <= k < self.pending_signatures@.len() ==> (
                    #[trigger] self.pending_signatures@[k]).0 != block_id,
            },
    {
        let mut i: usize = 0;
        while i < self.pending_signatures.len()
            invariant
                i <= self.pending_signatures@.len(),
                forall|k: int|
                    0 <= k < i ==> (#[trigger] self.pending_signatures@[k]).0 != block_id,
            decreases self.pending_signatures@.len() - i,
        {
            if self.pending_signatures[i].0 == block_id {
                return Some(i);
            }
            i = i + 1;
        }
        None
    }

    /// Record an inbound block signature; once every validator has
    /// signed, take the collected signatures, build the compact
    /// certificate over the full stake, and store it for attachment to
    /// the next block.
    #[verifier::rlimit(100)]
    pub fn collect_block_signature(&mut self, block_sig: BlockSignature)
        requires
            old(self).wf(),
        ensures
            final(self).wf(),
            final(self).chain@ == old(self).chain@,
            final(self).validator == old(self).validator,
            final(self).state == old(self).state,
            final(self).epoch == old(self).epoch,
            final(self).wallet == old(self).wallet,
            final(self).mempool.transactions@ == old(self).mempool.transactions@,
            final(self).buffer.accounts@ == old(self).buffer.accounts@,
            final(self).buffer.txns@ == old(self).buffer.txns@,
            pending_count_after(old(self).pending_signatures@, block_sig) < old(
                self,
            ).validator.state.accounts@.len() ==> final(self).last_certificate == old(
                self,
            ).last_certificate && has_pending_sig(
                final(self).pending_signatures@,
                block_sig.block_id,
                block_sig.sender.address@,
            ),
            final(self).last_certificate != old(self).last_certificate ==> (
            final(self).last_certificate matches Some((id2, cert)) && id2 == block_sig.block_id
                && pending_count_after(old(self).pending_signatures@, block_sig) >= old(
                self,
            ).validator.state.accounts@.len() && certificate_snapshot_built(
                old(self).validator,
                entry_first_hash(old(self).pending_signatures@, block_sig),
                cert,
            )),
    {
        let ghost old_pending = self.pending_signatures@;
        let ghost sender_addr = block_sig.sender.address@;
        let ghost id = block_sig.block_id;
        let expected = self.validator.state.accounts.len();
        let block_id = block_sig.block_id;
        let mut entry: (u64, Vec<BlockSignature>) = match self.find_pending(block_id) {
            Some(i) => {
                proof {
                    lemma_pending_first(old_pending, block_id, i as int);
                }
                self.pending_signatures.remove(i)
            },
            None => (block_id, Vec::new()),
        };
        let ghost entry_sigs = entry.1@;
        let mut known = false;
        let mut s: usize = 0;
        #[verifier::loop_isolation(false)]
        while s < entry.1.len()
            invariant
                s <= entry.1@.len(),
                entry.1@ == entry_sigs,
                known == exists|t: int|
                    0 <= t < s && (#[trigger] entry_sigs[t]).sender.address@ == sender_addr,
            decreases entry.1@.len() - s,
        {
            if entry.1[s].sender.same_address(&block_sig.sender) {
                known = true;
                proof {
                    assert((#[trigger] entry_sigs[s as int]).sender.address@ == sender_addr);
                }
            }
            s = s + 1;
        }
        proof {
            assert(known == entry_has_sender(entry_sigs, sender_addr));
        }
        if !known {
            entry.1.push(block_sig);
        }
        let count = entry.1.len();
        proof {
            assert(count as int == pending_count_after(old_pending, block_sig));
        }
        if count >= expected {
            // Every validator has signed: the collected signatures leave
            // the pending map and become the certificate.
            let collected = entry;
            let block_hash = bytes_clone(&collected.1[0].block_hash);
            proof {
                assert(block_hash@ == entry_first_hash(old_pending, block_sig));
            }
            // Snapshot the participants in validator order; the proven
            // weight is the whole stake.
            let mut participants: Vec<Participant> = Vec::new();
            let mut proven_weight: u64 = 0;
            let mut v: usize = 0;
            #[verifier::loop_isolation(false)]
            while v < self.validator.state.accounts.len()
                invariant
                    v <= self.validator.state.accounts@.len(),
                    participants@.len() == v,
                    forall|j: int|
                        0 <= j < v ==> (#[trigger] participants@[j]).public_key@
                            == self.validator.state.accounts@[j].address@
                            && participants@[j].weight as int == self.validator.state.balance_of(
                            self.validator.state.accounts@[j].address@,
                        ),
                    proven_weight as int == snapshot_stake_sum(self.validator, v as int),
                decreases self.validator.state.accounts@.len() - v,
            {
                let account = self.validator.state.accounts[v].duplicate();
                let weight = self.validator.state.get_balance(&account);
                if weight <= u64::MAX - proven_weight {
                    proven_weight = proven_weight + weight;
                }
                participants.push(
                    Participant { public_key: bytes_clone(&account.address), weight },
                );
                v = v + 1;
            }
            proof {
                assert(participants_match_snapshot(participants@, self.validator));
            }
            let params = Params {
                msg: bytes_clone(&block_hash),
                proven_weight,
                security_param: 128,
            };
            let mut tree = MerkleTreeBuilder::new();
            let enc = crate::ccok::encode_participants(&participants);
            tree.build(&enc);
            let party_tree_root = tree.root();
            let mut builder = CertBuilder::new(params, participants, party_tree_root);
            let mut c: usize = 0;
            #[verifier::loop_isolation(false)]
            while c < collected.1.len()
                invariant
                    builder.wf(),
                    builder.params.msg@ == block_hash@,
                    builder.params.proven_weight == proven_weight,
                    builder.params.security_param == 128,
                    builder.participants@ == participants@,
                    builder.party_tree_root@ == party_tree_root@,
                decreases collected.1@.len() - c,
            {
                let sig_entry = &collected.1[c];
                let mut p: usize = 0;
                let mut found: Option<usize> = None;
                #[verifier::loop_isolation(false)]
                while p < builder.participants.len()
                    invariant
                        p <= builder.participants@.len(),
                        match found {
                            Some(f) => f < builder.participants@.len(),
                            None => true,
                        },
                    decreases builder.participants@.len() - p,
                {
                    if found.is_none() && bytes_eq(
                        &builder.participants[p].public_key,
                        &sig_entry.sender.address,
                    ) {
                        found = Some(p);
                    }
                    p = p + 1;
                }
                match found {
                    Some(idx) => {
                        if sig_entry.signature.len() == crate::crypto::DILITHIUM_SIG_LEN {
                            let sig = bytes_clone(&sig_entry.signature);
                            let sw = builder.signed_weight;
                            let w = builder.participants[idx].weight;
                            let acc_ok = if idx > 0 {
                                builder.sigs[idx - 1].accumulated_weight
                                    <= u64::MAX - builder.participants[idx - 1].weight
                            } else {
                                true
                            };
                            if sw <= u64::MAX - w && acc_ok {
                                let _ = builder.add_signature(idx, sig);
                            }
                        }
                    },
                    None => {},
                }
                c = c + 1;
            }
            if builder.params.proven_weight > 0 || builder.signed_weight > 0 {
                match builder.build() {
                    Ok(certificate) => {
                        proof {
                            assert(certificate_snapshot_built(
                                self.validator,
                                block_hash@,
                                certificate,
                            )) by {
                                assert(crate::ccok::built_rel(builder, certificate));
                            }
                        }
                        self.last_certificate = Some((block_id, certificate));
                    },
                    Err(_) => {},
                }
            }
        } else {
            let ghost pre_push = self.pending_signatures@;
            self.pending_signatures.push(entry);
            proof {
                let n = self.pending_signatures@.len() - 1;
                assert((#[trigger] self.pending_signatures@[n]).0 == id);
                if known {
                    let t = choose|t: int|
                        0 <= t < entry_sigs.len() && (#[trigger] entry_sigs[t]).sender.address@
                            == sender_addr;
                    assert((#[trigger] self.pending_signatures@[n].1@[t]).sender.address@
                        == sender_addr);
                } else {
                    let t = self.pending_signatures@[n].1@.len() - 1;
                    assert((#[trigger] self.pending_signatures@[n].1@[t]).sender.address@
                        == sender_addr);
                }
                assert(entry_has_sender(self.pending_signatures@[n].1@, sender_addr));
                assert(has_pending_sig(self.pending_signatures@, id, sender_addr));
            }
        }
    }
}

} // verus!
