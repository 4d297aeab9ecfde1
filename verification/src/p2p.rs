//! Inbound consensus messages and the dispatch decisions they trigger.
//!
//! The gossip transport and the wire codecs live outside the library;
//! decoded messages arrive here as plain values, and the handler applies
//! them to the blockchain state, returning the action the node must
//! publish in response.

use vstd::prelude::*;

use crate::accounts::Account;
use crate::block::Block;
use crate::blockchain::Blockchain;
use crate::genesis::Genesis;
use crate::hashchain::verify_hash_chain_index;
use crate::hashchain::HashChainCom;
use crate::hashchain::HashChainMessage;
use crate::hexstr::hex_encode;
use crate::hexstr::hex_seq;
use crate::config::EPOCH_DURATION;
use crate::transaction::Transaction;

verus! {

/// A reveal message is accepted: its sender has a stored commitment, the
/// slot is inside the epoch, and hashing the decoded reveal that many
/// times reproduces the commitment.
pub open spec fn reveal_accepted(bc: Blockchain, m: HashChainMessage) -> bool {
    &&& crate::validator::has_com(bc.validator.hash_chain_com@, m.sender.address@)
    &&& m.epoch <= EPOCH_DURATION
    &&& crate::hexstr::valid_hex(m.hash@)
    &&& hex_seq(crate::hashchain::iter_sha3(crate::hexstr::hex_parse(m.hash@), m.epoch as nat))
        == crate::validator::com_of(bc.validator.hash_chain_com@, m.sender.address@)
}

/// A validator's signature over a block hash.
pub struct BlockSignature {
    pub block_id: u64,
    pub block_hash: Vec<u8>,
    pub sender: Account,
    pub signature: Vec<u8>,
}

/// A decoded inbound consensus message.
pub enum NodeMessage {
    GenesisMsg(Genesis),
    Txn(Transaction),
    BlockMsg(Block),
    Com(HashChainCom),
    RevealMsg(HashChainMessage),
    BlockSig(BlockSignature),
}

/// What the node must publish after handling a message.
pub enum NodeAction {
    /// Relay a freshly admitted transaction.
    RelayTransaction(Transaction),
    /// Publish the local signature over an executed block.
    PublishSignature(BlockSignature),
    /// Nothing to publish.
    Quiet,
}

/// Dispatch one inbound message to the driver: a genesis stake admits a
/// validator; a fresh valid transaction enters the mempool and is
/// relayed; a verified new block is executed and the slot advances, with
/// the local signature published when the node has not signed yet; a
/// commitment is stored; a verified reveal is recorded; a block
/// signature goes to collection. The epoch counter never leaves the
/// epoch.
#[verifier::rlimit(100)]
pub fn handle_message(bc: &mut Blockchain, msg: NodeMessage) -> (action: NodeAction)
    requires
        old(bc).wf(),
        old(bc).epoch.timestamp <= EPOCH_DURATION,
    ensures
        final(bc).wf(),
        final(bc).epoch.timestamp <= EPOCH_DURATION,
        match msg {
            NodeMessage::GenesisMsg(g) => {
                &&& final(bc).chain@ == old(bc).chain@
                &&& crate::accounts::has_account(
                    final(bc).validator.state.accounts@,
                    g.stake_txn.recipient.address@,
                )
                &&& (g.stake_txn.txn_type == crate::transaction::TransactionType::STAKE
                    && g.stake_txn.amount >= crate::config::STAKING_AMOUNT ==> final(bc).validator.state.balance_of(g.stake_txn.recipient.address@)
                    == g.stake_txn.amount)
                &&& action is Quiet
            },
            NodeMessage::Txn(t) => {
                &&& final(bc).chain@ == old(bc).chain@
                &&& (crate::transaction::txn_valid_spec(t) && !(exists|k: int|
                    0 <= k < old(bc).mempool.transactions@.len() && (#[trigger] old(bc).mempool.transactions@[k]).hash@ == t.hash@) ==> final(bc).mempool.transactions@ == old(bc).mempool.transactions@ + seq![t] && (
                action matches NodeAction::RelayTransaction(c)
                    && crate::transaction::txn_matches(c, t)))
                &&& (!(crate::transaction::txn_valid_spec(t) && !(exists|k: int|
                    0 <= k < old(bc).mempool.transactions@.len() && (#[trigger] old(bc).mempool.transactions@[k]).hash@ == t.hash@)) ==> final(bc).mempool.transactions@ == old(bc).mempool.transactions@ && action is Quiet)
            },
            NodeMessage::BlockMsg(b) => {
                &&& (!crate::blockchain::block_verifies(*old(bc), b) ==> final(bc).chain@ == old(bc).chain@ && action is Quiet)
                &&& (crate::blockchain::block_verifies(*old(bc), b) && !(exists|i: int|
                    0 <= i < old(bc).chain@.len() && (#[trigger] old(bc).chain@[i]).id == b.id)
                    ==> final(bc).chain@ == old(bc).chain@ + seq![b])
                &&& (crate::blockchain::block_verifies(*old(bc), b) && (exists|i: int|
                    0 <= i < old(bc).chain@.len() && (#[trigger] old(bc).chain@[i]).id == b.id)
                    ==> final(bc).chain@ == old(bc).chain@)
                &&& (crate::blockchain::block_verifies(*old(bc), b) ==> ((
                action matches NodeAction::PublishSignature(s)) <==> !crate::blockchain::has_pending_sig(
                    old(bc).pending_signatures@,
                    b.id,
                    old(bc).wallet.address_view(),
                )))
                &&& (action matches NodeAction::PublishSignature(s) ==> s.block_id == b.id
                    && s.block_hash@ == hex_seq(b.hash@) && s.sender.address@ == old(bc).wallet.address_view())
            },
            NodeMessage::Com(c) => {
                &&& final(bc).chain@ == old(bc).chain@
                &&& crate::validator::has_com(
                    final(bc).validator.hash_chain_com@,
                    c.sender.address@,
                )
                &&& action is Quiet
            },
            NodeMessage::RevealMsg(m) => {
                &&& final(bc).chain@ == old(bc).chain@
                &&& action is Quiet
                &&& (reveal_accepted(*old(bc), m) ==> final(bc).validator.next_block_hash@.len()
                    == old(bc).validator.next_block_hash@.len() + 1 && final(bc).validator.next_block_hash@.last().0.address@ == m.sender.address@ && final(bc).validator.next_block_hash@.last().1@ == m.hash@)
                &&& (!reveal_accepted(*old(bc), m) ==> final(bc).validator.next_block_hash@
                    == old(bc).validator.next_block_hash@)
            },
            NodeMessage::BlockSig(s) => {
                &&& final(bc).chain@ == old(bc).chain@
                &&& action is Quiet
                &&& (crate::blockchain::pending_count_after(old(bc).pending_signatures@, s)
                    < old(bc).validator.state.accounts@.len() ==> final(bc).last_certificate
                    == old(bc).last_certificate && crate::blockchain::has_pending_sig(
                    final(bc).pending_signatures@,
                    s.block_id,
                    s.sender.address@,
                ))
            },
        },
{
    match msg {
        NodeMessage::GenesisMsg(genesis) => {
            let account = genesis.stake_txn.recipient.duplicate();
            bc.validator.add_validator(account, &genesis.stake_txn);
            NodeAction::Quiet
        },
        NodeMessage::Txn(txn) => {
            if txn.verify() && !bc.mempool.txn_exists(&txn.hash) {
                let copy = txn.duplicate();
                bc.mempool.add_transaction(txn);
                NodeAction::RelayTransaction(copy)
            } else {
                NodeAction::Quiet
            }
        },
        NodeMessage::BlockMsg(block) => {
            if !bc.verify_block(&block) {
                if bc.epoch.is_end_of_epoch() {
                    bc.end_of_epoch();
                }
                return NodeAction::Quiet;
            }
            let block_id = block.id;
            let block_hash = crate::bytesutil::bytes_clone(&block.hash);
            if !bc.block_exists(&block) {
                bc.execute_block(block);
                if bc.epoch.timestamp < u64::MAX {
                    bc.epoch.progress();
                }
            }
            let local_pub = bc.wallet.get_public_key();
            let already_signed = bc.has_sig_for(block_id, &local_pub);
            let action = if !already_signed {
                let block_hash_hex = hex_encode(&block_hash);
                let signature = bc.wallet.sign_message(&block_hash_hex);
                let block_sig = BlockSignature {
                    block_id,
                    block_hash: block_hash_hex,
                    sender: Account { address: local_pub },
                    signature,
                };
                NodeAction::PublishSignature(block_sig)
            } else {
                NodeAction::Quiet
            };
            if bc.epoch.is_end_of_epoch() {
                bc.end_of_epoch();
            }
            action
        },
        NodeMessage::Com(com) => {
            let account = com.sender.duplicate();
            bc.validator.update_validator_com(account, com);
            NodeAction::Quiet
        },
        NodeMessage::RevealMsg(reveal_msg) => {
            let commitment = match bc.validator.get_validator_commitment(&reveal_msg.sender) {
                Some(c) => c,
                None => {
                    return NodeAction::Quiet;
                },
            };
            if reveal_msg.epoch > EPOCH_DURATION {
                return NodeAction::Quiet;
            }
            if verify_hash_chain_index(
                &commitment.hash_chain_index,
                reveal_msg.epoch,
                &reveal_msg.hash,
            ) {
                bc.validator.next_block_hash.push(
                    (reveal_msg.sender.duplicate(), crate::bytesutil::bytes_clone(&reveal_msg.hash)),
                );
                proof {
                    assert(bc.validator.next_block_hash@.last().0.address@
                        == reveal_msg.sender.address@);
                }
            }
            NodeAction::Quiet
        },
        NodeMessage::BlockSig(block_sig) => {
            bc.collect_block_signature(block_sig);
            NodeAction::Quiet
        },
    }
}

} // verus!
