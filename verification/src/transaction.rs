//! Transactions: the payloads blocks carry and stakes are bound with.
//!
//! The hash of a transaction is the SHA3-256 digest of the canonical
//! encoding `sender || recipient || amount_decimal || timestamp_decimal ||
//! fee_decimal || kind_tag`, where the decimal fields are ASCII digit
//! strings and the kind tag is one distinct byte per transaction kind. The
//! signature is the sender's Dilithium signature over that hash.

use vstd::prelude::*;

use crate::accounts::Account;
use crate::bytesutil::bytes_clone;
use crate::bytesutil::dec_spec;
use crate::bytesutil::u64_to_dec;
use crate::bytesutil::vec_extend;
use crate::crypto::current_millis;
use crate::crypto::dilithium_ok;
use crate::crypto::dilithium_verify;
use crate::crypto::sha3_256;
use crate::crypto::sha3_of;
use crate::crypto::DILITHIUM_PK_LEN;
use crate::crypto::DILITHIUM_SIG_LEN;
use crate::hexstr::hex_decode;
use crate::hexstr::hex_parse;
use crate::hexstr::valid_hex;
use crate::wallet::Wallet;

verus! {

/// The closed set of transaction kinds.
#[derive(Clone, Copy, PartialEq, Eq, Structural, Debug)]
#[allow(non_camel_case_types)]
pub enum TransactionType {
    TRANSACTION,
    COINBASE,
    STAKE,
    UNSTAKE,
    DELEGATE,
    RESIGN,
    VALIDATOR,
    ValidatorReward,
    COMMIT,
}

/// The canonical one-byte tag of a transaction kind (its initial, with
/// distinct letters for the two V-kinds and for COINBASE/COMMIT).
pub open spec fn kind_tag(t: TransactionType) -> u8 {
    match t {
        TransactionType::TRANSACTION => 84u8,
        TransactionType::COINBASE => 67u8,
        TransactionType::STAKE => 83u8,
        TransactionType::UNSTAKE => 85u8,
        TransactionType::DELEGATE => 68u8,
        TransactionType::RESIGN => 82u8,
        TransactionType::VALIDATOR => 86u8,
        TransactionType::ValidatorReward => 87u8,
        TransactionType::COMMIT => 77u8,
    }
}

/// Executable form of `kind_tag`.
pub fn kind_tag_byte(t: TransactionType) -> (r: u8)
    ensures
        r == kind_tag(t),
{
    match t {
        TransactionType::TRANSACTION => 84,
        TransactionType::COINBASE => 67,
        TransactionType::STAKE => 83,
        TransactionType::UNSTAKE => 85,
        TransactionType::DELEGATE => 68,
        TransactionType::RESIGN => 82,
        TransactionType::VALIDATOR => 86,
        TransactionType::ValidatorReward => 87,
        TransactionType::COMMIT => 77,
    }
}

/// The canonical byte encoding a transaction's hash is computed over.
pub open spec fn txn_encoding(
    sender: Seq<u8>,
    recipient: Seq<u8>,
    amount: u64,
    timestamp: u64,
    fee: u64,
    t: TransactionType,
) -> Seq<u8> {
    sender + recipient + dec_spec(amount as nat) + dec_spec(timestamp as nat) + dec_spec(
        fee as nat,
    ) + seq![kind_tag(t)]
}

/// A signed value transfer, stake or commitment.
pub struct Transaction {
    pub hash: Vec<u8>,
    pub sender: Account,
    pub recipient: Account,
    pub signature: Vec<u8>,
    pub amount: u64,
    pub timestamp: u64,
    pub fee: u64,
    pub txn_type: TransactionType,
}

/// The sender's signature checks out: the address is valid hex of a
/// public key and the Dilithium verification of the stored hash passes.
pub open spec fn txn_valid_spec(t: Transaction) -> bool {
    &&& valid_hex(t.sender.address@)
    &&& hex_parse(t.sender.address@).len() == DILITHIUM_PK_LEN
    &&& dilithium_ok(hex_parse(t.sender.address@), t.hash@, t.signature@)
}

/// Two transactions agree field for field, by content.
pub open spec fn txn_matches(a: Transaction, b: Transaction) -> bool {
    &&& a.hash@ == b.hash@
    &&& a.sender.address@ == b.sender.address@
    &&& a.recipient.address@ == b.recipient.address@
    &&& a.signature@ == b.signature@
    &&& a.amount == b.amount
    &&& a.timestamp == b.timestamp
    &&& a.fee == b.fee
    &&& a.txn_type == b.txn_type
}

impl Transaction {
    /// The hash field matches the canonical encoding of the other fields.
    pub open spec fn hash_ok(&self) -> bool {
        self.hash@ == sha3_of(
            txn_encoding(
                self.sender.address@,
                self.recipient.address@,
                self.amount,
                self.timestamp,
                self.fee,
                self.txn_type,
            ),
        )
    }

    /// Recompute the hash from the fields.
    pub fn compute_hash(&self) -> (r: Vec<u8>)
        ensures
            r@ == sha3_of(
                txn_encoding(
                    self.sender.address@,
                    self.recipient.address@,
                    self.amount,
                    self.timestamp,
                    self.fee,
                    self.txn_type,
                ),
            ),
    {
        let mut buf: Vec<u8> = Vec::new();
        vec_extend(&mut buf, &self.sender.address);
        vec_extend(&mut buf, &self.recipient.address);
        let amount_dec = u64_to_dec(self.amount);
        vec_extend(&mut buf, &amount_dec);
        let ts_dec = u64_to_dec(self.timestamp);
        vec_extend(&mut buf, &ts_dec);
        let fee_dec = u64_to_dec(self.fee);
        vec_extend(&mut buf, &fee_dec);
        buf.push(kind_tag_byte(self.txn_type));
        proof {
            assert(buf@ =~= txn_encoding(
                self.sender.address@,
                self.recipient.address@,
                self.amount,
                self.timestamp,
                self.fee,
                self.txn_type,
            ));
        }
        sha3_256(&buf)
    }

    /// Build and sign a transaction, timestamped with the current time.
    pub fn new(
        sender_wallet: &Wallet,
        sender: Account,
        recipient: Account,
        amount: u64,
        fee: u64,
        txn_type: TransactionType,
    ) -> (r: Transaction)
        ensures
            r.sender.address@ == sender.address@,
            r.recipient.address@ == recipient.address@,
            r.amount == amount,
            r.fee == fee,
            r.txn_type == txn_type,
            r.hash_ok(),
            r.signature@.len() == DILITHIUM_SIG_LEN,
    {
        let mut txn = Transaction {
            hash: Vec::new(),
            sender,
            recipient,
            signature: Vec::new(),
            amount,
            timestamp: current_millis(),
            fee,
            txn_type,
        };
        let h = txn.compute_hash();
        txn.signature = sender_wallet.sign_message(&h);
        txn.hash = h;
        txn
    }

    /// Check the sender's signature over the stored hash: the address must
    /// be valid hex of a public key, and the Dilithium check must pass.
    pub fn verify(&self) -> (r: bool)
        ensures
            r == txn_valid_spec(*self),
    {
        match hex_decode(&self.sender.address) {
            Some(pk) => {
                if pk.len() == DILITHIUM_PK_LEN {
                    dilithium_verify(&pk, &self.hash, &self.signature)
                } else {
                    false
                }
            },
            None => false,
        }
    }

    /// A field-for-field copy.
    pub fn duplicate(&self) -> (r: Transaction)
        ensures
            txn_matches(r, *self),
            r.hash@ == self.hash@,
            r.sender.address@ == self.sender.address@,
            r.recipient.address@ == self.recipient.address@,
            r.signature@ == self.signature@,
            r.amount == self.amount,
            r.timestamp == self.timestamp,
            r.fee == self.fee,
            r.txn_type == self.txn_type,
    {
        Transaction {
            hash: bytes_clone(&self.hash),
            sender: self.sender.duplicate(),
            recipient: self.recipient.duplicate(),
            signature: bytes_clone(&self.signature),
            amount: self.amount,
            timestamp: self.timestamp,
            fee: self.fee,
            txn_type: self.txn_type,
        }
    }
}

} // verus!
