use niropok_pq_sidechain::accounts::Account;
use niropok_pq_sidechain::blockchain::Blockchain;
use niropok_pq_sidechain::ccok::sig::SchnorrSignature;
use niropok_pq_sidechain::config::EPOCH_DURATION;
use niropok_pq_sidechain::epoch::Epoch;
use niropok_pq_sidechain::hashchain::verify_hash_chain_index;
use niropok_pq_sidechain::hashchain::HashChain;
use niropok_pq_sidechain::hexstr::hex_encode;
use niropok_pq_sidechain::mempool::Mempool;
use niropok_pq_sidechain::transaction::Transaction;
use niropok_pq_sidechain::transaction::TransactionType;
use niropok_pq_sidechain::utils::get_block_seed;
use niropok_pq_sidechain::utils::select_block_proposer;
use niropok_pq_sidechain::utils::Seed;
use niropok_pq_sidechain::validator::Validator;
use niropok_pq_sidechain::wallet::Wallet;
use sha3::Digest;

fn account_of(wallet: &Wallet) -> Account {
    Account { address: wallet.get_public_key() }
}

#[test]
fn test_select_block_proposer() {
    let wallet = Wallet::new();
    let mut blockchain = Blockchain::new(wallet);

    let wallet1 = Wallet::new();
    let validator1 = account_of(&wallet1);
    let wallet2 = Wallet::new();
    let validator2 = account_of(&wallet2);

    let stake_txn1 = Transaction::new(
        &wallet1,
        account_of(&wallet1),
        account_of(&wallet1),
        100,
        0,
        TransactionType::STAKE,
    );
    let stake_txn2 = Transaction::new(
        &wallet2,
        account_of(&wallet2),
        account_of(&wallet2),
        200,
        0,
        TransactionType::STAKE,
    );

    blockchain.validator.add_validator(account_of(&wallet1), &stake_txn1);
    blockchain.validator.add_validator(account_of(&wallet2), &stake_txn2);

    let hash_chain_validator1 = HashChain::new();
    let hash_chain_validator2 = HashChain::new();

    blockchain.validator.update_validator_com(
        account_of(&wallet1),
        hash_chain_validator1.get_hash(EPOCH_DURATION as usize, account_of(&wallet1)),
    );
    blockchain.validator.update_validator_com(
        account_of(&wallet2),
        hash_chain_validator2.get_hash(EPOCH_DURATION as usize, account_of(&wallet2)),
    );

    let seed = blockchain.new_epoch();
    let proposer = blockchain.select_block_proposer(&seed).expect("validators exist");
    assert!(proposer.address == validator1.address || proposer.address == validator2.address);
}

#[test]
fn test_leader_election_tie() {
    let wallet_a = Wallet::new();
    let wallet_b = Wallet::new();
    let a = account_of(&wallet_a);
    let b = account_of(&wallet_b);
    let com_chain = HashChain::new();

    let stake_a = Transaction::new(&wallet_a, account_of(&wallet_a), account_of(&wallet_a), 100, 0, TransactionType::STAKE);
    let stake_b = Transaction::new(&wallet_b, account_of(&wallet_b), account_of(&wallet_b), 100, 0, TransactionType::STAKE);

    // First order: A before B, identical stake and identical commitment.
    let mut v1 = Validator::new();
    v1.add_validator(account_of(&wallet_a), &stake_a);
    v1.add_validator(account_of(&wallet_b), &stake_b);
    v1.update_validator_com(account_of(&wallet_a), com_chain.get_hash(0, account_of(&wallet_a)));
    v1.update_validator_com(account_of(&wallet_b), com_chain.get_hash(0, account_of(&wallet_b)));
    let seed = Seed::new_epoch_seed(&v1);
    let w1 = select_block_proposer(&seed, &v1).unwrap();
    assert_eq!(w1.address, a.address, "first in iteration order wins the tie");

    // Swapped order: B before A.
    let mut v2 = Validator::new();
    v2.add_validator(account_of(&wallet_b), &stake_b);
    v2.add_validator(account_of(&wallet_a), &stake_a);
    v2.update_validator_com(account_of(&wallet_a), com_chain.get_hash(0, account_of(&wallet_a)));
    v2.update_validator_com(account_of(&wallet_b), com_chain.get_hash(0, account_of(&wallet_b)));
    let seed2 = Seed::new_epoch_seed(&v2);
    let w2 = select_block_proposer(&seed2, &v2).unwrap();
    assert_eq!(w2.address, b.address, "swapping iteration order swaps the winner");
}

#[test]
fn test_hash_chain_reveal() {
    let chain = HashChain::new();
    let me = Account { address: b"self".to_vec() };
    let commit = chain.get_hash((EPOCH_DURATION + 1) as usize, me.duplicate()).hash_chain_index;
    for s in [0u64, 1, 5, EPOCH_DURATION] {
        let reveal_hex =
            chain.get_hash((EPOCH_DURATION - s + 1) as usize, me.duplicate()).hash_chain_index;
        assert!(verify_hash_chain_index(&commit, s, &reveal_hex));
        let mut bad = reveal_hex.clone();
        // Flip one hex digit.
        bad[0] = if bad[0] == b'0' { b'1' } else { b'0' };
        assert!(!verify_hash_chain_index(&commit, s, &bad));
    }
}

#[test]
fn test_hash_chain_verify_at_slot_zero() {
    let chain = HashChain::new();
    let me = Account { address: b"self".to_vec() };
    let commit = chain.get_hash((EPOCH_DURATION + 1) as usize, me.duplicate()).hash_chain_index;
    // At slot zero the reveal must equal the commitment itself.
    assert!(verify_hash_chain_index(&commit, 0, &commit));
    let other = chain.get_hash(0, me).hash_chain_index;
    assert!(!verify_hash_chain_index(&commit, 0, &other));
}

#[test]
fn test_transaction_hash_formula() {
    let wallet = Wallet::new();
    let sender = account_of(&wallet);
    let recipient = Account { address: b"00aa".to_vec() };
    let txn = Transaction::new(&wallet, sender, recipient, 1234, 7, TransactionType::TRANSACTION);

    let mut h = sha3::Sha3_256::new();
    h.update(&txn.sender.address);
    h.update(&txn.recipient.address);
    h.update(txn.amount.to_string().as_bytes());
    h.update(txn.timestamp.to_string().as_bytes());
    h.update(txn.fee.to_string().as_bytes());
    h.update([b'T']);
    let expected = h.finalize().to_vec();
    assert_eq!(txn.hash, expected);

    // Recomputing the hash from the fields is idempotent.
    assert_eq!(txn.compute_hash(), txn.hash);
    assert!(txn.verify());
}

#[test]
fn test_wallet_sign_and_verify() {
    let wallet = Wallet::new();
    let msg = b"block hash".to_vec();
    let sig = wallet.sign_message(&msg);
    assert_eq!(sig.len(), 2420);
    assert!(wallet.verify(&msg, &sig));
    let wrong = b"other hash".to_vec();
    assert!(!wallet.verify(&wrong, &sig));
}

#[test]
fn test_hex_encoding_matches_hex_crate() {
    let bytes = vec![0xabu8, 0x01, 0xff, 0x00];
    let ours = hex_encode(&bytes);
    assert_eq!(ours, hex::encode(&bytes).into_bytes());
}

#[test]
fn test_block_seed_xor() {
    let prev = Seed { seed: vec![0x0fu8; 32] };
    let reveal_bytes = vec![0xf0u8; 16];
    let s = get_block_seed(&reveal_bytes, &prev);
    for i in 0..16 {
        assert_eq!(s.seed[i], 0xff);
    }
    for i in 16..32 {
        assert_eq!(s.seed[i], 0x00);
    }
}

#[test]
fn test_epoch_progression() {
    let mut epoch = Epoch::new();
    assert!(!epoch.is_end_of_epoch());
    for _ in 0..EPOCH_DURATION {
        epoch.progress();
    }
    assert!(epoch.is_end_of_epoch());
    epoch.reset();
    assert_eq!(epoch.timestamp, 0);
    assert!(!epoch.is_end_of_epoch());
}

#[test]
fn test_mempool_add_delete() {
    let wallet = Wallet::new();
    let a = account_of(&wallet);
    let t1 = Transaction::new(&wallet, a.duplicate(), a.duplicate(), 1, 0, TransactionType::TRANSACTION);
    let t2 = Transaction::new(&wallet, a.duplicate(), a.duplicate(), 2, 0, TransactionType::TRANSACTION);
    let mut pool = Mempool::new();
    pool.add_transaction(t1.duplicate());
    pool.add_transaction(t2.duplicate());
    assert!(pool.txn_exists(&t1.hash));
    pool.delete_transaction(&t1);
    assert!(!pool.txn_exists(&t1.hash));
    assert!(pool.txn_exists(&t2.hash));
    let drained = pool.get_transactions(10);
    assert_eq!(drained.len(), 1);
    assert_eq!(pool.get_mempool().len(), 0);
}

#[test]
fn test_schnorr_signature_round_trip() {
    let s = vec![7u8; 32];
    let e = vec![9u8; 32];
    let sig = SchnorrSignature::from_scalars(&s, &e);
    let bytes = sig.to_bytes();
    assert_eq!(bytes.len(), 64);
    let parsed = SchnorrSignature::from_bytes(&bytes).unwrap();
    assert_eq!(parsed.to_bytes(), bytes);
    let short = vec![1u8; 63];
    assert!(SchnorrSignature::from_bytes(&short).is_none());
}
