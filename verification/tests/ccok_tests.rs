use niropok_pq_sidechain::ccok::encode_participants;
use niropok_pq_sidechain::ccok::num_reveals_count;
use niropok_pq_sidechain::ccok::Builder;
use niropok_pq_sidechain::ccok::CcokError;
use niropok_pq_sidechain::ccok::Params;
use niropok_pq_sidechain::ccok::Participant;
use niropok_pq_sidechain::merkle::MerkleTreeBuilder;
use niropok_pq_sidechain::wallet::Wallet;
use sha3::Digest;

fn create_test_builder(participants: Vec<(Vec<u8>, u64)>) -> (Builder, Vec<u8>) {
    let msg = b"Test message".to_vec();
    let mut total_weight: u64 = 0;
    let participants: Vec<Participant> = participants
        .into_iter()
        .map(|(pk, weight)| {
            total_weight += weight;
            Participant { public_key: pk, weight }
        })
        .collect();

    let mut party_tree = MerkleTreeBuilder::new();
    let encs = encode_participants(&participants);
    party_tree.build(&encs);
    let party_tree_root = party_tree.root();

    let params = Params { msg: msg.clone(), proven_weight: total_weight / 2, security_param: 128 };

    (Builder::new(params, participants, party_tree_root), msg)
}

#[test]
fn test_simple_certificate_verification() {
    let wallet1 = Wallet::new();
    let wallet2 = Wallet::new();
    let wallet3 = Wallet::new();

    let participants = vec![
        (wallet1.get_public_key(), 10),
        (wallet2.get_public_key(), 20),
        (wallet3.get_public_key(), 30),
    ];

    let (mut builder, msg) = create_test_builder(participants);

    builder.add_signature(0, wallet1.sign_message(&msg)).expect("Failed to add signature 1");
    builder.add_signature(1, wallet2.sign_message(&msg)).expect("Failed to add signature 2");
    builder.add_signature(2, wallet3.sign_message(&msg)).expect("Failed to add signature 3");

    let cert = builder.build().expect("Failed to build certificate");
    assert_eq!(cert.signed_weight, 60);
    let result = cert.verify(&builder.params, &builder.party_tree_root);
    assert!(result, "Certificate verification failed");
}

#[test]
fn test_insufficient_weight() {
    let wallet1 = Wallet::new();
    let wallet2 = Wallet::new();
    let wallet3 = Wallet::new();

    let participants = vec![
        (wallet1.get_public_key(), 10),
        (wallet2.get_public_key(), 20),
        (wallet3.get_public_key(), 30),
    ];

    let (mut builder, msg) = create_test_builder(participants);

    builder.add_signature(0, wallet1.sign_message(&msg)).expect("Failed to add signature");

    assert!(builder.build().is_err(), "Builder should fail with insufficient weight");
}

#[test]
fn test_duplicate_signature() {
    let wallet = Wallet::new();
    let participants = vec![(wallet.get_public_key(), 100)];
    let (mut builder, msg) = create_test_builder(participants);

    builder.add_signature(0, wallet.sign_message(&msg)).expect("Failed to add signature");

    let result = builder.add_signature(0, wallet.sign_message(&msg));
    assert!(result.is_err(), "Should not allow duplicate signatures");
    assert_eq!(result.unwrap_err(), CcokError::DuplicateSignature);
}

#[test]
fn test_invalid_position() {
    let wallet = Wallet::new();
    let participants = vec![(wallet.get_public_key(), 100)];
    let (mut builder, msg) = create_test_builder(participants);

    let result = builder.add_signature(1, wallet.sign_message(&msg));
    assert!(result.is_err(), "Should not allow invalid position");
    assert_eq!(result.unwrap_err(), CcokError::InvalidPosition);
}

#[test]
fn test_accumulated_weights() {
    let wallet1 = Wallet::new();
    let wallet2 = Wallet::new();
    let wallet3 = Wallet::new();

    let participants = vec![
        (wallet1.get_public_key(), 10),
        (wallet2.get_public_key(), 20),
        (wallet3.get_public_key(), 30),
    ];

    let (mut builder, msg) = create_test_builder(participants);

    builder.add_signature(0, wallet1.sign_message(&msg)).expect("Failed to add signature 1");
    assert_eq!(builder.sigs[0].accumulated_weight, 0);

    builder.add_signature(1, wallet2.sign_message(&msg)).expect("Failed to add signature 2");
    assert_eq!(builder.sigs[1].accumulated_weight, 10);

    builder.add_signature(2, wallet3.sign_message(&msg)).expect("Failed to add signature 3");
    assert_eq!(builder.sigs[2].accumulated_weight, 30);
}

#[test]
fn test_coin_choice_consistency() {
    let wallet1 = Wallet::new();
    let wallet2 = Wallet::new();

    let participants = vec![(wallet1.get_public_key(), 50), (wallet2.get_public_key(), 50)];

    let (mut builder, msg) = create_test_builder(participants);

    builder.add_signature(0, wallet1.sign_message(&msg)).expect("Failed to add signature 1");
    builder.add_signature(1, wallet2.sign_message(&msg)).expect("Failed to add signature 2");

    let cert = builder.build().expect("Failed to build certificate");

    for i in 0..10u64 {
        let coin = builder.coin_choice(i, &cert.sig_commit);
        let builder_pos = builder.find_coin_position(coin).expect("Failed to find position in builder");
        let cert_pos = cert
            .find_coin_position(coin, &builder.sigs)
            .expect("Failed to find position in certificate");
        assert_eq!(builder_pos, cert_pos, "Coin choice positions should match for index {}", i);
    }
}

#[test]
fn test_zero_weight_rejected() {
    let wallet = Wallet::new();
    let participants = vec![(wallet.get_public_key(), 0), (wallet.get_public_key(), 100)];
    let (mut builder, msg) = create_test_builder(participants);

    let result = builder.add_signature(0, wallet.sign_message(&msg));
    assert_eq!(result.unwrap_err(), CcokError::ZeroWeight);
}

#[test]
fn test_overweight_never_builds() {
    let wallet1 = Wallet::new();
    let wallet2 = Wallet::new();
    let msg = b"Test message".to_vec();
    let participants = vec![
        Participant { public_key: wallet1.get_public_key(), weight: 10 },
        Participant { public_key: wallet2.get_public_key(), weight: 20 },
    ];
    let mut party_tree = MerkleTreeBuilder::new();
    let encs = encode_participants(&participants);
    party_tree.build(&encs);
    let params = Params { msg: msg.clone(), proven_weight: 31, security_param: 128 };
    let mut builder = Builder::new(params, participants, party_tree.root());
    builder.add_signature(0, wallet1.sign_message(&msg)).unwrap();
    builder.add_signature(1, wallet2.sign_message(&msg)).unwrap();
    let result = builder.build();
    assert_eq!(result.err().unwrap(), CcokError::InsufficientWeight);
}

#[test]
fn test_num_reveals_at_least_one() {
    assert_eq!(num_reveals_count(128, 60, 60), 1);
    assert!(num_reveals_count(128, 30, 60) >= 1);
}

#[test]
fn test_coin_value_matches_keccak() {
    let sig_commit = vec![1u8; 32];
    let party_root = vec![2u8; 32];
    let msg = b"coin test".to_vec();
    let got = niropok_pq_sidechain::ccok::coin_value(3, 100, 40, &sig_commit, &party_root, &msg);

    let mut hasher = sha3::Keccak256::new();
    hasher.update(3u64.to_le_bytes());
    hasher.update(100u64.to_le_bytes());
    hasher.update(40u64.to_le_bytes());
    hasher.update(&sig_commit);
    hasher.update(&party_root);
    hasher.update(&msg);
    let digest = hasher.finalize();
    let mut first8 = [0u8; 8];
    first8.copy_from_slice(&digest[0..8]);
    let expected = u64::from_le_bytes(first8) % 100;
    assert_eq!(got, expected);
}

#[test]
fn test_tampered_certificate_rejected() {
    let wallet1 = Wallet::new();
    let wallet2 = Wallet::new();

    let participants = vec![(wallet1.get_public_key(), 50), (wallet2.get_public_key(), 50)];
    let (mut builder, msg) = create_test_builder(participants);
    builder.add_signature(0, wallet1.sign_message(&msg)).unwrap();
    builder.add_signature(1, wallet2.sign_message(&msg)).unwrap();
    let mut cert = builder.build().unwrap();

    if !cert.sig_proofs.is_empty() && !cert.sig_proofs[0].is_empty() {
        cert.sig_proofs[0][0] ^= 0xff;
        assert!(!cert.verify(&builder.params, &builder.party_tree_root));
    } else {
        cert.signed_weight = 0;
        assert!(!cert.verify(&builder.params, &builder.party_tree_root));
    }
}
