use niropok_pq_sidechain::ccok::cert::Cert;
use niropok_pq_sidechain::ccok::cert::Params;
use niropok_pq_sidechain::ccok::cert::Participant;
use niropok_pq_sidechain::ccok::cert::Participants;
use niropok_pq_sidechain::ccok::cert::Reveal;
use niropok_pq_sidechain::ccok::cert::SigSlot;

#[test]
fn test_participant_serialization() {
    let participant = Participant { pk: vec![1, 2, 3, 4], weight: 100 };

    let bytes = participant.to_bytes();
    assert_eq!(bytes[0..4], vec![1, 2, 3, 4]);

    let weight_bytes = &bytes[4..];
    assert_eq!(u64::from_le_bytes(weight_bytes.try_into().unwrap()), 100);
}

#[test]
fn test_participants_collection() {
    let p1 = Participant { pk: vec![1, 2, 3], weight: 50 };
    let p2 = Participant { pk: vec![4, 5, 6], weight: 75 };

    let participants = Participants::new(vec![p1, p2]);
    let bytes = participants.to_bytes();

    assert_eq!(bytes.len(), 2);
    assert_eq!(bytes[0][0..3], vec![1, 2, 3]);
    assert_eq!(bytes[1][0..3], vec![4, 5, 6]);
}

#[test]
fn test_cert_serialization() {
    let participant = Participant { pk: vec![1, 2, 3], weight: 100 };

    let sig_slot = SigSlot { sig: vec![9, 8, 7], l: 42 };

    let reveal = Reveal { party: participant, sig_slot };

    let reveals = vec![(0u64, reveal)];

    let cert = Cert {
        sig_commit: vec![4, 5, 6],
        signed_weight: 150,
        sig_proofs: vec![vec![1, 1], vec![2, 2]],
        party_proofs: vec![vec![3, 3]],
        reveals,
    };

    let bytes = cert.to_bytes();
    let decoded_cert = Cert::from_bytes(&bytes).unwrap();

    assert_eq!(decoded_cert.sig_commit, vec![4, 5, 6]);
    assert_eq!(decoded_cert.signed_weight, 150);
    assert_eq!(decoded_cert.sig_proofs.len(), 2);
    assert_eq!(decoded_cert.party_proofs.len(), 1);
    assert_eq!(decoded_cert.reveals.len(), 1);
}

#[test]
fn test_num_reveals_calculation() {
    let params = Params { msg: vec![1, 2, 3], proven_weight: 100, sec_kq: 10 };

    let result = params.num_reveals(200);
    assert!(result.is_ok());

    let result = params.num_reveals(100);
    assert!(result.is_ok());

    let result = params.num_reveals(50);
    assert!(result.is_err());
}

#[test]
fn test_reveal_size_calculation() {
    let participant = Participant { pk: vec![1, 2, 3], weight: 100 };

    let sig_slot = SigSlot { sig: vec![9, 8, 7], l: 42 };

    let reveal = Reveal { party: participant, sig_slot };

    assert_eq!(reveal.size(), 22);
}

#[test]
fn test_cert_size_calculation() {
    let cert = Cert {
        sig_commit: vec![1, 2, 3],
        signed_weight: 100,
        sig_proofs: vec![vec![1, 2], vec![3, 4]],
        party_proofs: vec![vec![5, 6]],
        reveals: Vec::new(),
    };

    assert_eq!(cert.size(), 17);
}
