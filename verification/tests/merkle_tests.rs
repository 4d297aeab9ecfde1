use niropok_pq_sidechain::merkle::MerkleTreeBuilder;
use sha3::Digest;

fn sha3(data: &[u8]) -> Vec<u8> {
    let mut h = sha3::Sha3_256::new();
    h.update(data);
    h.finalize().to_vec()
}

#[test]
fn test_build_and_root() {
    let data = vec![b"leaf1".to_vec(), b"leaf2".to_vec(), b"leaf3".to_vec(), b"leaf4".to_vec()];
    let mut merkle_tree = MerkleTreeBuilder::new();
    merkle_tree.build(&data);
    let root = merkle_tree.root();
    assert!(!root.is_empty(), "Merkle root should exist");
}

#[test]
fn test_prove_and_verify() {
    let data = vec![b"a".to_vec(), b"b".to_vec(), b"c".to_vec(), b"d".to_vec()];
    let mut merkle_tree = MerkleTreeBuilder::new();
    merkle_tree.build(&data);
    let root = merkle_tree.root();

    let indices = vec![1usize, 2usize];
    let proof = merkle_tree.prove(&indices);

    let leaves = vec![sha3(&data[1]), sha3(&data[2])];

    let result = MerkleTreeBuilder::verify(&root, &proof, &indices, 4, &leaves);
    assert!(result, "Proof verification should succeed");
}

#[test]
fn test_invalid_index_in_prove() {
    let data = vec![b"test1".to_vec(), b"test2".to_vec()];
    let mut merkle_tree = MerkleTreeBuilder::new();
    merkle_tree.build(&data);
    let root = merkle_tree.root();
    let proof = merkle_tree.prove(&vec![1usize]);
    let leaves = vec![sha3(&data[1])];
    let result = MerkleTreeBuilder::verify(&root, &proof, &vec![2usize], 2, &leaves);
    assert!(!result, "Proving invalid index should fail");
}

#[test]
fn test_verify_with_wrong_proof() {
    let data = vec![b"foo".to_vec(), b"bar".to_vec(), b"baz".to_vec()];
    let mut merkle_tree = MerkleTreeBuilder::new();
    merkle_tree.build(&data);
    let root = merkle_tree.root();

    let indices = vec![0usize];
    let proof = merkle_tree.prove(&indices);

    let tampered_proof: Vec<Vec<u8>> = proof
        .into_iter()
        .map(|mut p| {
            if !p.is_empty() {
                p[0] ^= 0xFF;
            }
            p
        })
        .collect();

    let leaves = vec![sha3(&data[0])];
    let result = MerkleTreeBuilder::verify(&root, &tampered_proof, &indices, 3, &leaves);
    assert!(!result, "Verification with tampered proof should fail");
}

#[test]
fn test_empty_tree() {
    let data: Vec<Vec<u8>> = vec![];
    let mut merkle_tree = MerkleTreeBuilder::new();
    merkle_tree.build(&data);
    assert!(merkle_tree.root().is_empty(), "Empty tree should have no root");
}

#[test]
fn test_tampered_leaf_rejected() {
    let data = vec![b"x".to_vec(), b"y".to_vec(), b"z".to_vec(), b"w".to_vec()];
    let mut merkle_tree = MerkleTreeBuilder::new();
    merkle_tree.build(&data);
    let root = merkle_tree.root();
    let indices = vec![0usize, 3usize];
    let proof = merkle_tree.prove(&indices);
    let good = vec![sha3(&data[0]), sha3(&data[3])];
    assert!(MerkleTreeBuilder::verify(&root, &proof, &indices, 4, &good));
    let bad = vec![sha3(b"not x"), sha3(&data[3])];
    assert!(!MerkleTreeBuilder::verify(&root, &proof, &indices, 4, &bad));
}
