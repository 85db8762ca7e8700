use private_dao::hashing::sha256_hex;
use private_dao::merkle::{hash_leaf, hash_pair, pair_level, verify_merkle_proof, MerkleTree};
use private_dao::tally::{build_merkle_tree_with_proofs, VoteData};

const LEAF_ALICE: &str = "c0f30d71e7a0f599ac5e149e6e5997daabe7050c08d3abf402d8980e39ee5e4e";
const LEAF_BOB: &str = "62e89c062a19dabd0016a6ce79f732d524f975c0c80c578bb6a2239f43d7ba6d";
const LEAF_CAROL: &str = "9d5bc0f870813fc621fd9da9a77ade2fde34365ab196a9c7bd3861f0a70952b0";
const PARENT_ALICE_BOB: &str = "5d5af2407c601ea18f72cab459cdd55e8c495f5899166eeb6e23b326e3e8b9b6";
const PARENT_CAROL_CAROL: &str = "0e74412dc0b4dea1198350f42d31a9daf5bcafdd1f9918ce70be14a6a85789ad";
const ROOT_OF_THREE: &str = "084734c4a81a6a8a511b56fcf322e47b80e7e2a71a9a95f49a67f7d81a4e9158";

fn ballot(user: &str, encrypted: &str, timestamp: u64) -> VoteData {
    VoteData { user: user.to_string(), encrypted_vote: encrypted.to_string(), timestamp }
}

fn three_ballots() -> Vec<VoteData> {
    vec![ballot("alice", "abc", 1000), ballot("bob", "def", 2000), ballot("carol", "0a0b", 3000)]
}

fn many_ballots(n: usize) -> Vec<VoteData> {
    (0..n)
        .map(|i| ballot(&format!("voter{}", i % 3), &format!("{:02x}{:02x}", i, 255 - i), 100 + i as u64))
        .collect()
}

#[test]
fn sha256_hex_of_a_known_message() {
    assert_eq!(
        sha256_hex(b"abc"),
        "ba7816bf8f01cfea414140de5dae2223b00361a396177a9cb410ff61f20015ad"
    );
    assert_eq!(
        sha256_hex(b""),
        "e3b0c44298fc1c149afbf4c8996fb92427ae41e4649b934ca495991b7852b855"
    );
}

#[test]
fn leaf_hash_covers_voter_timestamp_and_ciphertext() {
    assert_eq!(hash_leaf("alice", 1000, "abc"), LEAF_ALICE);
    assert_eq!(hash_leaf("bob", 2000, "def"), LEAF_BOB);
    assert_ne!(hash_leaf("alice", 1001, "abc"), LEAF_ALICE);
    assert_ne!(hash_leaf("alicf", 1000, "abc"), LEAF_ALICE);
    assert_ne!(hash_leaf("alice", 1000, "abd"), LEAF_ALICE);
}

#[test]
fn parent_hash_is_over_left_then_right() {
    assert_eq!(hash_pair(LEAF_ALICE, LEAF_BOB), PARENT_ALICE_BOB);
    assert_ne!(hash_pair(LEAF_BOB, LEAF_ALICE), PARENT_ALICE_BOB);
}

#[test]
fn odd_level_pairs_its_last_node_with_itself() {
    let level = vec![LEAF_ALICE.to_string(), LEAF_BOB.to_string(), LEAF_CAROL.to_string()];
    let above = pair_level(&level);
    assert_eq!(above, vec![PARENT_ALICE_BOB.to_string(), PARENT_CAROL_CAROL.to_string()]);
    assert_eq!(pair_level(&above), vec![ROOT_OF_THREE.to_string()]);
    assert_eq!(pair_level(&Vec::new()), Vec::<String>::new());
}

#[test]
fn no_ballot_gives_empty_root_and_no_proof() {
    let (root, proofs) = build_merkle_tree_with_proofs(&[]);
    assert_eq!(root, "");
    assert!(proofs.is_empty());
}

#[test]
fn one_ballot_is_its_own_root() {
    let (root, proofs) = build_merkle_tree_with_proofs(&[ballot("alice", "abc", 1000)]);
    assert_eq!(root, LEAF_ALICE);
    assert_eq!(proofs.len(), 1);
    assert_eq!(proofs[0].voter, "alice");
    assert_eq!(proofs[0].vote_index, 0);
    assert_eq!(proofs[0].vote_hash, LEAF_ALICE);
    assert!(proofs[0].proof_path.is_empty());
    assert_eq!(proofs[0].timestamp, 1000);
}

#[test]
fn two_ballots_prove_each_other() {
    let votes = vec![ballot("alice", "abc", 1000), ballot("bob", "def", 2000)];
    let (root, proofs) = build_merkle_tree_with_proofs(&votes);
    assert_eq!(root, PARENT_ALICE_BOB);
    assert_eq!(proofs[0].proof_path, vec![LEAF_BOB.to_string()]);
    assert_eq!(proofs[1].proof_path, vec![LEAF_ALICE.to_string()]);
}

#[test]
fn three_ballots_give_the_expected_tree() {
    let (root, proofs) = build_merkle_tree_with_proofs(&three_ballots());
    assert_eq!(root, ROOT_OF_THREE);
    assert_eq!(proofs.len(), 3);
    assert_eq!(
        proofs[0].proof_path,
        vec![LEAF_BOB.to_string(), PARENT_CAROL_CAROL.to_string()]
    );
    assert_eq!(
        proofs[1].proof_path,
        vec![LEAF_ALICE.to_string(), PARENT_CAROL_CAROL.to_string()]
    );
    // The last leaf of an odd level is its own sibling.
    assert_eq!(
        proofs[2].proof_path,
        vec![LEAF_CAROL.to_string(), PARENT_ALICE_BOB.to_string()]
    );
    assert_eq!(proofs[2].voter, "carol");
    assert_eq!(proofs[2].vote_index, 2);
    assert_eq!(proofs[2].vote_hash, LEAF_CAROL);
    assert_eq!(proofs[2].timestamp, 3000);
}

#[test]
fn every_proof_verifies_against_the_root() {
    for n in [0usize, 1, 2, 5, 7] {
        let votes = many_ballots(n);
        let (root, proofs) = build_merkle_tree_with_proofs(&votes);
        assert_eq!(proofs.len(), n);
        for (i, proof) in proofs.iter().enumerate() {
            assert_eq!(proof.vote_index, i);
            assert_eq!(proof.voter, votes[i].user);
            assert_eq!(proof.timestamp, votes[i].timestamp);
            assert_eq!(
                proof.vote_hash,
                hash_leaf(&votes[i].user, votes[i].timestamp, &votes[i].encrypted_vote)
            );
            assert!(verify_merkle_proof(&proof.vote_hash, i, &proof.proof_path, &root));
        }
    }
}

#[test]
fn tampering_with_a_ciphertext_changes_leaf_and_root() {
    for n in [1usize, 2, 5, 7] {
        let votes = many_ballots(n);
        let (root, proofs) = build_merkle_tree_with_proofs(&votes);
        for i in 0..n {
            let mut tampered = votes.clone();
            let mut text = tampered[i].encrypted_vote.clone().into_bytes();
            text[0] = if text[0] == b'0' { b'1' } else { b'0' };
            tampered[i].encrypted_vote = String::from_utf8(text).unwrap();
            let (other_root, other_proofs) = build_merkle_tree_with_proofs(&tampered);
            assert_ne!(other_proofs[i].vote_hash, proofs[i].vote_hash);
            assert_ne!(other_root, root);
            // The old proof no longer leads to the new root.
            assert!(!verify_merkle_proof(
                &proofs[i].vote_hash,
                i,
                &proofs[i].proof_path,
                &other_root
            ));
        }
    }
}

#[test]
fn verification_fails_for_wrong_position_path_or_leaf() {
    let (root, proofs) = build_merkle_tree_with_proofs(&three_ballots());
    let proof = &proofs[0];
    assert!(verify_merkle_proof(&proof.vote_hash, 0, &proof.proof_path, &root));
    assert!(!verify_merkle_proof(&proof.vote_hash, 1, &proof.proof_path, &root));
    assert!(!verify_merkle_proof(LEAF_BOB, 0, &proof.proof_path, &root));
    assert!(!verify_merkle_proof(&proof.vote_hash, 0, &proofs[2].proof_path, &root));
    assert!(!verify_merkle_proof(&proof.vote_hash, 0, &Vec::new(), &root));
    // An empty path proves a leaf only to itself.
    assert!(verify_merkle_proof(LEAF_ALICE, 0, &Vec::new(), LEAF_ALICE));
    assert!(verify_merkle_proof(LEAF_ALICE, 9, &Vec::new(), LEAF_ALICE));
}

#[test]
fn position_parity_decides_the_side_at_each_level() {
    // Position 2 is a left child at the first level and a right child at the second.
    let root = hash_pair(PARENT_ALICE_BOB, &hash_pair(LEAF_CAROL, LEAF_CAROL));
    let path = vec![LEAF_CAROL.to_string(), PARENT_ALICE_BOB.to_string()];
    assert!(verify_merkle_proof(LEAF_CAROL, 2, &path, &root));
    assert!(!verify_merkle_proof(LEAF_CAROL, 0, &path, &root));
    assert!(!verify_merkle_proof(LEAF_CAROL, 1, &path, &root));
    // Only the parity at each level counts.
    assert!(verify_merkle_proof(LEAF_CAROL, 6, &path, &root));
}

#[test]
fn tree_answers_leaves_root_and_paths() {
    let leaves = vec![LEAF_ALICE.to_string(), LEAF_BOB.to_string(), LEAF_CAROL.to_string()];
    let tree = MerkleTree::build(leaves);
    assert_eq!(tree.leaf_count(), 3);
    assert_eq!(tree.leaf(1), LEAF_BOB);
    assert_eq!(tree.root(), ROOT_OF_THREE);
    assert_eq!(tree.path(1), vec![LEAF_ALICE.to_string(), PARENT_CAROL_CAROL.to_string()]);
    let empty = MerkleTree::build(Vec::new());
    assert_eq!(empty.leaf_count(), 0);
    assert_eq!(empty.root(), "");
}

#[test]
fn reordering_ballots_changes_the_root() {
    let votes = three_ballots();
    let mut swapped = three_ballots();
    swapped.swap(0, 1);
    let (root, _) = build_merkle_tree_with_proofs(&votes);
    let (other, _) = build_merkle_tree_with_proofs(&swapped);
    assert_ne!(root, other);
}

#[test]
fn hashes_have_the_size_of_a_digest() {
    assert_eq!(sha256_hex(b"abc").len(), 64);
    assert_eq!(hash_leaf("", 0, "").len(), 64);
    assert_eq!(hash_pair("", "").len(), 64);
    for n in [1usize, 2, 3, 5, 7] {
        let (root, proofs) = build_merkle_tree_with_proofs(&many_ballots(n));
        assert_eq!(root.len(), 64);
        for proof in &proofs {
            assert_eq!(proof.vote_hash.len(), 64);
            assert!(proof.proof_path.iter().all(|node| node.len() == 64));
        }
    }
    let (root, proofs) = build_merkle_tree_with_proofs(&[]);
    assert_eq!(root.len(), 0);
    assert!(proofs.is_empty());
}

#[test]
fn tampering_leaves_the_other_leaves_alone() {
    let votes = many_ballots(5);
    let (_, proofs) = build_merkle_tree_with_proofs(&votes);
    let mut tampered = votes.clone();
    tampered[2].encrypted_vote.push_str("00");
    let (_, other) = build_merkle_tree_with_proofs(&tampered);
    for i in 0..5 {
        assert_eq!(other[i].vote_hash == proofs[i].vote_hash, i != 2);
    }
}
