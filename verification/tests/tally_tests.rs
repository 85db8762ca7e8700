use private_dao::crypto::{derive_user_pubkey, encrypt_vote, CryptoError, CryptoFailure};
use private_dao::tally::{
    build_merkle_tree_with_proofs, check_quorum, classify, disclose, generate_tee_attestation,
    read_ballot, tally_votes, tally_votes_with_account, AggregateState, Choice, QuorumPolicy,
    QuorumType, Reading, TallyError, VoteData,
};
use private_dao::votes_hash::{compute_votes_hash, is_listed_before, listing_order};

const SECRET: &[u8] = b"test_secret_32_bytes_long_xxxx!!";
const DAO: &str = "dao.testnet";

fn sealed(user: &str, text: &str, timestamp: u64) -> VoteData {
    let public = derive_user_pubkey(SECRET, DAO, user).unwrap();
    let ciphertext = encrypt_vote(&public, text.as_bytes()).unwrap();
    VoteData { user: user.to_string(), encrypted_vote: hex::encode(ciphertext), timestamp }
}

fn create_test_vote(user: &str, encrypted: &str, ts: u64) -> VoteData {
    VoteData { user: user.to_string(), encrypted_vote: encrypted.to_string(), timestamp: ts }
}

fn absolute(min_votes: u64) -> QuorumPolicy {
    QuorumPolicy::Known(QuorumType::Absolute { min_votes })
}

#[test]
fn test_votes_hash_deterministic() {
    let votes = vec![create_test_vote("alice", "abc", 1000), create_test_vote("bob", "def", 2000)];

    let hash1 = compute_votes_hash(&votes);
    let hash2 = compute_votes_hash(&votes);

    assert_eq!(hash1, hash2);
}

#[test]
fn test_votes_hash_order_independent() {
    let votes1 = vec![create_test_vote("alice", "abc", 1000), create_test_vote("bob", "def", 2000)];

    let votes2 = vec![create_test_vote("bob", "def", 2000), create_test_vote("alice", "abc", 1000)];

    let hash1 = compute_votes_hash(&votes1);
    let hash2 = compute_votes_hash(&votes2);

    assert_eq!(hash1, hash2);
}

#[test]
fn votes_hash_has_the_expected_value() {
    let votes = vec![create_test_vote("alice", "abc", 1000), create_test_vote("bob", "def", 2000)];
    assert_eq!(
        compute_votes_hash(&votes),
        "f8eedb3ea84c1458faa92892cddf98a5e81b758fbd292822579bbaf62520c4d9"
    );
    let mixed = vec![
        create_test_vote("bob", "x", 5),
        create_test_vote("al", "y", 9),
        create_test_vote("alice", "z", 1),
        create_test_vote("al", "w", 3),
    ];
    assert_eq!(
        compute_votes_hash(&mixed),
        "c092f82e2317b63b614e600fd9fc7c0947bb86390549af1fd1850246def97f2a"
    );
    assert_eq!(
        compute_votes_hash(&[]),
        "e3b0c44298fc1c149afbf4c8996fb92427ae41e4649b934ca495991b7852b855"
    );
}

#[test]
fn listing_order_is_by_voter_then_timestamp_and_stable() {
    let votes = vec![
        create_test_vote("bob", "x", 5),
        create_test_vote("al", "y", 9),
        create_test_vote("alice", "z", 1),
        create_test_vote("al", "w", 3),
        create_test_vote("al", "v", 9),
    ];
    assert_eq!(listing_order(&votes), vec![3, 1, 4, 2, 0]);
    assert!(is_listed_before(&votes[1], &votes[4]));
    assert!(is_listed_before(&votes[4], &votes[1]));
    assert!(is_listed_before(&votes[3], &votes[1]));
    assert!(!is_listed_before(&votes[1], &votes[3]));
    assert!(is_listed_before(&votes[1], &votes[2]));
    assert!(!is_listed_before(&votes[0], &votes[2]));
}

#[test]
fn classification_is_exact() {
    assert_eq!(classify("yes"), Some(Choice::Yes));
    assert_eq!(classify("no"), Some(Choice::No));
    assert_eq!(classify(""), None);
    assert_eq!(classify("Yes"), None);
    assert_eq!(classify("yes "), None);
    assert_eq!(classify("noise"), None);
    assert_eq!(classify("n"), None);
}

#[test]
fn state_keeps_the_latest_vote_of_each_voter() {
    let mut state = AggregateState::new();
    assert_eq!(state.counts(), (0, 0));
    state.record("alice", Choice::Yes, 10);
    assert_eq!(state.counts(), (1, 0));
    state.record("bob", Choice::No, 5);
    assert_eq!(state.counts(), (1, 1));
    // A later vote replaces.
    state.record("alice", Choice::No, 11);
    assert_eq!(state.counts(), (0, 2));
    // An equal timestamp does not.
    state.record("alice", Choice::Yes, 11);
    assert_eq!(state.counts(), (0, 2));
    // Nor does an earlier one.
    state.record("bob", Choice::Yes, 4);
    assert_eq!(state.counts(), (0, 2));
    // A later vote with the same choice changes no count.
    state.record("bob", Choice::No, 50);
    assert_eq!(state.counts(), (0, 2));
    state.record("bob", Choice::Yes, 51);
    assert_eq!(state.counts(), (1, 1));
}

#[test]
fn last_vote_wins() {
    let votes = vec![sealed("alice", "yes", 100001), sealed("alice", "no", 100002)];
    let result = tally_votes(SECRET, DAO, 1, &votes, &absolute(1)).unwrap();
    assert_eq!(result.yes_count, Some(0));
    assert_eq!(result.no_count, Some(1));
    assert_eq!(result.total_votes, 1);
}

#[test]
fn tie_keeps_the_first_vote() {
    let votes = vec![sealed("alice", "yes", 5000), sealed("alice", "no", 5000)];
    let result = tally_votes(SECRET, DAO, 1, &votes, &absolute(1)).unwrap();
    assert_eq!(result.yes_count, Some(1));
    assert_eq!(result.no_count, Some(0));
    assert_eq!(result.total_votes, 1);
}

#[test]
fn earlier_timestamp_listed_later_does_not_override() {
    let votes = vec![sealed("alice", "no", 300), sealed("alice", "yes", 200)];
    let result = tally_votes(SECRET, DAO, 1, &votes, &absolute(0)).unwrap();
    assert_eq!(result.yes_count, Some(0));
    assert_eq!(result.no_count, Some(1));
}

#[test]
fn dummy_ballots_are_not_counted() {
    let votes = vec![sealed("alice", "yes", 1), sealed("alice", "noise", 2)];
    let result = tally_votes(SECRET, DAO, 1, &votes, &absolute(1)).unwrap();
    assert_eq!(result.yes_count, Some(1));
    assert_eq!(result.no_count, Some(0));
    assert_eq!(result.total_votes, 1);
    assert_eq!(result.merkle_proofs.len(), 2);

    let only_dummies = vec![sealed("bob", "", 1), sealed("bob", "YES", 2)];
    let result = tally_votes(SECRET, DAO, 1, &only_dummies, &absolute(0)).unwrap();
    assert_eq!(result.yes_count, Some(0));
    assert_eq!(result.no_count, Some(0));
    assert_eq!(result.total_votes, 0);
}

#[test]
fn quorum_gates_the_counts() {
    let mut votes = vec![sealed("alice", "yes", 1), sealed("bob", "no", 2)];
    let gated = tally_votes(SECRET, DAO, 9, &votes, &absolute(3)).unwrap();
    assert_eq!(gated.proposal_id, 9);
    assert_eq!(gated.yes_count, None);
    assert_eq!(gated.no_count, None);
    assert_eq!(gated.total_votes, 0);
    assert_eq!(gated.merkle_proofs.len(), 2);
    assert_eq!(
        gated.tee_attestation,
        generate_tee_attestation(9, &gated.votes_merkle_root, 0, 0)
    );

    votes.push(sealed("carol", "yes", 3));
    let open = tally_votes(SECRET, DAO, 9, &votes, &absolute(3)).unwrap();
    assert_eq!(open.yes_count, Some(2));
    assert_eq!(open.no_count, Some(1));
    assert_eq!(open.total_votes, 3);
    assert_eq!(
        open.tee_attestation,
        generate_tee_attestation(9, &open.votes_merkle_root, 2, 1)
    );
}

#[test]
fn malformed_and_foreign_ballots_are_skipped() {
    let foreign = {
        // Sealed for bob, submitted as alice's.
        let mut vote = sealed("bob", "yes", 7);
        vote.user = "alice".to_string();
        vote
    };
    let votes = vec![
        create_test_vote("alice", "not hex", 1),
        create_test_vote("alice", "abc", 2),
        create_test_vote("alice", "", 3),
        create_test_vote("alice", "00ff", 4),
        foreign,
        sealed("carol", "no", 5),
    ];
    let result = tally_votes(SECRET, DAO, 1, &votes, &absolute(1)).unwrap();
    assert_eq!(result.yes_count, Some(0));
    assert_eq!(result.no_count, Some(1));
    assert_eq!(result.total_votes, 1);
    // Every ballot is committed to, counted or not.
    assert_eq!(result.merkle_proofs.len(), 6);
    let (root, _) = build_merkle_tree_with_proofs(&votes);
    assert_eq!(result.votes_merkle_root, root);
}

#[test]
fn reading_a_ballot_tells_votes_from_the_rest() {
    let read = |vote: &VoteData| read_ballot(SECRET, DAO, vote).unwrap();
    assert!(matches!(read(&sealed("alice", "yes", 1)), Reading::Vote(Choice::Yes)));
    assert!(matches!(read(&sealed("alice", "no", 1)), Reading::Vote(Choice::No)));
    assert!(matches!(read(&sealed("alice", "maybe", 1)), Reading::Dummy));
    assert!(matches!(read(&sealed("alice", "", 1)), Reading::Dummy));
    match read(&create_test_vote("alice", "zz", 1)) {
        Reading::Malformed { cause } => assert_eq!(cause, "Invalid character 'z' at position 0"),
        other => panic!("unexpected reading: {:?}", other),
    }
    match read(&create_test_vote("alice", "0", 1)) {
        Reading::Malformed { cause } => assert_eq!(cause, "Odd number of digits"),
        other => panic!("unexpected reading: {:?}", other),
    }
    // Well-formed text that holds no ciphertext.
    match read(&create_test_vote("alice", "00ff", 1)) {
        Reading::Undecryptable(error) => {
            assert_eq!(error.failure, CryptoFailure::DecryptionFailed)
        }
        other => panic!("unexpected reading: {:?}", other),
    }
    // Upper-case digits decode as well.
    let mut upper = sealed("alice", "yes", 1);
    upper.encrypted_vote = upper.encrypted_vote.to_uppercase();
    assert!(matches!(read(&upper), Reading::Vote(Choice::Yes)));
    // Another secret opens nothing.
    let foreign =
        read_ballot(b"another_secret_32_bytes_long!!!!", DAO, &sealed("alice", "yes", 1)).unwrap();
    assert!(matches!(foreign, Reading::Undecryptable(_)));
    // What opens but is no text.
    let public = derive_user_pubkey(SECRET, DAO, "alice").unwrap();
    let bytes = VoteData {
        user: "alice".to_string(),
        encrypted_vote: hex::encode(encrypt_vote(&public, &[0xff]).unwrap()),
        timestamp: 1,
    };
    match read(&bytes) {
        Reading::Undecryptable(error) => assert_eq!(error.failure, CryptoFailure::InvalidUtf8),
        other => panic!("unexpected reading: {:?}", other),
    }
}

#[test]
fn reordering_keeps_counts_and_changes_root() {
    let votes = vec![
        sealed("alice", "yes", 10),
        sealed("bob", "no", 20),
        sealed("alice", "no", 30),
        sealed("carol", "yes", 40),
        sealed("dave", "noise", 50),
    ];
    let mut reordered = votes.clone();
    reordered.reverse();
    let first = tally_votes(SECRET, DAO, 1, &votes, &absolute(1)).unwrap();
    let second = tally_votes(SECRET, DAO, 1, &reordered, &absolute(1)).unwrap();
    assert_eq!(first.yes_count, Some(1));
    assert_eq!(first.no_count, Some(2));
    assert_eq!(second.yes_count, first.yes_count);
    assert_eq!(second.no_count, first.no_count);
    assert_eq!(second.total_votes, first.total_votes);
    assert_ne!(second.votes_merkle_root, first.votes_merkle_root);
}

#[test]
fn unreadable_quorum_fails_the_tally() {
    let votes = vec![sealed("alice", "yes", 1)];
    let policy = QuorumPolicy::Unrecognized { reason: "unknown variant `Relative`".to_string() };
    match tally_votes(SECRET, DAO, 1, &votes, &policy) {
        Err(TallyError::InvalidQuorum { reason }) => {
            assert_eq!(reason, "unknown variant `Relative`")
        }
        other => panic!("unexpected outcome: {:?}", other),
    }
    let error = tally_votes(SECRET, DAO, 1, &[], &policy).unwrap_err();
    assert_eq!(error.message(), "Invalid quorum format: unknown variant `Relative`");
}

#[test]
fn quorum_is_met_from_the_threshold_on() {
    assert!(matches!(check_quorum(&absolute(3), 2), Ok(false)));
    assert!(matches!(check_quorum(&absolute(3), 3), Ok(true)));
    assert!(matches!(check_quorum(&absolute(3), 4), Ok(true)));
    assert!(matches!(check_quorum(&absolute(0), 0), Ok(true)));
    assert!(matches!(check_quorum(&absolute(u64::MAX), u32::MAX), Ok(false)));
    assert!(matches!(check_quorum(&absolute(4294967296), u32::MAX), Ok(false)));
    let policy = QuorumPolicy::Unrecognized { reason: "x".to_string() };
    assert!(matches!(check_quorum(&policy, 10), Err(TallyError::InvalidQuorum { .. })));
}

#[test]
fn attestation_has_the_expected_value() {
    let root = "5d5af2407c601ea18f72cab459cdd55e8c495f5899166eeb6e23b326e3e8b9b6";
    assert_eq!(
        generate_tee_attestation(42, root, 2, 1),
        "mvp-attestation:76dcf2aa3af5eb2bfa39ca7796c3a181f45b097b3bedf72d89012aaf5c3b83d6"
    );
    assert_eq!(
        generate_tee_attestation(42, root, 0, 0),
        "mvp-attestation:3c9000f205fe67165eff7d104d7896d0d6cdf0f62699324f22d6697d64dae434"
    );
    assert_eq!(
        generate_tee_attestation(7, "", 0, 0),
        "mvp-attestation:76108f84396dc2d72ce275fdb0e0ef37b229b2898bf5a31d576fea11a766a42b"
    );
    assert_eq!(generate_tee_attestation(u64::MAX, "root", u32::MAX, u32::MAX).len(), 80);
}

#[test]
fn disclosure_hides_everything_below_the_quorum() {
    let votes = vec![create_test_vote("alice", "abc", 1000), create_test_vote("bob", "def", 2000)];
    let open = disclose(42, &votes, 2, 1, true);
    assert_eq!(open.yes_count, Some(2));
    assert_eq!(open.no_count, Some(1));
    assert_eq!(open.total_votes, 3);
    assert_eq!(
        open.votes_merkle_root,
        "5d5af2407c601ea18f72cab459cdd55e8c495f5899166eeb6e23b326e3e8b9b6"
    );
    assert_eq!(
        open.tee_attestation,
        "mvp-attestation:76dcf2aa3af5eb2bfa39ca7796c3a181f45b097b3bedf72d89012aaf5c3b83d6"
    );
    let gated = disclose(42, &votes, 2, 1, false);
    assert_eq!(gated.yes_count, None);
    assert_eq!(gated.no_count, None);
    assert_eq!(gated.total_votes, 0);
    assert_eq!(gated.votes_merkle_root, open.votes_merkle_root);
    assert_eq!(
        gated.tee_attestation,
        "mvp-attestation:3c9000f205fe67165eff7d104d7896d0d6cdf0f62699324f22d6697d64dae434"
    );
    assert_eq!(gated.merkle_proofs.len(), 2);
}

#[test]
fn empty_tally_has_empty_commitment() {
    let result = tally_votes(SECRET, DAO, 7, &[], &absolute(0)).unwrap();
    assert_eq!(result.yes_count, Some(0));
    assert_eq!(result.no_count, Some(0));
    assert_eq!(result.total_votes, 0);
    assert_eq!(result.votes_merkle_root, "");
    assert!(result.merkle_proofs.is_empty());
    assert_eq!(
        result.tee_attestation,
        "mvp-attestation:76108f84396dc2d72ce275fdb0e0ef37b229b2898bf5a31d576fea11a766a42b"
    );
}

#[test]
fn tally_errors_have_messages() {
    let cause = CryptoError {
        failure: CryptoFailure::InvalidSecretKey,
        cause: "InvalidSecretKey".to_string(),
    };
    assert_eq!(
        TallyError::KeyDerivation(cause).message(),
        "Invalid secret key: InvalidSecretKey"
    );
    assert_eq!(TallyError::CountOverflow.message(), "More voters than a count can hold");
}

#[test]
fn only_ties_among_the_latest_votes_depend_on_order() {
    // A tie below the voter's latest vote: the order does not matter.
    let votes = vec![sealed("alice", "yes", 5), sealed("alice", "no", 5), sealed("alice", "yes", 9)];
    let mut reordered = votes.clone();
    reordered.reverse();
    let first = tally_votes(SECRET, DAO, 1, &votes, &absolute(1)).unwrap();
    let second = tally_votes(SECRET, DAO, 1, &reordered, &absolute(1)).unwrap();
    assert_eq!((first.yes_count, first.no_count), (Some(1), Some(0)));
    assert_eq!((second.yes_count, second.no_count), (Some(1), Some(0)));

    // A tie among the latest votes: the one listed first stands.
    let tied = vec![sealed("alice", "yes", 5000), sealed("alice", "no", 5000)];
    let mut swapped = tied.clone();
    swapped.reverse();
    let first = tally_votes(SECRET, DAO, 1, &tied, &absolute(1)).unwrap();
    let second = tally_votes(SECRET, DAO, 1, &swapped, &absolute(1)).unwrap();
    assert_eq!((first.yes_count, first.no_count), (Some(1), Some(0)));
    assert_eq!((second.yes_count, second.no_count), (Some(0), Some(1)));
}

#[test]
fn ballots_that_cannot_be_read_are_accounted_for() {
    let foreign = {
        let mut vote = sealed("bob", "yes", 7);
        vote.user = "alice".to_string();
        vote
    };
    let votes = vec![
        sealed("alice", "yes", 1),
        create_test_vote("bob", "not hex!", 2),
        sealed("carol", "noise", 3),
        foreign,
        create_test_vote("dave", "abc", 5),
        sealed("erin", "no", 6),
    ];
    let report = tally_votes_with_account(SECRET, DAO, 1, &votes, &absolute(1)).unwrap();
    assert_eq!(report.result.yes_count, Some(1));
    assert_eq!(report.result.no_count, Some(1));
    assert_eq!(report.result.merkle_proofs.len(), 6);
    // The dummy was read and is not reported.
    let indices: Vec<usize> = report.skipped.iter().map(|s| s.index).collect();
    assert_eq!(indices, vec![1, 3, 4]);
    assert_eq!(report.skipped[0].voter, "bob");
    assert_eq!(
        report.skipped[0].message(),
        "Failed to decode hex for vote from bob: Invalid character 'n' at position 0"
    );
    assert_eq!(report.skipped[1].voter, "alice");
    assert_eq!(
        report.skipped[1].message(),
        "Failed to decrypt vote from alice: ECIES decryption failed: Invalid message"
    );
    assert_eq!(
        report.skipped[2].message(),
        "Failed to decode hex for vote from dave: Odd number of digits"
    );

    let clean = tally_votes_with_account(SECRET, DAO, 1, &votes[..1], &absolute(1)).unwrap();
    assert!(clean.skipped.is_empty());
}
