use private_dao::crypto::{derive_user_pubkey, encrypt_vote};
use private_dao::request::{
    handle_derive_pubkey, handle_request, handle_tally_votes, master_secret_from_hex, Input,
    RequestError, Response,
};
use private_dao::tally::{QuorumPolicy, QuorumType, VoteData};

const SECRET: &[u8] = b"test_secret_32_bytes_long_xxxx!!";

fn input(action: &str) -> Input {
    Input {
        action: action.to_string(),
        dao_account: "dao.testnet".to_string(),
        user_account: None,
        proposal_id: None,
        votes: None,
        quorum: None,
    }
}

fn ballot(user: &str, text: &str, timestamp: u64) -> VoteData {
    let public = derive_user_pubkey(SECRET, "dao.testnet", user).unwrap();
    let ciphertext = encrypt_vote(&public, text.as_bytes()).unwrap();
    VoteData { user: user.to_string(), encrypted_vote: hex::encode(ciphertext), timestamp }
}

#[test]
fn master_secret_is_read_from_hex() {
    assert_eq!(master_secret_from_hex("0aFF10").unwrap(), vec![0x0a, 0xff, 0x10]);
    assert_eq!(master_secret_from_hex("").unwrap(), Vec::<u8>::new());
    assert_eq!(
        master_secret_from_hex("000102030405060708090a0b0c0d0e0f").unwrap(),
        (0u8..16).collect::<Vec<u8>>()
    );
    assert!(matches!(master_secret_from_hex("zz"), Err(RequestError::InvalidSecret { .. })));
    assert!(matches!(master_secret_from_hex("\u{e9}"), Err(RequestError::InvalidSecret { .. })));
    assert_eq!(
        master_secret_from_hex("abc").unwrap_err().message(),
        "Invalid DAO_MASTER_SECRET hex: Odd number of digits"
    );
    assert_eq!(
        master_secret_from_hex("0g").unwrap_err().message(),
        "Invalid DAO_MASTER_SECRET hex: Invalid character 'g' at position 1"
    );
}

#[test]
fn derive_request_answers_the_public_key_in_hex() {
    let mut request = input("derive_pubkey");
    request.user_account = Some("alice.testnet".to_string());
    let answer = handle_derive_pubkey(SECRET, &request).unwrap();
    let key = derive_user_pubkey(SECRET, "dao.testnet", "alice.testnet").unwrap();
    assert_eq!(answer.pubkey, hex::encode(&key));
    assert_eq!(answer.pubkey.len(), 66);
    assert!(answer.pubkey.starts_with("02") || answer.pubkey.starts_with("03"));
    assert_eq!(answer.pubkey, answer.pubkey.to_lowercase());
}

#[test]
fn derive_request_needs_a_voter() {
    let request = input("derive_pubkey");
    assert!(matches!(
        handle_derive_pubkey(SECRET, &request),
        Err(RequestError::MissingUserAccount)
    ));
}

#[test]
fn tally_request_reports_the_first_missing_field() {
    let mut request = input("tally_votes");
    assert!(matches!(
        handle_tally_votes(SECRET, &request),
        Err(RequestError::MissingProposalId)
    ));
    request.proposal_id = Some(3);
    assert!(matches!(handle_tally_votes(SECRET, &request), Err(RequestError::MissingVotes)));
    request.votes = Some(Vec::new());
    assert!(matches!(handle_tally_votes(SECRET, &request), Err(RequestError::MissingQuorum)));
    request.quorum = Some(QuorumPolicy::Known(QuorumType::Absolute { min_votes: 0 }));
    let report = handle_tally_votes(SECRET, &request).unwrap();
    assert_eq!(report.result.proposal_id, 3);
    assert_eq!(report.result.total_votes, 0);
    assert!(report.skipped.is_empty());
}

#[test]
fn tally_request_counts_the_ballots() {
    let mut request = input("tally_votes");
    request.proposal_id = Some(42);
    request.votes = Some(vec![
        ballot("alice.testnet", "yes", 1000),
        ballot("alice.testnet", "no", 2000),
        VoteData { user: "carol.testnet".to_string(), encrypted_vote: "xyz".to_string(), timestamp: 1 },
        ballot("bob.testnet", "yes", 1500),
    ]);
    request.quorum = Some(QuorumPolicy::Known(QuorumType::Absolute { min_votes: 2 }));
    let report = handle_tally_votes(SECRET, &request).unwrap();
    let tally = report.result;
    assert_eq!(tally.yes_count, Some(1));
    assert_eq!(tally.no_count, Some(1));
    assert_eq!(tally.total_votes, 2);
    assert_eq!(tally.merkle_proofs.len(), 4);
    assert_eq!(report.skipped.len(), 1);
    assert_eq!(report.skipped[0].index, 2);
    assert_eq!(
        report.skipped[0].message(),
        "Failed to decode hex for vote from carol.testnet: Odd number of digits"
    );
}

#[test]
fn tally_request_fails_on_unreadable_quorum() {
    let mut request = input("tally_votes");
    request.proposal_id = Some(42);
    request.votes = Some(vec![ballot("alice.testnet", "yes", 1000)]);
    request.quorum = Some(QuorumPolicy::Unrecognized { reason: "missing field".to_string() });
    match handle_tally_votes(SECRET, &request) {
        Err(RequestError::InvalidQuorum { reason }) => assert_eq!(reason, "missing field"),
        other => panic!("unexpected outcome: {:?}", other),
    }
}

#[test]
fn requests_are_dispatched_by_action() {
    let mut derive = input("derive_pubkey");
    derive.user_account = Some("alice.testnet".to_string());
    match handle_request(SECRET, &derive) {
        Ok(Response::PublicKey(key)) => assert_eq!(key.pubkey.len(), 66),
        other => panic!("unexpected outcome: {:?}", other),
    }
    let mut tally = input("tally_votes");
    tally.proposal_id = Some(1);
    tally.votes = Some(vec![ballot("alice.testnet", "yes", 1)]);
    tally.quorum = Some(QuorumPolicy::Known(QuorumType::Absolute { min_votes: 1 }));
    match handle_request(SECRET, &tally) {
        Ok(Response::Tally(report)) => assert_eq!(report.result.yes_count, Some(1)),
        other => panic!("unexpected outcome: {:?}", other),
    }
    match handle_request(SECRET, &input("recount")) {
        Err(RequestError::UnknownAction { action }) => assert_eq!(action, "recount"),
        other => panic!("unexpected outcome: {:?}", other),
    }
    assert!(matches!(
        handle_request(SECRET, &input("tally_votes")),
        Err(RequestError::MissingProposalId)
    ));
    assert!(matches!(
        handle_request(SECRET, &input("derive_pubkey")),
        Err(RequestError::MissingUserAccount)
    ));
}

#[test]
fn request_errors_have_messages() {
    assert_eq!(RequestError::MissingUserAccount.message(), "Missing user_account");
    assert_eq!(RequestError::MissingProposalId.message(), "Missing proposal_id");
    assert_eq!(RequestError::MissingVotes.message(), "Missing votes");
    assert_eq!(RequestError::MissingQuorum.message(), "Missing quorum");
    assert_eq!(RequestError::CountOverflow.message(), "More voters than a count can hold");
    assert_eq!(
        RequestError::UnknownAction { action: "recount".to_string() }.message(),
        "Unknown action: recount"
    );
    assert_eq!(
        RequestError::InvalidQuorum { reason: "missing field".to_string() }.message(),
        "Invalid quorum format: missing field"
    );
}
