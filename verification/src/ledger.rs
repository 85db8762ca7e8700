//! The rules of the ledger that holds members, proposals and ballots.
//!
//! The ledger's storage and its calls to the engine belong to its host. What
//! is stated here is what the ledger decides: from what the host read for it
//! and what the caller sent, whether a call is accepted, and what is to be
//! stored if it is.

use crate::request::{DeriveKeyResponse, Input};
use crate::tally::{ballots_of, Ballot, QuorumPolicy, QuorumType, VoteData};
use vstd::prelude::*;
use vstd::string::StringExecFns;

verus! {

/// What a call to the engine must bring, in the ledger's smallest unit.
pub const MIN_OUTLAYER_DEPOSIT: u128 = 10_000_000_000_000_000_000_000;

/// What the storage of one member costs.
pub const STORAGE_DEPOSIT_PER_MEMBER: u128 = 2_000_000_000_000_000_000_000;

/// What the storage of one ballot costs.
pub const STORAGE_DEPOSIT_PER_VOTE: u128 = 2_000_000_000_000_000_000_000;

/// What the storage of one proposal costs.
pub const STORAGE_DEPOSIT_PER_PROPOSAL: u128 = 1_000_000_000_000_000_000_000;

/// Who may join.
#[derive(Clone, Copy, PartialEq, Eq, Structural, Debug)]
pub enum MembershipMode {
    /// Anyone.
    Public,
    /// Those whom the owner has added.
    Private,
}

/// What the ledger keeps of a member.
#[derive(Clone, Copy, PartialEq, Eq, Structural, Debug)]
pub struct MemberInfo {
    /// When the member joined; zero for members from before proposals had a
    /// creation time.
    pub joined_at: u64,
}

/// One ballot as the ledger stores it.
#[derive(Clone, Debug)]
pub struct Vote {
    pub user: String,
    pub encrypted_vote: String,
    pub timestamp: u64,
}

impl View for Vote {
    type V = Ballot;

    open spec fn view(&self) -> Ballot {
        Ballot { voter: self.user@, ciphertext: self.encrypted_vote@, timestamp: self.timestamp }
    }
}

/// The models of a list of stored ballots.
pub open spec fn stored_ballots(votes: Seq<Vote>) -> Seq<Ballot> {
    Seq::new(votes.len(), |i: int| votes[i]@)
}

/// What anyone may know of the ledger.
#[derive(Clone, Debug)]
pub struct DAOInfo {
    pub name: String,
    pub owner: String,
    pub membership_mode: MembershipMode,
    pub member_count: u64,
}

/// What came back from one run of the engine: whether it succeeded, its
/// answer as far as it could be read, and its complaint.
#[derive(Debug)]
pub struct OutLayerResponse<T> {
    pub success: bool,
    pub result: Result<T, String>,
    pub error: Option<String>,
}

/// Why the ledger refuses a call.
#[derive(Clone, Debug)]
pub enum Refusal {
    AlreadyInitialized,
    AlreadyMember,
    InvitationOnly,
    JoinDepositTooLow,
    NotOwner,
    PublicMembership,
    NotMember,
    StateUnreadable,
    NotOwnerOfState,
    NotPreApproved,
    AlreadyJoined,
    ExecutionDepositTooLow,
    ProposerNotMember,
    ProposalDepositTooLow,
    DeadlineNotInFuture,
    InvalidMemberTimestamp,
    VoterNotMember,
    JoinIncomplete,
    VoteDepositTooLow,
    ProposalNotFound,
    JoinedAfterProposal,
    ProposalNotActive,
    VotingClosed,
    NoVotes,
    /// A counter of the ledger cannot go higher.
    CounterOverflow,
    /// The member counter stands at zero.
    CounterUnderflow,
    /// The engine answered a yes count without a no count.
    IncompleteTally,
    /// The engine ran and reported a failure.
    ExecutionError { message: String },
    /// The engine's answer could not be read.
    InvalidResult { reason: String },
    /// The engine gave no answer to a key derivation.
    KeyDerivationFailed,
    /// The engine gave no answer to a tally.
    TallyFailed,
    /// The call to the engine did not complete.
    PromiseFailed { reason: String },
}

impl Refusal {
    /// What the refusal says to the caller.
    pub open spec fn message_text(self) -> Seq<char> {
        match self {
            Refusal::AlreadyInitialized => "Already initialized"@,
            Refusal::AlreadyMember => "Already a member"@,
            Refusal::InvitationOnly => "Private DAO: join by invitation only"@,
            Refusal::JoinDepositTooLow => "Minimum deposit is 12000000000000000000000 yoctoNEAR (storage + OutLayer execution)"@,
            Refusal::NotOwner => "Only owner can call this method"@,
            Refusal::PublicMembership => "Public DAO: users join directly"@,
            Refusal::NotMember => "Not a member"@,
            Refusal::StateUnreadable => "Failed to read state"@,
            Refusal::NotOwnerOfState => "Only owner can migrate"@,
            Refusal::NotPreApproved => "Not pre-approved. Contact DAO owner."@,
            Refusal::AlreadyJoined => "Already completed join"@,
            Refusal::ExecutionDepositTooLow => "Minimum deposit is 10000000000000000000000 yoctoNEAR for OutLayer execution"@,
            Refusal::ProposerNotMember => "Only members can create proposals"@,
            Refusal::ProposalDepositTooLow => "Minimum deposit is 0.001 NEAR for storage"@,
            Refusal::DeadlineNotInFuture => "Deadline must be in the future"@,
            Refusal::InvalidMemberTimestamp => "Invalid member timestamp"@,
            Refusal::VoterNotMember => "Only members can vote"@,
            Refusal::JoinIncomplete => "Complete join first to derive encryption key"@,
            Refusal::VoteDepositTooLow => "Minimum deposit is 2000000000000000000000 yoctoNEAR for vote storage"@,
            Refusal::ProposalNotFound => "Proposal not found"@,
            Refusal::JoinedAfterProposal => "Cannot vote on proposals created before you joined"@,
            Refusal::ProposalNotActive => "Proposal is not active"@,
            Refusal::VotingClosed => "Voting deadline has passed"@,
            Refusal::NoVotes => "No votes to tally. Wait for at least one vote."@,
            Refusal::CounterOverflow => "Counter cannot go higher"@,
            Refusal::CounterUnderflow => "Member count is already zero"@,
            Refusal::IncompleteTally => "Tally has a yes count but no no count"@,
            Refusal::ExecutionError { message } => "OutLayer error: "@ + message@,
            Refusal::InvalidResult { reason } => "Invalid result format: "@ + reason@,
            Refusal::KeyDerivationFailed => "Failed to derive encryption key"@,
            Refusal::TallyFailed => "Failed to tally votes"@,
            Refusal::PromiseFailed { reason } => "Promise error: "@ + reason@,
        }
    }

    /// What the refusal says to the caller.
    pub fn message(&self) -> (text: String)
        ensures
            text@ == self.message_text(),
    {
        match self {
            Refusal::AlreadyInitialized => String::from_str("Already initialized"),
            Refusal::AlreadyMember => String::from_str("Already a member"),
            Refusal::InvitationOnly => String::from_str("Private DAO: join by invitation only"),
            Refusal::JoinDepositTooLow => String::from_str(
                "Minimum deposit is 12000000000000000000000 yoctoNEAR (storage + OutLayer execution)",
            ),
            Refusal::NotOwner => String::from_str("Only owner can call this method"),
            Refusal::PublicMembership => String::from_str("Public DAO: users join directly"),
            Refusal::NotMember => String::from_str("Not a member"),
            Refusal::StateUnreadable => String::from_str("Failed to read state"),
            Refusal::NotOwnerOfState => String::from_str("Only owner can migrate"),
            Refusal::NotPreApproved => String::from_str("Not pre-approved. Contact DAO owner."),
            Refusal::AlreadyJoined => String::from_str("Already completed join"),
            Refusal::ExecutionDepositTooLow => String::from_str(
                "Minimum deposit is 10000000000000000000000 yoctoNEAR for OutLayer execution",
            ),
            Refusal::ProposerNotMember => String::from_str("Only members can create proposals"),
            Refusal::ProposalDepositTooLow => String::from_str(
                "Minimum deposit is 0.001 NEAR for storage",
            ),
            Refusal::DeadlineNotInFuture => String::from_str("Deadline must be in the future"),
            Refusal::InvalidMemberTimestamp => String::from_str("Invalid member timestamp"),
            Refusal::VoterNotMember => String::from_str("Only members can vote"),
            Refusal::JoinIncomplete => String::from_str(
                "Complete join first to derive encryption key",
            ),
            Refusal::VoteDepositTooLow => String::from_str(
                "Minimum deposit is 2000000000000000000000 yoctoNEAR for vote storage",
            ),
            Refusal::ProposalNotFound => String::from_str("Proposal not found"),
            Refusal::JoinedAfterProposal => String::from_str(
                "Cannot vote on proposals created before you joined",
            ),
            Refusal::ProposalNotActive => String::from_str("Proposal is not active"),
            Refusal::VotingClosed => String::from_str("Voting deadline has passed"),
            Refusal::NoVotes => String::from_str("No votes to tally. Wait for at least one vote."),
            Refusal::CounterOverflow => String::from_str("Counter cannot go higher"),
            Refusal::CounterUnderflow => String::from_str("Member count is already zero"),
            Refusal::IncompleteTally => String::from_str("Tally has a yes count but no no count"),
            Refusal::ExecutionError { message } => {
                let mut text = String::from_str("OutLayer error: ");
                text.append(message.as_str());
                text
            },
            Refusal::InvalidResult { reason } => {
                let mut text = String::from_str("Invalid result format: ");
                text.append(reason.as_str());
                text
            },
            Refusal::KeyDerivationFailed => String::from_str("Failed to derive encryption key"),
            Refusal::TallyFailed => String::from_str("Failed to tally votes"),
            Refusal::PromiseFailed { reason } => {
                let mut text = String::from_str("Promise error: ");
                text.append(reason.as_str());
                text
            },
        }
    }
}

/// Where a proposal stands.
#[derive(Clone, Copy, PartialEq, Eq, Structural, Debug)]
pub enum ProposalStatus {
    Active,
    Passed,
    Rejected,
}

/// The inclusion proof of one ballot, as the ledger keeps it.
#[derive(Clone, Debug)]
pub struct MerkleProof {
    pub voter: String,
    pub vote_index: u64,
    pub vote_hash: String,
    pub proof_path: Vec<String>,
    pub timestamp: u64,
}

/// The model of an inclusion proof that the ledger keeps.
pub struct MerkleProofView {
    pub voter: Seq<char>,
    pub vote_index: u64,
    pub vote_hash: Seq<char>,
    pub proof_path: Seq<Seq<char>>,
    pub timestamp: u64,
}

impl View for MerkleProof {
    type V = MerkleProofView;

    open spec fn view(&self) -> MerkleProofView {
        MerkleProofView {
            voter: self.voter@,
            vote_index: self.vote_index,
            vote_hash: self.vote_hash@,
            proof_path: self.proof_path.deep_view(),
            timestamp: self.timestamp,
        }
    }
}

/// The models of a list of inclusion proofs.
pub open spec fn proofs_of(proofs: Seq<MerkleProof>) -> Seq<MerkleProofView> {
    Seq::new(proofs.len(), |i: int| proofs[i]@)
}

/// A tally as the engine answers it.
#[derive(Clone, Debug)]
pub struct TallyResponse {
    pub proposal_id: u64,
    /// Present only where the quorum was met.
    pub yes_count: Option<u64>,
    /// Present only where the quorum was met.
    pub no_count: Option<u64>,
    pub total_votes: u64,
    pub tee_attestation: String,
    pub votes_merkle_root: String,
    pub merkle_proofs: Vec<MerkleProof>,
}

/// A tally as the ledger keeps it with its proposal.
#[derive(Clone, Debug)]
pub struct TallyResult {
    pub quorum_met: bool,
    /// Present only where the quorum was met.
    pub yes_count: Option<u64>,
    /// Present only where the quorum was met.
    pub no_count: Option<u64>,
    pub total_votes: u64,
    pub tee_attestation: String,
    pub votes_merkle_root: String,
    pub merkle_proofs: Vec<MerkleProof>,
}

/// A proposal that members vote on.
#[derive(Clone, Debug)]
pub struct Proposal {
    pub id: u64,
    pub title: String,
    pub description: String,
    pub creator: String,
    pub created_at: u64,
    /// When voting ends, if it ever does.
    pub deadline: Option<u64>,
    pub quorum: QuorumType,
    pub status: ProposalStatus,
    pub tally_result: Option<TallyResult>,
}

/// Whether the deadline of a proposal has passed at `now`. A proposal
/// without a deadline never runs out.
pub open spec fn deadline_passed(deadline: Option<u64>, now: u64) -> bool {
    match deadline {
        Some(end) => now >= end,
        None => false,
    }
}

/// Where a proposal stands once `response` has come back at `now`. With the
/// quorum met it passes if more voters said yes than no, and is rejected
/// otherwise. With the quorum unmet it is rejected once its deadline has
/// passed, and stays as it is before that.
pub open spec fn settled_status(
    status: ProposalStatus,
    deadline: Option<u64>,
    now: u64,
    response: TallyResponse,
) -> ProposalStatus {
    if response.yes_count is Some {
        if response.yes_count->0 > response.no_count->0 {
            ProposalStatus::Passed
        } else {
            ProposalStatus::Rejected
        }
    } else if deadline_passed(deadline, now) {
        ProposalStatus::Rejected
    } else {
        status
    }
}

/// The tally that the ledger keeps of `response`: counts only where the
/// quorum was met.
pub open spec fn kept_tally(response: TallyResponse) -> TallyResult {
    TallyResult {
        quorum_met: response.yes_count is Some,
        yes_count: if response.yes_count is Some {
            response.yes_count
        } else {
            None
        },
        no_count: if response.yes_count is Some {
            response.no_count
        } else {
            None
        },
        total_votes: response.total_votes,
        tee_attestation: response.tee_attestation,
        votes_merkle_root: response.votes_merkle_root,
        merkle_proofs: response.merkle_proofs,
    }
}

/// Whether `response` holds a no count wherever it holds a yes count.
pub open spec fn is_complete(response: TallyResponse) -> bool {
    response.yes_count is Some ==> response.no_count is Some
}

/// Whether `after` is `before` settled with `response` at `now`: status and
/// tally are set, all else stays.
pub open spec fn settles(
    before: Proposal,
    response: TallyResponse,
    now: u64,
    after: Proposal,
) -> bool {
    after == (Proposal {
        status: settled_status(before.status, before.deadline, now, response),
        tally_result: Some(kept_tally(response)),
        ..before
    })
}

/// The proofs among `proofs` that belong to `voter`, in their order.
pub open spec fn proofs_of_voter(proofs: Seq<MerkleProofView>, voter: Seq<char>) -> Seq<
    MerkleProofView,
> {
    proofs.filter(|proof: MerkleProofView| proof.voter == voter)
}

/// A copy of `path`.
fn copy_path(path: &Vec<String>) -> (copy: Vec<String>)
    ensures
        copy@ == path@,
        copy.deep_view() == path.deep_view(),
{
    let mut copy: Vec<String> = Vec::new();
    let mut i: usize = 0;
    while i < path.len()
        invariant
            i <= path@.len(),
            copy@ == path@.take(i as int),
        decreases path@.len() - i,
    {
        copy.push(path[i].clone());
        i += 1;
        assert(copy@ =~= path@.take(i as int));
    }
    assert(path@.take(i as int) =~= path@);
    assert(copy.deep_view() =~= path.deep_view());
    copy
}

impl Proposal {
    /// Settles the proposal with the tally that came back at `now`.
    pub fn record_tally(&mut self, response: TallyResponse, now: u64)
        requires
            is_complete(response),
        ensures
            settles(*old(self), response, now, *final(self)),
    {
        match response.yes_count {
            Some(yes_count) => {
                let no_count = response.no_count.unwrap();
                self.status = if yes_count > no_count {
                    ProposalStatus::Passed
                } else {
                    ProposalStatus::Rejected
                };
                self.tally_result = Some(
                    TallyResult {
                        quorum_met: true,
                        yes_count: Some(yes_count),
                        no_count: Some(no_count),
                        total_votes: response.total_votes,
                        tee_attestation: response.tee_attestation,
                        votes_merkle_root: response.votes_merkle_root,
                        merkle_proofs: response.merkle_proofs,
                    },
                );
            },
            None => {
                let passed = match self.deadline {
                    Some(end) => now >= end,
                    None => false,
                };
                if passed {
                    self.status = ProposalStatus::Rejected;
                }
                self.tally_result = Some(
                    TallyResult {
                        quorum_met: false,
                        yes_count: None,
                        no_count: None,
                        total_votes: response.total_votes,
                        tee_attestation: response.tee_attestation,
                        votes_merkle_root: response.votes_merkle_root,
                        merkle_proofs: response.merkle_proofs,
                    },
                );
            },
        }
    }

    /// The inclusion proofs of the ballots that `account_id` submitted:
    /// none before the proposal has a tally.
    pub fn vote_proofs(&self, account_id: &str) -> (proofs: Vec<MerkleProof>)
        ensures
            proofs_of(proofs@) == match self.tally_result {
                Some(tally) => proofs_of_voter(proofs_of(tally.merkle_proofs@), account_id@),
                None => Seq::<MerkleProofView>::empty(),
            },
    {
        let mut proofs: Vec<MerkleProof> = Vec::new();
        match &self.tally_result {
            None => {},
            Some(tally) => {
                let account = account_id.to_owned();
                let all = &tally.merkle_proofs;
                let mut i: usize = 0;
                let ghost given = proofs_of(all@);
                proof {
                    assert(given.take(0) =~= Seq::<MerkleProofView>::empty());
                    reveal(Seq::filter);
                    assert(proofs_of(proofs@) =~= proofs_of_voter(given.take(0), account_id@));
                }
                while i < all.len()
                    invariant
                        i <= all@.len(),
                        account@ == account_id@,
                        given == proofs_of(all@),
                        proofs_of(proofs@) == proofs_of_voter(given.take(i as int), account_id@),
                    decreases all@.len() - i,
                {
                    let proof = &all[i];
                    let ghost before = proofs_of(proofs@);
                    proof {
                        reveal(Seq::filter);
                        assert(given.take(i + 1).drop_last() =~= given.take(i as int));
                        assert(given.take(i + 1).last() == proof@);
                    }
                    if proof.voter == account {
                        proofs.push(
                            MerkleProof {
                                voter: proof.voter.clone(),
                                vote_index: proof.vote_index,
                                vote_hash: proof.vote_hash.clone(),
                                proof_path: copy_path(&proof.proof_path),
                                timestamp: proof.timestamp,
                            },
                        );
                    }
                    proof {
                        if proof.voter@ == account_id@ {
                            assert(proofs_of(proofs@) =~= before.push(proof@));
                        } else {
                            assert(proofs_of(proofs@) =~= before);
                        }
                    }
                    i += 1;
                }
                assert(given.take(i as int) =~= given);
            },
        }
        assert(self.tally_result is None ==> proofs_of(proofs@) =~= Seq::<
            MerkleProofView,
        >::empty());
        proofs
    }
}

/// The ledger's own record: who owns it, who may join, and its counters.
/// The members, keys, proposals and ballots are kept by the host.
#[derive(Clone, Debug)]
pub struct PrivateDAO {
    pub owner: String,
    pub name: String,
    pub membership_mode: MembershipMode,
    /// The number of members, as counted by the calls that add and remove
    /// them.
    pub member_count: u64,
    /// The identifier that the next proposal gets.
    pub next_proposal_id: u64,
}

/// What is to be stored once a voter's key has come back.
#[derive(Clone, Debug)]
pub struct KeyDerived {
    /// The voter's public key.
    pub pubkey: String,
    /// The member record to add, where the voter was none yet.
    pub joined: Option<MemberInfo>,
}

/// The engine's answer, where the run succeeded and the answer could be
/// read.
pub open spec fn answer_of<T>(result: Result<Option<OutLayerResponse<T>>, String>) -> Option<T> {
    match result {
        Ok(Some(response)) => if response.success {
            match response.result {
                Ok(answer) => Some(answer),
                Err(_) => None,
            }
        } else {
            None
        },
        _ => None,
    }
}

/// Whether `refusal` is what a run without a readable answer is refused
/// with. A failed run is reported with its complaint before its answer is
/// looked at.
pub open spec fn refuses_execution<T>(
    result: Result<Option<OutLayerResponse<T>>, String>,
    for_key: bool,
    refusal: Refusal,
) -> bool {
    match result {
        Err(reason) => refusal matches Refusal::PromiseFailed { reason: r } && r@ == reason@,
        Ok(None) => if for_key {
            refusal matches Refusal::KeyDerivationFailed
        } else {
            refusal matches Refusal::TallyFailed
        },
        Ok(Some(response)) => if !response.success {
            refusal matches Refusal::ExecutionError { message } && message@ == match response.error
            {
                Some(complaint) => complaint@,
                None => "Unknown error"@,
            }
        } else {
            match response.result {
                Err(reason) => refusal matches Refusal::InvalidResult { reason: r } && r@
                    == reason@,
                Ok(_) => false,
            }
        },
    }
}

/// Whether what came back from the engine holds an answer that could be
/// read.
pub fn has_answer<T>(result: &Result<Option<OutLayerResponse<T>>, String>) -> (answered: bool)
    ensures
        answered == answer_of(*result) is Some,
{
    match result {
        Ok(Some(response)) => response.success && response.result.is_ok(),
        _ => false,
    }
}

/// Takes the answer out of what came back from the engine.
pub fn take_answer<T>(
    result: Result<Option<OutLayerResponse<T>>, String>,
    for_key: bool,
) -> (answer: Result<T, Refusal>)
    ensures
        match answer {
            Ok(a) => answer_of(result) == Some(a),
            Err(refusal) => answer_of(result) is None && refuses_execution(
                result,
                for_key,
                refusal,
            ),
        },
{
    match result {
        Err(reason) => Err(Refusal::PromiseFailed { reason }),
        Ok(None) => if for_key {
            Err(Refusal::KeyDerivationFailed)
        } else {
            Err(Refusal::TallyFailed)
        },
        Ok(Some(response)) => {
            if !response.success {
                let message = match response.error {
                    Some(complaint) => complaint,
                    None => String::from_str("Unknown error"),
                };
                Err(Refusal::ExecutionError { message })
            } else {
                match response.result {
                    Ok(answer) => Ok(answer),
                    Err(reason) => Err(Refusal::InvalidResult { reason }),
                }
            }
        },
    }
}

/// Whether `a` and `b` are the same text.
fn same_text(a: &str, b: &String) -> (same: bool)
    ensures
        same == (a@ == b@),
{
    let owned = a.to_owned();
    owned == *b
}

/// Whether a new member may join by itself.
pub open spec fn join_refusal(
    mode: MembershipMode,
    membership: Option<MemberInfo>,
    attached: u128,
) -> Option<Refusal> {
    if membership is Some {
        Some(Refusal::AlreadyMember)
    } else if mode == MembershipMode::Private {
        Some(Refusal::InvitationOnly)
    } else if attached < STORAGE_DEPOSIT_PER_MEMBER + MIN_OUTLAYER_DEPOSIT {
        Some(Refusal::JoinDepositTooLow)
    } else {
        None
    }
}

/// Whether a member whom the owner has added may get its key.
pub open spec fn complete_join_refusal(
    membership: Option<MemberInfo>,
    has_pubkey: bool,
    attached: u128,
) -> Option<Refusal> {
    if membership is None {
        Some(Refusal::NotPreApproved)
    } else if has_pubkey {
        Some(Refusal::AlreadyJoined)
    } else if attached < MIN_OUTLAYER_DEPOSIT {
        Some(Refusal::ExecutionDepositTooLow)
    } else {
        None
    }
}

/// Whether a member may create a proposal at `now`.
pub open spec fn proposal_refusal(
    membership: Option<MemberInfo>,
    attached: u128,
    deadline: Option<u64>,
    now: u64,
) -> Option<Refusal> {
    if membership is None {
        Some(Refusal::ProposerNotMember)
    } else if attached < STORAGE_DEPOSIT_PER_PROPOSAL {
        Some(Refusal::ProposalDepositTooLow)
    } else if deadline is Some && deadline->0 <= now {
        Some(Refusal::DeadlineNotInFuture)
    } else if membership->0.joined_at > now {
        Some(Refusal::InvalidMemberTimestamp)
    } else {
        None
    }
}

/// Whether a ballot is accepted at `now`. A member votes only on proposals
/// created after it joined, while they are active and before their deadline.
pub open spec fn vote_refusal(
    membership: Option<MemberInfo>,
    has_pubkey: bool,
    attached: u128,
    proposal: Option<Proposal>,
    now: u64,
) -> Option<Refusal> {
    if membership is None {
        Some(Refusal::VoterNotMember)
    } else if !has_pubkey {
        Some(Refusal::JoinIncomplete)
    } else if attached < STORAGE_DEPOSIT_PER_VOTE {
        Some(Refusal::VoteDepositTooLow)
    } else if proposal is None {
        Some(Refusal::ProposalNotFound)
    } else if membership->0.joined_at > 0 && membership->0.joined_at >= proposal->0.created_at {
        Some(Refusal::JoinedAfterProposal)
    } else if proposal->0.status != ProposalStatus::Active {
        Some(Refusal::ProposalNotActive)
    } else if proposal->0.deadline is Some && now >= proposal->0.deadline->0 {
        Some(Refusal::VotingClosed)
    } else {
        None
    }
}

/// Whether a proposal with `vote_count` ballots may be tallied.
pub open spec fn finalize_refusal(
    attached: u128,
    proposal: Option<Proposal>,
    vote_count: u64,
) -> Option<Refusal> {
    if attached < MIN_OUTLAYER_DEPOSIT {
        Some(Refusal::ExecutionDepositTooLow)
    } else if proposal is None {
        Some(Refusal::ProposalNotFound)
    } else if proposal->0.status != ProposalStatus::Active {
        Some(Refusal::ProposalNotActive)
    } else if vote_count == 0 {
        Some(Refusal::NoVotes)
    } else {
        None
    }
}

/// The model of an outcome: the refusal, if the call is refused.
pub open spec fn refusal_of<T>(outcome: Result<T, Refusal>) -> Option<Refusal> {
    match outcome {
        Ok(_) => None,
        Err(refusal) => Some(refusal),
    }
}

impl PrivateDAO {
    /// Sets the ledger up with its owner as first member.
    pub fn new(
        name: String,
        membership_mode: MembershipMode,
        owner: String,
        state_exists: bool,
        now: u64,
    ) -> (outcome: Result<(PrivateDAO, MemberInfo), Refusal>)
        ensures
            match outcome {
                Err(refusal) => state_exists && refusal matches Refusal::AlreadyInitialized,
                Ok((dao, first)) => !state_exists && dao == (PrivateDAO {
                    owner,
                    name,
                    membership_mode,
                    member_count: 1,
                    next_proposal_id: 1,
                }) && first == (MemberInfo { joined_at: now }),
            },
    {
        if state_exists {
            Err(Refusal::AlreadyInitialized)
        } else {
            Ok(
                (
                    PrivateDAO {
                        owner,
                        name,
                        membership_mode,
                        member_count: 1,
                        next_proposal_id: 1,
                    },
                    MemberInfo { joined_at: now },
                ),
            )
        }
    }

    /// Decides whether the caller, of whom the host holds `membership`, may
    /// join with `attached` as deposit. The member is added only once its
    /// key has come back.
    pub fn join_dao(&self, membership: Option<MemberInfo>, attached: u128) -> (outcome: Result<
        (),
        Refusal,
    >)
        ensures
            refusal_of(outcome) == join_refusal(self.membership_mode, membership, attached),
    {
        if membership.is_some() {
            Err(Refusal::AlreadyMember)
        } else if self.membership_mode == MembershipMode::Private {
            Err(Refusal::InvitationOnly)
        } else if attached < STORAGE_DEPOSIT_PER_MEMBER + MIN_OUTLAYER_DEPOSIT {
            Err(Refusal::JoinDepositTooLow)
        } else {
            Ok(())
        }
    }

    /// Adds a member on the owner's word, where joining is by invitation.
    pub fn add_member(
        &mut self,
        caller: &str,
        membership: Option<MemberInfo>,
        now: u64,
    ) -> (outcome: Result<MemberInfo, Refusal>)
        ensures
            refusal_of(outcome) == if caller@ != old(self).owner@ {
                Some(Refusal::NotOwner)
            } else if old(self).membership_mode == MembershipMode::Public {
                Some(Refusal::PublicMembership)
            } else if membership is Some {
                Some(Refusal::AlreadyMember)
            } else if old(self).member_count == u64::MAX {
                Some(Refusal::CounterOverflow)
            } else {
                None
            },
            outcome matches Ok(added) ==> added == (MemberInfo { joined_at: now }),
            *final(self) == (PrivateDAO {
                member_count: if outcome is Ok {
                    (old(self).member_count + 1) as u64
                } else {
                    old(self).member_count
                },
                ..*old(self)
            }),
    {
        if !same_text(caller, &self.owner) {
            Err(Refusal::NotOwner)
        } else if self.membership_mode == MembershipMode::Public {
            Err(Refusal::PublicMembership)
        } else if membership.is_some() {
            Err(Refusal::AlreadyMember)
        } else if self.member_count == u64::MAX {
            Err(Refusal::CounterOverflow)
        } else {
            self.member_count = self.member_count + 1;
            Ok(MemberInfo { joined_at: now })
        }
    }

    /// Lets the caller, of whom the host holds `membership`, leave.
    pub fn leave_dao(&mut self, membership: Option<MemberInfo>) -> (outcome: Result<(), Refusal>)
        ensures
            refusal_of(outcome) == if membership is None {
                Some(Refusal::NotMember)
            } else if old(self).member_count == 0 {
                Some(Refusal::CounterUnderflow)
            } else {
                None
            },
            *final(self) == (PrivateDAO {
                member_count: if outcome is Ok {
                    (old(self).member_count - 1) as u64
                } else {
                    old(self).member_count
                },
                ..*old(self)
            }),
    {
        if membership.is_none() {
            Err(Refusal::NotMember)
        } else if self.member_count == 0 {
            Err(Refusal::CounterUnderflow)
        } else {
            self.member_count = self.member_count - 1;
            Ok(())
        }
    }

    /// Removes a member on the owner's word.
    pub fn remove_member(&mut self, caller: &str, membership: Option<MemberInfo>) -> (outcome:
        Result<(), Refusal>)
        ensures
            refusal_of(outcome) == if caller@ != old(self).owner@ {
                Some(Refusal::NotOwner)
            } else if membership is None {
                Some(Refusal::NotMember)
            } else if old(self).member_count == 0 {
                Some(Refusal::CounterUnderflow)
            } else {
                None
            },
            *final(self) == (PrivateDAO {
                member_count: if outcome is Ok {
                    (old(self).member_count - 1) as u64
                } else {
                    old(self).member_count
                },
                ..*old(self)
            }),
    {
        if !same_text(caller, &self.owner) {
            Err(Refusal::NotOwner)
        } else if membership.is_none() {
            Err(Refusal::NotMember)
        } else if self.member_count == 0 {
            Err(Refusal::CounterUnderflow)
        } else {
            self.member_count = self.member_count - 1;
            Ok(())
        }
    }

    /// Adds, on the owner's word, a member who may vote on every proposal.
    /// The member is counted whether or not the host held it before.
    pub fn migrate_add_member(&mut self, caller: &str) -> (outcome: Result<MemberInfo, Refusal>)
        ensures
            refusal_of(outcome) == if caller@ != old(self).owner@ {
                Some(Refusal::NotOwner)
            } else if old(self).member_count == u64::MAX {
                Some(Refusal::CounterOverflow)
            } else {
                None
            },
            outcome matches Ok(added) ==> added == (MemberInfo { joined_at: 0 }),
            *final(self) == (PrivateDAO {
                member_count: if outcome is Ok {
                    (old(self).member_count + 1) as u64
                } else {
                    old(self).member_count
                },
                ..*old(self)
            }),
    {
        if !same_text(caller, &self.owner) {
            Err(Refusal::NotOwner)
        } else if self.member_count == u64::MAX {
            Err(Refusal::CounterOverflow)
        } else {
            self.member_count = self.member_count + 1;
            Ok(MemberInfo { joined_at: 0 })
        }
    }

    /// Starts the record over on the owner's word: the counters go back to
    /// their first values, owner, name and mode stay.
    pub fn reset_state(stored: Option<PrivateDAO>, caller: &str) -> (outcome: Result<
        PrivateDAO,
        Refusal,
    >)
        ensures
            refusal_of(outcome) == match stored {
                None => Some(Refusal::StateUnreadable),
                Some(before) => if caller@ != before.owner@ {
                    Some(Refusal::NotOwnerOfState)
                } else {
                    None
                },
            },
            outcome matches Ok(fresh) ==> fresh == (PrivateDAO {
                member_count: 0,
                next_proposal_id: 1,
                ..stored->0
            }),
    {
        match stored {
            None => Err(Refusal::StateUnreadable),
            Some(before) => {
                if !same_text(caller, &before.owner) {
                    Err(Refusal::NotOwnerOfState)
                } else {
                    Ok(
                        PrivateDAO {
                            owner: before.owner,
                            name: before.name,
                            membership_mode: before.membership_mode,
                            member_count: 0,
                            next_proposal_id: 1,
                        },
                    )
                }
            },
        }
    }

    /// Decides whether a member whom the owner has added may get its key.
    pub fn complete_join(
        &self,
        membership: Option<MemberInfo>,
        has_pubkey: bool,
        attached: u128,
    ) -> (outcome: Result<(), Refusal>)
        ensures
            refusal_of(outcome) == complete_join_refusal(membership, has_pubkey, attached),
    {
        if membership.is_none() {
            Err(Refusal::NotPreApproved)
        } else if has_pubkey {
            Err(Refusal::AlreadyJoined)
        } else if attached < MIN_OUTLAYER_DEPOSIT {
            Err(Refusal::ExecutionDepositTooLow)
        } else {
            Ok(())
        }
    }

    /// Creates a proposal for `creator`, of whom the host holds
    /// `membership`, and numbers it.
    pub fn create_proposal(
        &mut self,
        creator: &str,
        membership: Option<MemberInfo>,
        attached: u128,
        now: u64,
        title: String,
        description: String,
        quorum: QuorumType,
        deadline: Option<u64>,
    ) -> (outcome: Result<Proposal, Refusal>)
        ensures
            refusal_of(outcome) == match proposal_refusal(membership, attached, deadline, now) {
                Some(refusal) => Some(refusal),
                None => if old(self).next_proposal_id == u64::MAX {
                    Some(Refusal::CounterOverflow)
                } else {
                    None
                },
            },
            outcome matches Ok(proposal) ==> {
                &&& proposal.id == old(self).next_proposal_id
                &&& proposal.title == title
                &&& proposal.description == description
                &&& proposal.creator@ == creator@
                &&& proposal.created_at == now
                &&& proposal.deadline == deadline
                &&& proposal.quorum == quorum
                &&& proposal.status == ProposalStatus::Active
                &&& proposal.tally_result is None
            },
            *final(self) == (PrivateDAO {
                next_proposal_id: if outcome is Ok {
                    (old(self).next_proposal_id + 1) as u64
                } else {
                    old(self).next_proposal_id
                },
                ..*old(self)
            }),
    {
        let member = match membership {
            Some(member) => member,
            None => {
                return Err(Refusal::ProposerNotMember);
            },
        };
        if attached < STORAGE_DEPOSIT_PER_PROPOSAL {
            return Err(Refusal::ProposalDepositTooLow);
        }
        match deadline {
            Some(end) => {
                if end <= now {
                    return Err(Refusal::DeadlineNotInFuture);
                }
            },
            None => {},
        }
        if member.joined_at > now {
            return Err(Refusal::InvalidMemberTimestamp);
        }
        if self.next_proposal_id == u64::MAX {
            return Err(Refusal::CounterOverflow);
        }
        let id = self.next_proposal_id;
        self.next_proposal_id = self.next_proposal_id + 1;
        Ok(
            Proposal {
                id,
                title,
                description,
                creator: creator.to_owned(),
                created_at: now,
                deadline,
                quorum,
                status: ProposalStatus::Active,
                tally_result: None,
            },
        )
    }

    /// Accepts a ballot of `voter` on `proposal` at `now`, which becomes
    /// the ballot's timestamp.
    pub fn cast_vote(
        &self,
        voter: &str,
        membership: Option<MemberInfo>,
        has_pubkey: bool,
        attached: u128,
        proposal: Option<&Proposal>,
        now: u64,
        encrypted_vote: String,
    ) -> (outcome: Result<Vote, Refusal>)
        ensures
            refusal_of(outcome) == vote_refusal(
                membership,
                has_pubkey,
                attached,
                match proposal {
                    Some(p) => Some(*p),
                    None => None,
                },
                now,
            ),
            outcome matches Ok(vote) ==> vote.user@ == voter@ && vote.encrypted_vote
                == encrypted_vote && vote.timestamp == now,
    {
        let member = match membership {
            Some(member) => member,
            None => {
                return Err(Refusal::VoterNotMember);
            },
        };
        if !has_pubkey {
            return Err(Refusal::JoinIncomplete);
        }
        if attached < STORAGE_DEPOSIT_PER_VOTE {
            return Err(Refusal::VoteDepositTooLow);
        }
        let proposal = match proposal {
            Some(proposal) => proposal,
            None => {
                return Err(Refusal::ProposalNotFound);
            },
        };
        if member.joined_at > 0 && member.joined_at >= proposal.created_at {
            return Err(Refusal::JoinedAfterProposal);
        }
        if proposal.status != ProposalStatus::Active {
            return Err(Refusal::ProposalNotActive);
        }
        match proposal.deadline {
            Some(end) => {
                if now >= end {
                    return Err(Refusal::VotingClosed);
                }
            },
            None => {},
        }
        Ok(Vote { user: voter.to_owned(), encrypted_vote, timestamp: now })
    }

    /// Whether a call to tally `proposal` gets as far as counting the
    /// stored ballots: the deposit suffices, and the proposal is there and
    /// active.
    pub fn counts_votes_to_finalize(&self, attached: u128, proposal: Option<&Proposal>) -> (counts:
        bool)
        ensures
            counts == (finalize_refusal(
                attached,
                match proposal {
                    Some(p) => Some(*p),
                    None => None,
                },
                1,
            ) is None),
    {
        match proposal {
            Some(p) => attached >= MIN_OUTLAYER_DEPOSIT && p.status == ProposalStatus::Active,
            None => false,
        }
    }

    /// Decides whether `proposal`, on which `vote_count` ballots are stored,
    /// may be tallied. The deadline closes the vote, not the tally.
    pub fn finalize_proposal(
        &self,
        attached: u128,
        proposal: Option<&Proposal>,
        vote_count: u64,
    ) -> (outcome: Result<(), Refusal>)
        ensures
            refusal_of(outcome) == finalize_refusal(
                attached,
                match proposal {
                    Some(p) => Some(*p),
                    None => None,
                },
                vote_count,
            ),
    {
        if attached < MIN_OUTLAYER_DEPOSIT {
            return Err(Refusal::ExecutionDepositTooLow);
        }
        let proposal = match proposal {
            Some(proposal) => proposal,
            None => {
                return Err(Refusal::ProposalNotFound);
            },
        };
        if proposal.status != ProposalStatus::Active {
            return Err(Refusal::ProposalNotActive);
        }
        if vote_count == 0 {
            return Err(Refusal::NoVotes);
        }
        Ok(())
    }

    /// The request by which the engine derives the key of `user`.
    pub fn request_key_derivation(dao_account: String, user: String) -> (request: Input)
        ensures
            request.action@ == "derive_pubkey"@,
            request.dao_account == dao_account,
            request.user_account == Some(user),
            request.proposal_id is None,
            request.votes is None,
            request.quorum is None,
    {
        Input {
            action: String::from_str("derive_pubkey"),
            dao_account,
            user_account: Some(user),
            proposal_id: None,
            votes: None,
            quorum: None,
        }
    }

    /// The request by which the engine tallies `votes` for `proposal`: the
    /// ballots as stored, in their order, under the proposal's quorum rule.
    pub fn request_vote_tallying(
        dao_account: String,
        proposal: &Proposal,
        votes: &Vec<Vote>,
    ) -> (request: Input)
        ensures
            request.action@ == "tally_votes"@,
            request.dao_account == dao_account,
            request.user_account is None,
            request.proposal_id == Some(proposal.id),
            request.votes matches Some(ballots) && ballots_of(ballots@) == stored_ballots(votes@),
            request.quorum matches Some(QuorumPolicy::Known(rule)) && rule == proposal.quorum,
    {
        let mut ballots: Vec<VoteData> = Vec::new();
        let mut i: usize = 0;
        while i < votes.len()
            invariant
                i <= votes@.len(),
                ballots@.len() == i,
                forall|k: int| 0 <= k < i ==> (#[trigger] ballots@[k])@ == votes@[k]@,
            decreases votes@.len() - i,
        {
            let vote = &votes[i];
            ballots.push(
                VoteData {
                    user: vote.user.clone(),
                    encrypted_vote: vote.encrypted_vote.clone(),
                    timestamp: vote.timestamp,
                },
            );
            i += 1;
        }
        assert(ballots_of(ballots@) =~= stored_ballots(votes@));
        Input {
            action: String::from_str("tally_votes"),
            dao_account,
            user_account: None,
            proposal_id: Some(proposal.id),
            votes: Some(ballots),
            quorum: Some(QuorumPolicy::Known(proposal.quorum)),
        }
    }

    /// Takes in the key that came back for a voter of whom the host holds
    /// `membership`: the key is to be stored, and the voter to be added as
    /// member at `now` unless it is one.
    pub fn on_key_derived(
        &mut self,
        membership: Option<MemberInfo>,
        result: Result<Option<OutLayerResponse<DeriveKeyResponse>>, String>,
        now: u64,
    ) -> (outcome: Result<KeyDerived, Refusal>)
        ensures
            match outcome {
                Ok(derived) => answer_of(result) matches Some(answer) && derived.pubkey
                    == answer.pubkey && derived.joined == if membership is None {
                    Some(MemberInfo { joined_at: now })
                } else {
                    None
                } && !(membership is None && old(self).member_count == u64::MAX),
                Err(refusal) => match answer_of(result) {
                    None => refuses_execution(result, true, refusal),
                    Some(_) => membership is None && old(self).member_count == u64::MAX
                        && refusal matches Refusal::CounterOverflow,
                },
            },
            *final(self) == (PrivateDAO {
                member_count: if outcome is Ok && membership is None {
                    (old(self).member_count + 1) as u64
                } else {
                    old(self).member_count
                },
                ..*old(self)
            }),
    {
        match take_answer(result, true) {
            Err(refusal) => Err(refusal),
            Ok(answer) => {
                let joined = if membership.is_none() {
                    if self.member_count == u64::MAX {
                        return Err(Refusal::CounterOverflow);
                    }
                    self.member_count = self.member_count + 1;
                    Some(MemberInfo { joined_at: now })
                } else {
                    None
                };
                Ok(KeyDerived { pubkey: answer.pubkey, joined })
            },
        }
    }

    /// Takes in the tally that came back for `proposal` at `now`.
    pub fn on_votes_tallied(
        proposal: &mut Proposal,
        result: Result<Option<OutLayerResponse<TallyResponse>>, String>,
        now: u64,
    ) -> (outcome: Result<(), Refusal>)
        ensures
            match outcome {
                Ok(()) => answer_of(result) matches Some(response) && is_complete(response)
                    && settles(*old(proposal), response, now, *final(proposal)),
                Err(refusal) => *final(proposal) == *old(proposal) && match answer_of(result) {
                    None => refuses_execution(result, false, refusal),
                    Some(response) => !is_complete(response)
                        && refusal matches Refusal::IncompleteTally,
                },
            },
    {
        match take_answer(result, false) {
            Err(refusal) => Err(refusal),
            Ok(response) => {
                if response.yes_count.is_some() && response.no_count.is_none() {
                    return Err(Refusal::IncompleteTally);
                }
                proposal.record_tally(response, now);
                Ok(())
            },
        }
    }

    /// What anyone may know of the ledger.
    pub fn get_dao_info(&self) -> (info: DAOInfo)
        ensures
            info.name == self.name,
            info.owner == self.owner,
            info.membership_mode == self.membership_mode,
            info.member_count == self.member_count,
    {
        DAOInfo {
            name: self.name.clone(),
            owner: self.owner.clone(),
            membership_mode: self.membership_mode,
            member_count: self.member_count,
        }
    }

    /// The inclusion proofs of the ballots that `account_id` submitted on
    /// `proposal`: none for a proposal that is unknown or has no tally.
    pub fn get_vote_proofs(proposal: Option<&Proposal>, account_id: &str) -> (proofs: Vec<
        MerkleProof,
    >)
        ensures
            proofs_of(proofs@) == match proposal {
                Some(p) => match p.tally_result {
                    Some(tally) => proofs_of_voter(proofs_of(tally.merkle_proofs@), account_id@),
                    None => Seq::<MerkleProofView>::empty(),
                },
                None => Seq::<MerkleProofView>::empty(),
            },
    {
        match proposal {
            Some(p) => p.vote_proofs(account_id),
            None => {
                let proofs: Vec<MerkleProof> = Vec::new();
                assert(proofs_of(proofs@) =~= Seq::<MerkleProofView>::empty());
                proofs
            },
        }
    }
}

} // verus!
