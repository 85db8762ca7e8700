//! The two requests that the engine serves: deriving a voter's public key
//! and tallying a proposal.

use crate::crypto::{derive_user_pubkey, derived_keypair, CryptoError};
use crate::hashing::{hex_bytes, hex_decode, hex_encode, hex_error_text, hex_text};
use crate::tally::{
    ballots_of, is_tally_report, tally_votes_with_account, QuorumPolicy, TallyError, TallyReport,
    VoteData,
};
use vstd::prelude::*;
use vstd::string::StringExecFns;
use vstd::utf8::encode_utf8;

verus! {

/// A request, as far as its fields were given.
#[derive(Clone, Debug)]
pub struct Input {
    /// What to do: `derive_pubkey` or `tally_votes`.
    pub action: String,
    /// The domain that the voters belong to.
    pub dao_account: String,
    /// The voter whose key is asked for.
    pub user_account: Option<String>,
    /// The proposal to tally.
    pub proposal_id: Option<u64>,
    /// The ballots to tally, in submission order.
    pub votes: Option<Vec<VoteData>>,
    /// The quorum policy of the proposal.
    pub quorum: Option<QuorumPolicy>,
}

/// The answer to a key derivation request.
#[derive(Clone, Debug)]
pub struct DeriveKeyResponse {
    /// The voter's compressed public key, as hexadecimal text.
    pub pubkey: String,
}

/// The answer to a request.
#[derive(Debug)]
pub enum Response {
    PublicKey(DeriveKeyResponse),
    Tally(TallyReport),
}

/// Why a request was not served.
#[derive(Clone, Debug)]
pub enum RequestError {
    /// The master secret is not hexadecimal text; `cause` is what the
    /// decoder said.
    InvalidSecret { cause: String },
    /// The request names no voter.
    MissingUserAccount,
    /// The request names no proposal.
    MissingProposalId,
    /// The request holds no list of ballots.
    MissingVotes,
    /// The request holds no quorum policy.
    MissingQuorum,
    /// The request asks for something else than the two actions.
    UnknownAction { action: String },
    /// More voters are counted than a count can express.
    CountOverflow,
    /// The voter's key could not be derived.
    KeyDerivation(CryptoError),
    /// The quorum policy is none that the engine knows.
    InvalidQuorum { reason: String },
}

/// Reads the master secret from its hexadecimal text.
pub fn master_secret_from_hex(text: &str) -> (secret: Result<Vec<u8>, RequestError>)
    ensures
        match hex_bytes(encode_utf8(text@)) {
            Some(bytes) => secret matches Ok(s) && s@ == bytes,
            None => secret matches Err(RequestError::InvalidSecret { .. }),
        },
{
    match hex_decode(text) {
        Ok(bytes) => Ok(bytes),
        Err(e) => Err(RequestError::InvalidSecret { cause: hex_error_text(&e) }),
    }
}

/// Whether `answer` is what a key derivation request comes to.
pub open spec fn is_key_answer(
    secret: Seq<u8>,
    input: Input,
    answer: Result<DeriveKeyResponse, RequestError>,
) -> bool {
    match input.user_account {
        None => answer matches Err(RequestError::MissingUserAccount),
        Some(user) => match derived_keypair(secret, input.dao_account@, user@) {
            Err(cause) => answer matches Err(RequestError::KeyDerivation(c)) && c@ == cause,
            Ok(pair) => answer matches Ok(response) && response.pubkey@ == hex_text(pair.1),
        },
    }
}

/// Serves a key derivation request: the public key that the named voter
/// encrypts ballots to, as hexadecimal text. No private material is returned.
pub fn handle_derive_pubkey(master_secret: &[u8], input: &Input) -> (answer: Result<
    DeriveKeyResponse,
    RequestError,
>)
    ensures
        is_key_answer(master_secret@, *input, answer),
{
    match &input.user_account {
        None => Err(RequestError::MissingUserAccount),
        Some(user) => match derive_user_pubkey(
            master_secret,
            input.dao_account.as_str(),
            user.as_str(),
        ) {
            Err(cause) => Err(RequestError::KeyDerivation(cause)),
            Ok(key) => Ok(DeriveKeyResponse { pubkey: hex_encode(key.as_slice()) }),
        },
    }
}

/// The request error that a failed tally comes to.
pub open spec fn request_error_of(error: TallyError, failure: RequestError) -> bool {
    match error {
        TallyError::KeyDerivation(cause) => failure matches RequestError::KeyDerivation(c) && c
            == cause,
        TallyError::CountOverflow => failure matches RequestError::CountOverflow,
        TallyError::InvalidQuorum { reason } => failure matches RequestError::InvalidQuorum {
            reason: r,
        } && r@ == reason@,
    }
}

/// Whether `answer` is what tallying comes to, as the answer to a request.
pub open spec fn tally_answer(
    secret: Seq<u8>,
    domain: Seq<char>,
    proposal_id: u64,
    votes: Seq<VoteData>,
    quorum: QuorumPolicy,
    answer: Result<TallyReport, RequestError>,
) -> bool {
    match answer {
        Ok(report) => is_tally_report(
            secret,
            domain,
            proposal_id,
            ballots_of(votes),
            quorum,
            Ok(report),
        ),
        Err(failure) => exists|error: TallyError|
            #![trigger request_error_of(error, failure)]
            request_error_of(error, failure) && is_tally_report(
                secret,
                domain,
                proposal_id,
                ballots_of(votes),
                quorum,
                Err(error),
            ),
    }
}

/// Whether `answer` is what a tally request comes to. The first field that
/// is missing, of the proposal, the ballots and the quorum policy in this
/// order, is reported.
pub open spec fn is_tally_answer(
    secret: Seq<u8>,
    input: Input,
    answer: Result<TallyReport, RequestError>,
) -> bool {
    match (input.proposal_id, input.votes, input.quorum) {
        (None, _, _) => answer matches Err(RequestError::MissingProposalId),
        (Some(_), None, _) => answer matches Err(RequestError::MissingVotes),
        (Some(_), Some(_), None) => answer matches Err(RequestError::MissingQuorum),
        (Some(proposal_id), Some(votes), Some(quorum)) => tally_answer(
            secret,
            input.dao_account@,
            proposal_id,
            votes@,
            quorum,
            answer,
        ),
    }
}

/// Serves a tally request: the tally, with the account of the ballots that
/// could not be read.
pub fn handle_tally_votes(master_secret: &[u8], input: &Input) -> (answer: Result<
    TallyReport,
    RequestError,
>)
    ensures
        is_tally_answer(master_secret@, *input, answer),
{
    let proposal_id = match input.proposal_id {
        Some(id) => id,
        None => {
            return Err(RequestError::MissingProposalId);
        },
    };
    let votes = match &input.votes {
        Some(v) => v,
        None => {
            return Err(RequestError::MissingVotes);
        },
    };
    let quorum = match &input.quorum {
        Some(q) => q,
        None => {
            return Err(RequestError::MissingQuorum);
        },
    };
    match tally_votes_with_account(
        master_secret,
        input.dao_account.as_str(),
        proposal_id,
        votes.as_slice(),
        quorum,
    ) {
        Ok(tally) => Ok(tally),
        Err(error) => {
            let failure = match error {
                TallyError::KeyDerivation(cause) => RequestError::KeyDerivation(cause),
                TallyError::CountOverflow => RequestError::CountOverflow,
                TallyError::InvalidQuorum { reason } => RequestError::InvalidQuorum { reason },
            };
            assert(request_error_of(error, failure));
            Err(failure)
        },
    }
}

/// Serves a request according to its action.
pub fn handle_request(master_secret: &[u8], input: &Input) -> (answer: Result<
    Response,
    RequestError,
>)
    ensures
        if input.action@ == "derive_pubkey"@ {
            match answer {
                Ok(Response::PublicKey(key)) => is_key_answer(master_secret@, *input, Ok(key)),
                Ok(Response::Tally(_)) => false,
                Err(e) => is_key_answer(master_secret@, *input, Err(e)),
            }
        } else if input.action@ == "tally_votes"@ {
            match answer {
                Ok(Response::Tally(tally)) => is_tally_answer(master_secret@, *input, Ok(tally)),
                Ok(Response::PublicKey(_)) => false,
                Err(e) => is_tally_answer(master_secret@, *input, Err(e)),
            }
        } else {
            answer matches Err(RequestError::UnknownAction { action }) && action@ == input.action@
        },
{
    if input.action == String::from_str("derive_pubkey") {
        match handle_derive_pubkey(master_secret, input) {
            Ok(key) => Ok(Response::PublicKey(key)),
            Err(e) => Err(e),
        }
    } else if input.action == String::from_str("tally_votes") {
        match handle_tally_votes(master_secret, input) {
            Ok(tally) => Ok(Response::Tally(tally)),
            Err(e) => Err(e),
        }
    } else {
        Err(RequestError::UnknownAction { action: input.action.clone() })
    }
}

impl RequestError {
    /// What the error says to a reader.
    pub open spec fn message_text(self) -> Seq<char> {
        match self {
            RequestError::InvalidSecret { cause } => "Invalid DAO_MASTER_SECRET hex: "@ + cause@,
            RequestError::MissingUserAccount => "Missing user_account"@,
            RequestError::MissingProposalId => "Missing proposal_id"@,
            RequestError::MissingVotes => "Missing votes"@,
            RequestError::MissingQuorum => "Missing quorum"@,
            RequestError::UnknownAction { action } => "Unknown action: "@ + action@,
            RequestError::CountOverflow => "More voters than a count can hold"@,
            RequestError::KeyDerivation(cause) => cause.message_text(),
            RequestError::InvalidQuorum { reason } => "Invalid quorum format: "@ + reason@,
        }
    }

    /// What the error says to a reader.
    pub fn message(&self) -> (text: String)
        ensures
            text@ == self.message_text(),
    {
        match self {
            RequestError::InvalidSecret { cause } => {
                let mut text = String::from_str("Invalid DAO_MASTER_SECRET hex: ");
                text.append(cause.as_str());
                text
            },
            RequestError::MissingUserAccount => String::from_str("Missing user_account"),
            RequestError::MissingProposalId => String::from_str("Missing proposal_id"),
            RequestError::MissingVotes => String::from_str("Missing votes"),
            RequestError::MissingQuorum => String::from_str("Missing quorum"),
            RequestError::UnknownAction { action } => {
                let mut text = String::from_str("Unknown action: ");
                text.append(action.as_str());
                text
            },
            RequestError::CountOverflow => String::from_str("More voters than a count can hold"),
            RequestError::KeyDerivation(cause) => cause.message(),
            RequestError::InvalidQuorum { reason } => {
                let mut text = String::from_str("Invalid quorum format: ");
                text.append(reason.as_str());
                text
            },
        }
    }
}

} // verus!
