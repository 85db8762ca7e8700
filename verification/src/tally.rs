//! Counting the ballots: who voted what, and whether enough voted to say so.
//!
//! Each voter is counted once, by the real vote that bears the greatest
//! timestamp; of two real votes with the same timestamp the earlier in the
//! list stands. Ballots that do not open to `yes` or `no` are never counted.
//! A ballot that cannot be decoded or opened is left out and accounted for
//! with its cause; a ballot that opens to other text is a dummy, which is
//! left out without a word.

use crate::crypto::{
    decrypt_vote, decrypted_vote, derived_keypair, lemma_sealed_vote_opens, opened_text,
    sealed_for, CryptoError, CryptoFailure,
};
use crate::hashing::{
    append_bytes, hex_bytes, hex_decode, hex_error_text, hex_text, is_digest_text,
    lemma_hex_text_round_trip, sha256_digest, sha256_hex,
};
use crate::merkle::{
    are_digest_texts, hash_leaf, is_tree_of_digests, leaf_hash,
    lemma_changed_ciphertext_changes_leaf, lemma_changed_leaves_change_root,
    lemma_path_holds_digest_texts, lemma_proof_path_reaches_root, lemma_root_is_digest_text,
    merkle_root, proof_path, proves_inclusion, sha256_has_collision, MerkleTree,
};
use vstd::bytes::{spec_u32_to_le_bytes, spec_u64_to_le_bytes, u32_to_le_bytes, u64_to_le_bytes};
use vstd::hash_map::StringHashMap;
use vstd::prelude::*;
use vstd::string::StringExecFns;
use vstd::utf8::encode_utf8;

verus! {

broadcast use vstd::set::group_set_axioms;

/// What a real vote says.
#[derive(Clone, Copy, PartialEq, Eq, Structural, Debug)]
pub enum Choice {
    Yes,
    No,
}

/// The choice that an opened ballot states: `yes` and `no` exactly; any
/// other text, the empty one too, is a dummy.
pub open spec fn classify_text(text: Seq<char>) -> Option<Choice> {
    if text == seq!['y', 'e', 's'] {
        Some(Choice::Yes)
    } else if text == seq!['n', 'o'] {
        Some(Choice::No)
    } else {
        None
    }
}

/// Classifies an opened ballot.
pub fn classify(text: &str) -> (choice: Option<Choice>)
    ensures
        choice == classify_text(text@),
{
    proof {
        reveal_strlit("yes");
        reveal_strlit("no");
    }
    let given = text.to_owned();
    if given == String::from_str("yes") {
        assert(text@ =~= seq!['y', 'e', 's']);
        Some(Choice::Yes)
    } else if given == String::from_str("no") {
        assert(text@ =~= seq!['n', 'o']);
        Some(Choice::No)
    } else {
        assert(text@ != seq!['y', 'e', 's']) by {
            if text@ == seq!['y', 'e', 's'] {
                assert(text@ =~= "yes"@);
            }
        }
        assert(text@ != seq!['n', 'o']) by {
            if text@ == seq!['n', 'o'] {
                assert(text@ =~= "no"@);
            }
        }
        None
    }
}

/// A real vote: who cast it, what it says, and when it was submitted.
pub struct CastVote {
    pub voter: Seq<char>,
    pub choice: Choice,
    pub timestamp: u64,
}

/// The vote that currently counts for one voter.
#[derive(Clone, Copy, PartialEq, Eq, Structural, Debug)]
pub struct Standing {
    pub choice: Choice,
    pub timestamp: u64,
}

/// The standings after `vote` is taken into account: a voter's first vote
/// is recorded, a later one replaces it only if its timestamp is strictly
/// greater.
pub open spec fn record_vote(state: Map<Seq<char>, Standing>, vote: CastVote) -> Map<
    Seq<char>,
    Standing,
> {
    if state.contains_key(vote.voter) && vote.timestamp <= state[vote.voter].timestamp {
        state
    } else {
        state.insert(vote.voter, Standing { choice: vote.choice, timestamp: vote.timestamp })
    }
}

/// The number of voters whose standing vote is `choice`.
pub open spec fn count_choice(state: Map<Seq<char>, Standing>, choice: Choice) -> nat {
    state.dom().filter(|voter: Seq<char>| state[voter].choice == choice).len()
}

/// Whether `voter` stands at `choice`.
pub open spec fn stands_at(state: Map<Seq<char>, Standing>, voter: Seq<char>, choice: Choice) -> bool {
    state.contains_key(voter) && state[voter].choice == choice
}

/// One where `holds`, zero where not.
pub open spec fn one_if(holds: bool) -> int {
    if holds {
        1
    } else {
        0
    }
}

/// Recording a vote changes the counts by what the voter's standing changes:
/// the voter is counted where it stands afterwards, and no longer where it
/// stood before.
pub proof fn lemma_record_vote_counts(state: Map<Seq<char>, Standing>, vote: CastVote)
    requires
        state.dom().finite(),
    ensures
        record_vote(state, vote).dom().finite(),
        record_vote(state, vote).dom().len() == state.dom().len() + one_if(
            !state.contains_key(vote.voter),
        ),
        forall|choice: Choice|
            #![trigger count_choice(state, choice)]
            count_choice(record_vote(state, vote), choice) == count_choice(state, choice) + one_if(
                stands_at(record_vote(state, vote), vote.voter, choice),
            ) - one_if(stands_at(state, vote.voter, choice)),
{
    let after = record_vote(state, vote);
    assert forall|choice: Choice|
        #![trigger count_choice(state, choice)]
        count_choice(after, choice) == count_choice(state, choice) + one_if(
            stands_at(after, vote.voter, choice),
        ) - one_if(stands_at(state, vote.voter, choice)) by {
        let old_set = state.dom().filter(|voter: Seq<char>| state[voter].choice == choice);
        let new_set = after.dom().filter(|voter: Seq<char>| after[voter].choice == choice);
        state.dom().lemma_len_filter(|voter: Seq<char>| state[voter].choice == choice);
        let was = stands_at(state, vote.voter, choice);
        let now = stands_at(after, vote.voter, choice);
        if was && !now {
            assert(new_set =~= old_set.remove(vote.voter));
        } else if !was && now {
            assert(new_set =~= old_set.insert(vote.voter));
        } else {
            assert(new_set =~= old_set);
        }
    }
}

/// A voter who has a standing is among those counted for its choice.
pub proof fn lemma_standing_is_counted(state: Map<Seq<char>, Standing>, voter: Seq<char>)
    requires
        state.dom().finite(),
        state.contains_key(voter),
    ensures
        count_choice(state, state[voter].choice) >= 1,
{
    let choice = state[voter].choice;
    let counted = state.dom().filter(|v: Seq<char>| state[v].choice == choice);
    state.dom().lemma_len_filter(|v: Seq<char>| state[v].choice == choice);
    assert(counted.contains(voter));
}

/// The standing vote of every voter seen so far, with the running counts.
pub struct AggregateState {
    standings: StringHashMap<Standing>,
    yes: usize,
    no: usize,
}

impl View for AggregateState {
    type V = Map<Seq<char>, Standing>;

    closed spec fn view(&self) -> Map<Seq<char>, Standing> {
        self.standings@
    }
}

impl AggregateState {
    /// The counts agree with the standings.
    #[verifier::type_invariant]
    spec fn counts_agree(self) -> bool {
        &&& self.standings@.dom().finite()
        &&& self.yes == count_choice(self.standings@, Choice::Yes)
        &&& self.no == count_choice(self.standings@, Choice::No)
        &&& self.yes + self.no == self.standings@.dom().len()
        &&& self.yes + self.no <= usize::MAX
    }

    /// The state before any ballot.
    pub fn new() -> (state: AggregateState)
        ensures
            state@ == Map::<Seq<char>, Standing>::empty(),
    {
        let standings = StringHashMap::<Standing>::new();
        assert(standings@.dom().filter(|voter: Seq<char>| standings@[voter].choice == Choice::Yes)
            =~= Set::empty());
        assert(standings@.dom().filter(|voter: Seq<char>| standings@[voter].choice == Choice::No)
            =~= Set::empty());
        AggregateState { standings, yes: 0, no: 0 }
    }

    /// Takes one real vote into account.
    pub fn record(&mut self, voter: &str, choice: Choice, timestamp: u64)
        ensures
            final(self)@ == record_vote(
                old(self)@,
                CastVote { voter: voter@, choice, timestamp },
            ),
    {
        proof {
            use_type_invariant(&*self);
            lemma_record_vote_counts(self@, CastVote { voter: voter@, choice, timestamp });
        }
        let mut taken = AggregateState::new();
        std::mem::swap(self, &mut taken);
        let AggregateState { standings, yes, no } = taken;
        let mut standings = standings;
        let mut yes = yes;
        let mut no = no;
        let previous = match standings.get(voter) {
            Some(standing) => Some(*standing),
            None => None,
        };
        match previous {
            Some(standing) => {
                proof {
                    lemma_standing_is_counted(standings@, voter@);
                }
                if timestamp > standing.timestamp {
                    standings.insert(voter.to_owned(), Standing { choice, timestamp });
                    match standing.choice {
                        Choice::Yes => {
                            yes = yes - 1;
                        },
                        Choice::No => {
                            no = no - 1;
                        },
                    }
                    match choice {
                        Choice::Yes => {
                            yes = yes + 1;
                        },
                        Choice::No => {
                            no = no + 1;
                        },
                    }
                }
            },
            None => {
                standings.insert(voter.to_owned(), Standing { choice, timestamp });
                // The map now holds one voter more, and its size fits a `usize`.
                let voters = standings.len();
                assert(yes + no < voters);
                match choice {
                    Choice::Yes => {
                        yes = yes + 1;
                    },
                    Choice::No => {
                        no = no + 1;
                    },
                }
            },
        }
        *self = AggregateState { standings, yes, no };
    }

    /// The numbers of voters who stand at yes and at no. Every voter with a
    /// standing is counted for exactly one of the two, so the counts fit a
    /// `usize` together.
    pub fn counts(&self) -> (counts: (usize, usize))
        ensures
            counts.0 == count_choice(self@, Choice::Yes),
            counts.1 == count_choice(self@, Choice::No),
            counts.0 + counts.1 == self@.dom().len(),
            counts.0 + counts.1 <= usize::MAX,
    {
        proof {
            use_type_invariant(self);
        }
        (self.yes, self.no)
    }
}

/// One ballot as it was submitted.
#[derive(Clone, Debug)]
pub struct VoteData {
    /// The voter's identifier.
    pub user: String,
    /// The ciphertext, as hexadecimal text.
    pub encrypted_vote: String,
    /// When the ballot was submitted.
    pub timestamp: u64,
}

/// The model of a submitted ballot.
pub struct Ballot {
    pub voter: Seq<char>,
    pub ciphertext: Seq<char>,
    pub timestamp: u64,
}

impl View for VoteData {
    type V = Ballot;

    open spec fn view(&self) -> Ballot {
        Ballot { voter: self.user@, ciphertext: self.encrypted_vote@, timestamp: self.timestamp }
    }
}

/// The models of a list of submitted ballots.
pub open spec fn ballots_of(votes: Seq<VoteData>) -> Seq<Ballot> {
    Seq::new(votes.len(), |i: int| votes[i]@)
}

/// What reading one ballot came to.
#[derive(Clone, Copy, PartialEq, Eq, Structural, Debug)]
pub enum ReadingKind {
    /// The ballot says yes or no.
    Vote(Choice),
    /// The ballot opens to some other text.
    Dummy,
    /// The ciphertext is no hexadecimal text.
    Malformed,
    /// The ciphertext does not open under its voter's key, or opens to what
    /// is no text.
    Undecryptable(CryptoFailure),
}

/// What reading one ballot came to, with what the decoder or the cipher
/// said where it failed.
#[derive(Clone, Debug)]
pub enum Reading {
    Vote(Choice),
    Dummy,
    Malformed { cause: String },
    Undecryptable(CryptoError),
}

impl View for Reading {
    type V = ReadingKind;

    open spec fn view(&self) -> ReadingKind {
        match *self {
            Reading::Vote(choice) => ReadingKind::Vote(choice),
            Reading::Dummy => ReadingKind::Dummy,
            Reading::Malformed { cause } => ReadingKind::Malformed,
            Reading::Undecryptable(error) => ReadingKind::Undecryptable(error@),
        }
    }
}

/// What a choice or a dummy is read as.
pub open spec fn reading_of_text(text: Seq<char>) -> ReadingKind {
    match classify_text(text) {
        Some(choice) => ReadingKind::Vote(choice),
        None => ReadingKind::Dummy,
    }
}

/// What reading one ballot yields: how the ballot was read, or an error
/// where the voter's key cannot be derived. A ballot is decoded before its
/// voter's key is derived.
pub open spec fn ballot_reading(secret: Seq<u8>, domain: Seq<char>, ballot: Ballot) -> Result<
    ReadingKind,
    CryptoFailure,
> {
    match hex_bytes(encode_utf8(ballot.ciphertext)) {
        None => Ok(ReadingKind::Malformed),
        Some(sealed) => match decrypted_vote(secret, domain, ballot.voter, sealed) {
            Ok(text) => Ok(reading_of_text(text)),
            Err(e) => if e.spec_is_key_derivation() {
                Err(e)
            } else {
                Ok(ReadingKind::Undecryptable(e))
            },
        },
    }
}

/// The real vote that a ballot holds, if it holds one.
pub open spec fn cast_vote_of(secret: Seq<u8>, domain: Seq<char>, ballot: Ballot) -> Option<
    CastVote,
> {
    match ballot_reading(secret, domain, ballot) {
        Ok(ReadingKind::Vote(choice)) => Some(
            CastVote { voter: ballot.voter, choice, timestamp: ballot.timestamp },
        ),
        _ => None,
    }
}

/// Why a ballot was left out of the count without being read as a dummy.
#[derive(Clone, Copy, PartialEq, Eq, Structural, Debug)]
pub enum SkipKind {
    Malformed,
    Undecryptable(CryptoFailure),
}

/// The model of the account of one ballot that could not be read.
pub struct SkippedView {
    pub index: usize,
    pub voter: Seq<char>,
    pub reason: SkipKind,
}

/// Why a ballot could not be read, if it could not. A dummy was read, and
/// is not reported: the account tells failures, not votes from decoys.
pub open spec fn skip_of(reading: Result<ReadingKind, CryptoFailure>) -> Option<SkipKind> {
    match reading {
        Ok(ReadingKind::Malformed) => Some(SkipKind::Malformed),
        Ok(ReadingKind::Undecryptable(failure)) => Some(SkipKind::Undecryptable(failure)),
        _ => None,
    }
}

/// The account of the ballots that could not be read, in their order, each
/// with its position and its voter.
pub open spec fn skipped_of(secret: Seq<u8>, domain: Seq<char>, ballots: Seq<Ballot>) -> Seq<
    SkippedView,
>
    decreases ballots.len(),
{
    if ballots.len() == 0 {
        Seq::empty()
    } else {
        let before = skipped_of(secret, domain, ballots.drop_last());
        match skip_of(ballot_reading(secret, domain, ballots.last())) {
            Some(reason) => before.push(
                SkippedView {
                    index: (ballots.len() - 1) as usize,
                    voter: ballots.last().voter,
                    reason,
                },
            ),
            None => before,
        }
    }
}

/// Why a ballot could not be read, with what the decoder or the cipher said.
#[derive(Clone, Debug)]
pub enum SkipReason {
    /// The ciphertext is no hexadecimal text.
    Malformed { cause: String },
    /// The ciphertext does not open under its voter's key, or opens to what
    /// is no text.
    Undecryptable(CryptoError),
}

impl View for SkipReason {
    type V = SkipKind;

    open spec fn view(&self) -> SkipKind {
        match *self {
            SkipReason::Malformed { cause } => SkipKind::Malformed,
            SkipReason::Undecryptable(error) => SkipKind::Undecryptable(error@),
        }
    }
}

/// The account of one ballot that could not be read.
#[derive(Clone, Debug)]
pub struct SkippedBallot {
    /// The position of the ballot in the list.
    pub index: usize,
    /// The voter's identifier.
    pub voter: String,
    /// Why the ballot could not be read.
    pub reason: SkipReason,
}

impl View for SkippedBallot {
    type V = SkippedView;

    open spec fn view(&self) -> SkippedView {
        SkippedView { index: self.index, voter: self.voter@, reason: self.reason@ }
    }
}

impl SkippedBallot {
    /// What the account says to a reader.
    pub open spec fn message_text(self) -> Seq<char> {
        match self.reason {
            SkipReason::Undecryptable(error) => "Failed to decrypt vote from "@ + self.voter@
                + ": "@ + error.message_text(),
            SkipReason::Malformed { cause } => "Failed to decode hex for vote from "@
                + self.voter@ + ": "@ + cause@,
        }
    }

    /// What the account says to a reader.
    pub fn message(&self) -> (text: String)
        ensures
            text@ == self.message_text(),
    {
        match &self.reason {
            SkipReason::Undecryptable(error) => {
                let mut text = String::from_str("Failed to decrypt vote from ");
                text.append(self.voter.as_str());
                text.append(": ");
                text.append(error.message().as_str());
                text
            },
            SkipReason::Malformed { cause } => {
                let mut text = String::from_str("Failed to decode hex for vote from ");
                text.append(self.voter.as_str());
                text.append(": ");
                text.append(cause.as_str());
                text
            },
        }
    }
}

/// The models of an account.
pub open spec fn skipped_views(skipped: Seq<SkippedBallot>) -> Seq<SkippedView> {
    Seq::new(skipped.len(), |i: int| skipped[i]@)
}

/// The real votes that `ballots` hold, position by position.
pub open spec fn cast_votes(secret: Seq<u8>, domain: Seq<char>, ballots: Seq<Ballot>) -> Seq<
    Option<CastVote>,
> {
    Seq::new(ballots.len(), |i: int| cast_vote_of(secret, domain, ballots[i]))
}

/// The error of the first ballot whose voter has no derivable key.
pub open spec fn first_failure(secret: Seq<u8>, domain: Seq<char>, ballots: Seq<Ballot>) -> Option<
    CryptoFailure,
>
    decreases ballots.len(),
{
    if ballots.len() == 0 {
        None
    } else {
        match ballot_reading(secret, domain, ballots[0]) {
            Err(e) => Some(e),
            Ok(_) => first_failure(secret, domain, ballots.drop_first()),
        }
    }
}

/// The standings after all of `votes`, taken in order.
pub open spec fn aggregate(votes: Seq<Option<CastVote>>) -> Map<Seq<char>, Standing>
    decreases votes.len(),
{
    if votes.len() == 0 {
        Map::empty()
    } else {
        match votes.last() {
            Some(vote) => record_vote(aggregate(votes.drop_last()), vote),
            None => aggregate(votes.drop_last()),
        }
    }
}

/// Whether `votes[index]` is a real vote of `voter`.
pub open spec fn is_vote_by(votes: Seq<Option<CastVote>>, index: int, voter: Seq<char>) -> bool {
    &&& 0 <= index < votes.len()
    &&& votes[index] is Some
    &&& votes[index]->0.voter == voter
}

/// Whether `votes[index]` is the vote that counts for its voter: no vote of
/// the same voter bears a greater timestamp, and none before it the same.
pub open spec fn is_standing_vote(votes: Seq<Option<CastVote>>, index: int) -> bool {
    &&& 0 <= index < votes.len()
    &&& votes[index] is Some
    &&& forall|other: int| #[trigger]
        is_vote_by(votes, other, votes[index]->0.voter) ==> {
            ||| votes[other]->0.timestamp < votes[index]->0.timestamp
            ||| votes[other]->0.timestamp == votes[index]->0.timestamp && index <= other
        }
}

/// The standing that `vote` gives its voter.
pub open spec fn standing_of(vote: CastVote) -> Standing {
    Standing { choice: vote.choice, timestamp: vote.timestamp }
}

/// After any list of votes there is at most one standing per voter, a voter
/// has one exactly if the list holds a real vote of that voter, and it is
/// that of the voter's real vote with the greatest timestamp, the earliest
/// of them where several bear it.
pub proof fn lemma_standing_is_latest_vote(votes: Seq<Option<CastVote>>, voter: Seq<char>)
    ensures
        aggregate(votes).dom().finite(),
        aggregate(votes).contains_key(voter) <==> exists|index: int|
            is_vote_by(votes, index, voter),
        aggregate(votes).contains_key(voter) ==> exists|index: int|
            {
                &&& #[trigger] is_vote_by(votes, index, voter)
                &&& is_standing_vote(votes, index)
                &&& aggregate(votes)[voter] == standing_of(votes[index]->0)
            },
    decreases votes.len(),
{
    if votes.len() > 0 {
        let earlier = votes.drop_last();
        let last = votes.len() - 1;
        let before = aggregate(earlier);
        let after = aggregate(votes);
        lemma_standing_is_latest_vote(earlier, voter);
        assert forall|index: int| is_vote_by(earlier, index, voter) implies is_vote_by(
            votes,
            index,
            voter,
        ) by {
            assert(votes[index] == earlier[index]);
        }
        assert forall|index: int| is_vote_by(votes, index, voter) && index != last implies is_vote_by(
            earlier,
            index,
            voter,
        ) by {
            assert(votes[index] == earlier[index]);
        }
        let replaces = votes[last] is Some && votes[last]->0.voter == voter && !(before.contains_key(
            voter,
        ) && votes[last]->0.timestamp <= before[voter].timestamp);
        if votes[last] is Some {
            lemma_record_vote_counts(before, votes[last]->0);
        }
        if replaces {
            assert(is_vote_by(votes, last, voter));
            assert(after[voter] == standing_of(votes[last]->0));
            assert forall|other: int| #[trigger]
                is_vote_by(votes, other, voter) implies votes[other]->0.timestamp
                < votes[last]->0.timestamp || (votes[other]->0.timestamp
                == votes[last]->0.timestamp && last <= other) by {
                if other != last {
                    assert(is_vote_by(earlier, other, voter));
                    let kept = choose|index: int|
                        {
                            &&& #[trigger] is_vote_by(earlier, index, voter)
                            &&& is_standing_vote(earlier, index)
                            &&& before[voter] == standing_of(earlier[index]->0)
                        };
                    assert(is_vote_by(earlier, other, earlier[kept]->0.voter));
                    assert(votes[other] == earlier[other]);
                }
            }
            assert(is_standing_vote(votes, last));
        } else if after.contains_key(voter) {
            assert(before.contains_key(voter));
            assert(after[voter] == before[voter]);
            let kept = choose|index: int|
                {
                    &&& #[trigger] is_vote_by(earlier, index, voter)
                    &&& is_standing_vote(earlier, index)
                    &&& before[voter] == standing_of(earlier[index]->0)
                };
            assert(votes[kept] == earlier[kept]);
            assert(is_vote_by(votes, kept, voter));
            assert forall|other: int| #[trigger]
                is_vote_by(votes, other, voter) implies votes[other]->0.timestamp
                < votes[kept]->0.timestamp || (votes[other]->0.timestamp
                == votes[kept]->0.timestamp && kept <= other) by {
                if other != last {
                    assert(is_vote_by(earlier, other, earlier[kept]->0.voter));
                    assert(votes[other] == earlier[other]);
                }
            }
            assert(is_standing_vote(votes, kept));
        } else {
            assert(!before.contains_key(voter));
            if votes[last] is Some && votes[last]->0.voter == voter {
                assert(after.contains_key(voter));
            }
        }
    }
}

/// Whether `votes[index]` is a real vote that bears its voter's greatest
/// timestamp.
pub open spec fn is_latest_vote(votes: Seq<Option<CastVote>>, index: int) -> bool {
    &&& 0 <= index < votes.len()
    &&& votes[index] is Some
    &&& forall|other: int| #[trigger]
        is_vote_by(votes, other, votes[index]->0.voter) ==> votes[other]->0.timestamp
            <= votes[index]->0.timestamp
}

/// Whether the real votes that bear a voter's greatest timestamp all say
/// the same, for every voter.
pub open spec fn no_conflicting_ties(votes: Seq<Option<CastVote>>) -> bool {
    forall|i: int, j: int|
        #![trigger votes[i], votes[j]]
        is_latest_vote(votes, i) && is_vote_by(votes, j, votes[i]->0.voter)
            && votes[j]->0.timestamp == votes[i]->0.timestamp ==> votes[j]->0.choice
            == votes[i]->0.choice
}

/// Whether every entry of `part` is an entry of `whole`.
pub open spec fn holds_all_of(whole: Seq<Option<CastVote>>, part: Seq<Option<CastVote>>) -> bool {
    forall|i: int| 0 <= i < part.len() ==> whole.contains(#[trigger] part[i])
}

/// Two lists that hold the same votes give the same standings, provided
/// every voter's latest votes say the same.
pub proof fn lemma_standings_ignore_order(
    first: Seq<Option<CastVote>>,
    second: Seq<Option<CastVote>>,
)
    requires
        holds_all_of(second, first),
        holds_all_of(first, second),
        no_conflicting_ties(first),
    ensures
        aggregate(first) == aggregate(second),
{
    let a = aggregate(first);
    let b = aggregate(second);
    assert forall|voter: Seq<char>|
        #![trigger a.dom().contains(voter)]
        #![trigger b.dom().contains(voter)]
        a.dom().contains(voter) == b.dom().contains(voter) && (a.dom().contains(voter) ==> a[voter]
            == b[voter]) by {
        lemma_standing_is_latest_vote(first, voter);
        lemma_standing_is_latest_vote(second, voter);
        if a.contains_key(voter) {
            let i = choose|index: int|
                {
                    &&& #[trigger] is_vote_by(first, index, voter)
                    &&& is_standing_vote(first, index)
                    &&& a[voter] == standing_of(first[index]->0)
                };
            assert(second.contains(first[i]));
            let j = choose|j: int| 0 <= j < second.len() && second[j] == first[i];
            assert(is_vote_by(second, j, voter));
        }
        if b.contains_key(voter) {
            let i = choose|index: int|
                {
                    &&& #[trigger] is_vote_by(second, index, voter)
                    &&& is_standing_vote(second, index)
                    &&& b[voter] == standing_of(second[index]->0)
                };
            assert(first.contains(second[i]));
            let j = choose|j: int| 0 <= j < first.len() && first[j] == second[i];
            assert(is_vote_by(first, j, voter));
        }
        if a.contains_key(voter) {
            let i = choose|index: int|
                {
                    &&& #[trigger] is_vote_by(first, index, voter)
                    &&& is_standing_vote(first, index)
                    &&& a[voter] == standing_of(first[index]->0)
                };
            let k = choose|index: int|
                {
                    &&& #[trigger] is_vote_by(second, index, voter)
                    &&& is_standing_vote(second, index)
                    &&& b[voter] == standing_of(second[index]->0)
                };
            assert(second.contains(first[i]));
            let i2 = choose|j: int| 0 <= j < second.len() && second[j] == first[i];
            assert(first.contains(second[k]));
            let k1 = choose|j: int| 0 <= j < first.len() && first[j] == second[k];
            assert(is_vote_by(second, i2, second[k]->0.voter));
            assert(is_vote_by(first, k1, first[i]->0.voter));
            assert(first[i]->0.timestamp == second[k]->0.timestamp);
            assert(is_latest_vote(first, i)) by {
                assert forall|other: int| #[trigger]
                    is_vote_by(first, other, first[i]->0.voter) implies first[other]->0.timestamp
                    <= first[i]->0.timestamp by {}
            }
            assert(first[k1]->0.choice == first[i]->0.choice);
        }
    }
    assert(a =~= b);
}

/// Reads one ballot: decodes it, opens it with the voter's derived key and
/// classifies what it says. Where the ballot cannot be read, the reading
/// says why.
pub fn read_ballot(master_secret: &[u8], dao_account: &str, vote: &VoteData) -> (reading: Result<
    Reading,
    CryptoError,
>)
    ensures
        match reading {
            Ok(r) => ballot_reading(master_secret@, dao_account@, vote@) == Ok::<
                ReadingKind,
                CryptoFailure,
            >(r@),
            Err(e) => ballot_reading(master_secret@, dao_account@, vote@) == Err::<
                ReadingKind,
                CryptoFailure,
            >(e@),
        },
{
    match hex_decode(vote.encrypted_vote.as_str()) {
        Err(e) => Ok(Reading::Malformed { cause: hex_error_text(&e) }),
        Ok(sealed) => match decrypt_vote(
            master_secret,
            dao_account,
            vote.user.as_str(),
            sealed.as_slice(),
        ) {
            Ok(text) => match classify(text.as_str()) {
                Some(choice) => Ok(Reading::Vote(choice)),
                None => Ok(Reading::Dummy),
            },
            Err(e) => if e.failure.is_key_derivation() {
                Err(e)
            } else {
                Ok(Reading::Undecryptable(e))
            },
        },
    }
}

/// A ballot that carries, as hexadecimal text, a message sealed to its
/// voter's derived key is read as what the message says: as a choice where
/// it is `yes` or `no`, and as nothing otherwise.
pub proof fn lemma_sealed_ballot_is_read(
    secret: Seq<u8>,
    domain: Seq<char>,
    ballot: Ballot,
    sealed: Seq<u8>,
    message: Seq<u8>,
)
    requires
        derived_keypair(secret, domain, ballot.voter) is Ok,
        sealed_for(sealed, derived_keypair(secret, domain, ballot.voter)->Ok_0.1, message),
        ballot.ciphertext == hex_text(sealed),
    ensures
        ballot_reading(secret, domain, ballot) == Ok::<ReadingKind, CryptoFailure>(
            match opened_text(Some(message)) {
                Ok(text) => reading_of_text(text),
                Err(e) => ReadingKind::Undecryptable(e),
            },
        ),
{
    lemma_hex_text_round_trip(sealed);
    lemma_sealed_vote_opens(secret, domain, ballot.voter, message, sealed);
}

/// The inclusion proof of one ballot.
#[derive(Clone, Debug)]
pub struct MerkleProof {
    /// The voter's identifier.
    pub voter: String,
    /// The position of the ballot in the list.
    pub vote_index: usize,
    /// The leaf hash of the ballot.
    pub vote_hash: String,
    /// The sibling hashes from the leaf's level up to the root.
    pub proof_path: Vec<String>,
    /// When the ballot was submitted.
    pub timestamp: u64,
}

/// The model of an inclusion proof.
pub struct MerkleProofView {
    pub voter: Seq<char>,
    pub vote_index: usize,
    pub vote_hash: Seq<char>,
    pub proof_path: Seq<Seq<char>>,
    pub timestamp: u64,
}

impl View for MerkleProof {
    type V = MerkleProofView;

    open spec fn view(&self) -> MerkleProofView {
        MerkleProofView {
            voter: self.voter@,
            vote_index: self.vote_index,
            vote_hash: self.vote_hash@,
            proof_path: self.proof_path.deep_view(),
            timestamp: self.timestamp,
        }
    }
}

/// The models of a list of inclusion proofs.
pub open spec fn proofs_of(proofs: Seq<MerkleProof>) -> Seq<MerkleProofView> {
    Seq::new(proofs.len(), |i: int| proofs[i]@)
}

/// The leaf hashes of `ballots`, in submission order.
pub open spec fn ballot_leaves(ballots: Seq<Ballot>) -> Seq<Seq<char>> {
    Seq::new(
        ballots.len(),
        |i: int| leaf_hash(ballots[i].voter, ballots[i].timestamp, ballots[i].ciphertext),
    )
}

/// The root that commits to `ballots`.
pub open spec fn commitment_root(ballots: Seq<Ballot>) -> Seq<char> {
    merkle_root(ballot_leaves(ballots))
}

/// The inclusion proof of the ballot at `index`.
pub open spec fn inclusion_proof(ballots: Seq<Ballot>, index: int) -> MerkleProofView {
    MerkleProofView {
        voter: ballots[index].voter,
        vote_index: index as usize,
        vote_hash: ballot_leaves(ballots)[index],
        proof_path: proof_path(ballot_leaves(ballots), index),
        timestamp: ballots[index].timestamp,
    }
}

/// The inclusion proofs of all of `ballots`.
pub open spec fn inclusion_proofs(ballots: Seq<Ballot>) -> Seq<MerkleProofView> {
    Seq::new(ballots.len(), |i: int| inclusion_proof(ballots, i))
}

/// Whether root, leaves and paths are texts of digests; the root of no
/// ballot is empty.
pub open spec fn has_digest_sizes(root: Seq<char>, proofs: Seq<MerkleProof>) -> bool {
    &&& proofs.len() == 0 ==> root.len() == 0
    &&& proofs.len() > 0 ==> is_digest_text(root)
    &&& forall|i: int|
        0 <= i < proofs.len() ==> is_digest_text((#[trigger] proofs[i]).vote_hash@)
            && are_digest_texts(proofs[i].proof_path.deep_view())
}

/// `ballots` with the ciphertext of the ballot at `index` changed.
pub open spec fn with_ciphertext(ballots: Seq<Ballot>, index: int, ciphertext: Seq<char>) -> Seq<
    Ballot,
> {
    ballots.update(index, Ballot { ciphertext, ..ballots[index] })
}

/// Two lists of as many ballots whose leaves are not all the same are
/// committed to by two roots, unless SHA-256 gives one digest for two
/// different byte strings. So is a list and a reordering of it.
pub proof fn lemma_other_leaves_other_root(first: Seq<Ballot>, second: Seq<Ballot>)
    requires
        first.len() == second.len(),
        ballot_leaves(first) != ballot_leaves(second),
        is_tree_of_digests(ballot_leaves(first)),
        is_tree_of_digests(ballot_leaves(second)),
    ensures
        commitment_root(first) != commitment_root(second) || sha256_has_collision(),
{
    lemma_changed_leaves_change_root(ballot_leaves(first), ballot_leaves(second));
}

/// Changing the ciphertext of one ballot leaves every other leaf as it was,
/// and changes that ballot's leaf and the root, unless SHA-256 gives one
/// digest for two different byte strings.
pub proof fn lemma_tampering_is_committed(ballots: Seq<Ballot>, index: int, ciphertext: Seq<char>)
    requires
        0 <= index < ballots.len(),
        ciphertext != ballots[index].ciphertext,
        is_tree_of_digests(ballot_leaves(ballots)),
        is_tree_of_digests(ballot_leaves(with_ciphertext(ballots, index, ciphertext))),
    ensures
        forall|j: int|
            0 <= j < ballots.len() && j != index ==> #[trigger] ballot_leaves(
                with_ciphertext(ballots, index, ciphertext),
            )[j] == ballot_leaves(ballots)[j],
        sha256_has_collision() || {
            &&& ballot_leaves(with_ciphertext(ballots, index, ciphertext))[index]
                != ballot_leaves(ballots)[index]
            &&& commitment_root(with_ciphertext(ballots, index, ciphertext)) != commitment_root(
                ballots,
            )
        },
{
    let tampered = with_ciphertext(ballots, index, ciphertext);
    let ballot = ballots[index];
    lemma_changed_ciphertext_changes_leaf(
        ballot.voter,
        ballot.timestamp,
        ballot.ciphertext,
        ciphertext,
    );
    assert(ballot_leaves(tampered)[index] == leaf_hash(ballot.voter, ballot.timestamp, ciphertext));
    assert(ballot_leaves(ballots)[index] == leaf_hash(
        ballot.voter,
        ballot.timestamp,
        ballot.ciphertext,
    ));
    if ballot_leaves(tampered)[index] != ballot_leaves(ballots)[index] {
        lemma_other_leaves_other_root(tampered, ballots);
    }
}

/// Builds the hash tree over every submitted ballot, counted or not, and
/// one inclusion proof per ballot. No ballot gives the empty root and no
/// proof. Every proof leads from its ballot's leaf to the root.
pub fn build_merkle_tree_with_proofs(votes_data: &[VoteData]) -> (commitment: (
    String,
    Vec<MerkleProof>,
))
    ensures
        commitment.0@ == commitment_root(ballots_of(votes_data@)),
        commitment.1@.len() == votes_data@.len(),
        proofs_of(commitment.1@) == inclusion_proofs(ballots_of(votes_data@)),
        is_tree_of_digests(ballot_leaves(ballots_of(votes_data@))),
        has_digest_sizes(commitment.0@, commitment.1@),
        forall|i: int|
            0 <= i < votes_data@.len() ==> proves_inclusion(
                (#[trigger] commitment.1@[i]).vote_hash@,
                i,
                commitment.1@[i].proof_path.deep_view(),
                commitment.0@,
            ),
{
    let ghost ballots = ballots_of(votes_data@);
    let count = votes_data.len();
    let mut leaves: Vec<String> = Vec::new();
    let mut i: usize = 0;
    while i < count
        invariant
            count == votes_data@.len(),
            ballots == ballots_of(votes_data@),
            i <= count,
            leaves@.len() == i,
            forall|k: int| 0 <= k < i ==> (#[trigger] leaves@[k])@ == ballot_leaves(ballots)[k],
            forall|k: int| 0 <= k < i ==> is_digest_text((#[trigger] leaves@[k])@),
        decreases count - i,
    {
        let vote = &votes_data[i];
        assert(ballots[i as int] == vote@);
        leaves.push(hash_leaf(vote.user.as_str(), vote.timestamp, vote.encrypted_vote.as_str()));
        i += 1;
    }
    assert(leaves.deep_view() =~= ballot_leaves(ballots));
    assert forall|k: int| 0 <= k < leaves.deep_view().len() implies is_digest_text(
        #[trigger] leaves.deep_view()[k],
    ) by {
        assert(leaves.deep_view()[k] == leaves@[k]@);
    }
    let tree = MerkleTree::build(leaves);
    let root = tree.root();
    let mut proofs: Vec<MerkleProof> = Vec::new();
    let mut j: usize = 0;
    while j < count
        invariant
            count == votes_data@.len(),
            ballots == ballots_of(votes_data@),
            tree.leaves() == ballot_leaves(ballots),
            is_tree_of_digests(ballot_leaves(ballots)),
            root@ == commitment_root(ballots),
            j <= count,
            proofs@.len() == j,
            forall|k: int| 0 <= k < j ==> (#[trigger] proofs@[k])@ == inclusion_proof(ballots, k),
        decreases count - j,
    {
        let vote = &votes_data[j];
        assert(ballots[j as int] == vote@);
        proofs.push(
            MerkleProof {
                voter: vote.user.clone(),
                vote_index: j,
                vote_hash: tree.leaf(j),
                proof_path: tree.path(j),
                timestamp: vote.timestamp,
            },
        );
        j += 1;
    }
    assert(proofs_of(proofs@) =~= inclusion_proofs(ballots));
    assert forall|k: int| 0 <= k < votes_data@.len() implies proves_inclusion(
        (#[trigger] proofs@[k]).vote_hash@,
        k,
        proofs@[k].proof_path.deep_view(),
        root@,
    ) by {
        assert(proofs@[k]@ == inclusion_proof(ballots, k));
        lemma_proof_path_reaches_root(ballot_leaves(ballots), k);
    }
    assert forall|k: int| 0 <= k < proofs@.len() implies is_digest_text(
        (#[trigger] proofs@[k]).vote_hash@,
    ) && are_digest_texts(proofs@[k].proof_path.deep_view()) by {
        assert(proofs@[k]@ == inclusion_proof(ballots, k));
        lemma_path_holds_digest_texts(ballot_leaves(ballots), k);
    }
    proof {
        if count > 0 {
            lemma_root_is_digest_text(ballot_leaves(ballots));
        }
    }
    (root, proofs)
}

/// The quorum rules that the engine knows.
#[derive(Clone, Copy, PartialEq, Eq, Structural, Debug)]
pub enum QuorumType {
    /// At least `min_votes` voters must be counted.
    Absolute { min_votes: u64 },
}

/// The quorum policy of a request, as far as it could be read.
#[derive(Clone, Debug)]
pub enum QuorumPolicy {
    /// A rule that the engine knows.
    Known(QuorumType),
    /// Anything else; `reason` says why it could not be read.
    Unrecognized { reason: String },
}

/// Why a tally came to nothing.
#[derive(Clone, Debug)]
pub enum TallyError {
    /// The key of some voter could not be derived.
    KeyDerivation(CryptoError),
    /// More voters are counted than a count can express.
    CountOverflow,
    /// The quorum policy is none that the engine knows.
    InvalidQuorum { reason: String },
}

impl TallyError {
    /// What the error says to a reader.
    pub open spec fn message_text(self) -> Seq<char> {
        match self {
            TallyError::KeyDerivation(cause) => cause.message_text(),
            TallyError::CountOverflow => "More voters than a count can hold"@,
            TallyError::InvalidQuorum { reason } => "Invalid quorum format: "@ + reason@,
        }
    }

    /// What the error says to a reader.
    pub fn message(&self) -> (text: String)
        ensures
            text@ == self.message_text(),
    {
        match self {
            TallyError::KeyDerivation(cause) => cause.message(),
            TallyError::CountOverflow => String::from_str("More voters than a count can hold"),
            TallyError::InvalidQuorum { reason } => {
                let mut text = String::from_str("Invalid quorum format: ");
                text.append(reason.as_str());
                text
            },
        }
    }
}

/// Whether `total` counted voters meet `quorum`.
pub open spec fn quorum_met(quorum: QuorumType, total: nat) -> bool {
    match quorum {
        QuorumType::Absolute { min_votes } => total >= min_votes,
    }
}

/// Tells whether `total_votes` counted voters meet the quorum. A policy
/// that could not be read is an error.
pub fn check_quorum(quorum: &QuorumPolicy, total_votes: u32) -> (met: Result<bool, TallyError>)
    ensures
        match *quorum {
            QuorumPolicy::Known(rule) => met == Ok::<bool, TallyError>(
                quorum_met(rule, total_votes as nat),
            ),
            QuorumPolicy::Unrecognized { reason } => met matches Err(
                TallyError::InvalidQuorum { reason: given },
            ) && given@ == reason@,
        },
{
    match quorum {
        QuorumPolicy::Known(rule) => match rule {
            QuorumType::Absolute { min_votes } => Ok(total_votes as u64 >= *min_votes),
        },
        QuorumPolicy::Unrecognized { reason } => Err(
            TallyError::InvalidQuorum { reason: reason.clone() },
        ),
    }
}

/// The text that binds a result to its proposal and to the ballots it was
/// computed from.
pub open spec fn attestation_text(
    proposal_id: u64,
    merkle_root: Seq<char>,
    yes_count: u32,
    no_count: u32,
) -> Seq<char> {
    seq!['m', 'v', 'p', '-', 'a', 't', 't', 'e', 's', 't', 'a', 't', 'i', 'o', 'n', ':']
        + hex_text(
        sha256_digest(
            spec_u64_to_le_bytes(proposal_id) + encode_utf8(merkle_root) + spec_u32_to_le_bytes(
                yes_count,
            ) + spec_u32_to_le_bytes(no_count),
        ),
    )
}

/// Binds a result to its proposal and to the ballots it was computed from.
pub fn generate_tee_attestation(
    proposal_id: u64,
    votes_merkle_root: &str,
    yes_count: u32,
    no_count: u32,
) -> (attestation: String)
    ensures
        attestation@ == attestation_text(proposal_id, votes_merkle_root@, yes_count, no_count),
        attestation@.len() == 80,
{
    let mut preimage: Vec<u8> = Vec::new();
    append_bytes(&mut preimage, u64_to_le_bytes(proposal_id).as_slice());
    append_bytes(&mut preimage, votes_merkle_root.as_bytes());
    append_bytes(&mut preimage, u32_to_le_bytes(yes_count).as_slice());
    append_bytes(&mut preimage, u32_to_le_bytes(no_count).as_slice());
    let digest = sha256_hex(preimage.as_slice());
    proof {
        reveal_strlit("mvp-attestation:");
    }
    let mut attestation = String::from_str("mvp-attestation:");
    attestation.append(digest.as_str());
    assert(attestation@ =~= attestation_text(
        proposal_id,
        votes_merkle_root@,
        yes_count,
        no_count,
    ));
    attestation
}

/// The outcome of a tally.
#[derive(Debug)]
pub struct TallyResult {
    /// The proposal that was tallied.
    pub proposal_id: u64,
    /// The voters who stand at yes; present only where the quorum is met.
    pub yes_count: Option<u32>,
    /// The voters who stand at no; present only where the quorum is met.
    pub no_count: Option<u32>,
    /// The voters counted; zero where the quorum is not met.
    pub total_votes: u32,
    /// The text that binds this result to its inputs.
    pub tee_attestation: String,
    /// The root of the hash tree over all submitted ballots.
    pub votes_merkle_root: String,
    /// One inclusion proof per submitted ballot.
    pub merkle_proofs: Vec<MerkleProof>,
}

/// The model of a tally's outcome.
pub struct TallyResultView {
    pub proposal_id: u64,
    pub yes_count: Option<u32>,
    pub no_count: Option<u32>,
    pub total_votes: u32,
    pub tee_attestation: Seq<char>,
    pub votes_merkle_root: Seq<char>,
    pub merkle_proofs: Seq<MerkleProofView>,
}

impl View for TallyResult {
    type V = TallyResultView;

    open spec fn view(&self) -> TallyResultView {
        TallyResultView {
            proposal_id: self.proposal_id,
            yes_count: self.yes_count,
            no_count: self.no_count,
            total_votes: self.total_votes,
            tee_attestation: self.tee_attestation@,
            votes_merkle_root: self.votes_merkle_root@,
            merkle_proofs: proofs_of(self.merkle_proofs@),
        }
    }
}

/// What is disclosed of `yes` and `no` counted voters: the counts and their
/// sum where the quorum is met; otherwise no count, zero for the sum, and an
/// attestation over zero counts. The commitment to the ballots is disclosed
/// either way.
pub open spec fn disclosure(
    proposal_id: u64,
    ballots: Seq<Ballot>,
    yes: u32,
    no: u32,
    met: bool,
) -> TallyResultView {
    let root = commitment_root(ballots);
    TallyResultView {
        proposal_id,
        yes_count: if met {
            Some(yes)
        } else {
            None
        },
        no_count: if met {
            Some(no)
        } else {
            None
        },
        total_votes: if met {
            (yes + no) as u32
        } else {
            0
        },
        tee_attestation: if met {
            attestation_text(proposal_id, root, yes, no)
        } else {
            attestation_text(proposal_id, root, 0, 0)
        },
        votes_merkle_root: root,
        merkle_proofs: inclusion_proofs(ballots),
    }
}

/// The number of voters who stand at `choice` after `ballots`.
pub open spec fn counted(
    secret: Seq<u8>,
    domain: Seq<char>,
    ballots: Seq<Ballot>,
    choice: Choice,
) -> nat {
    count_choice(aggregate(cast_votes(secret, domain, ballots)), choice)
}

/// The result of tallying `ballots` under a known quorum rule, where the
/// counts fit.
pub open spec fn tally_of(
    secret: Seq<u8>,
    domain: Seq<char>,
    proposal_id: u64,
    ballots: Seq<Ballot>,
    quorum: QuorumType,
) -> TallyResultView {
    let yes = counted(secret, domain, ballots, Choice::Yes);
    let no = counted(secret, domain, ballots, Choice::No);
    disclosure(proposal_id, ballots, yes as u32, no as u32, quorum_met(quorum, yes + no))
}

/// Whether `result` is what tallying `ballots` comes to. The tally fails
/// on the first voter whose key cannot be derived; else where the counted
/// voters are more than a count can express; else where the quorum policy
/// could not be read.
pub open spec fn is_tally(
    secret: Seq<u8>,
    domain: Seq<char>,
    proposal_id: u64,
    ballots: Seq<Ballot>,
    quorum: QuorumPolicy,
    result: Result<TallyResult, TallyError>,
) -> bool {
    match first_failure(secret, domain, ballots) {
        Some(e) => result matches Err(TallyError::KeyDerivation(cause)) && cause@ == e,
        None => if counted(secret, domain, ballots, Choice::Yes) + counted(
            secret,
            domain,
            ballots,
            Choice::No,
        ) > u32::MAX {
            result matches Err(TallyError::CountOverflow)
        } else {
            match quorum {
                QuorumPolicy::Unrecognized { reason } => result matches Err(
                    TallyError::InvalidQuorum { reason: given },
                ) && given@ == reason@,
                QuorumPolicy::Known(rule) => result matches Ok(tally) && tally@ == tally_of(
                    secret,
                    domain,
                    proposal_id,
                    ballots,
                    rule,
                ) && proves_inclusion_all(tally) && has_digest_sizes(
                    tally.votes_merkle_root@,
                    tally.merkle_proofs@,
                ) && tally.tee_attestation@.len() == 80,
            }
        },
    }
}

/// A tally fails on a voter's key exactly if the key of some ballot's voter
/// cannot be derived.
pub proof fn lemma_failure_is_some_ballots(secret: Seq<u8>, domain: Seq<char>, ballots: Seq<Ballot>)
    ensures
        first_failure(secret, domain, ballots) is Some <==> exists|i: int|
            0 <= i < ballots.len() && (#[trigger] ballot_reading(secret, domain, ballots[i])) is Err,
    decreases ballots.len(),
{
    if ballots.len() > 0 {
        let rest = ballots.drop_first();
        lemma_failure_is_some_ballots(secret, domain, rest);
        if ballot_reading(secret, domain, ballots[0]) is Ok {
            if first_failure(secret, domain, rest) is Some {
                let i = choose|i: int|
                    0 <= i < rest.len() && (#[trigger] ballot_reading(secret, domain, rest[i])) is Err;
                assert(rest[i] == ballots[i + 1]);
            }
            if exists|i: int|
                0 <= i < ballots.len() && (#[trigger] ballot_reading(secret, domain, ballots[i]))
                    is Err {
                let i = choose|i: int|
                    0 <= i < ballots.len() && (#[trigger] ballot_reading(
                        secret,
                        domain,
                        ballots[i],
                    )) is Err;
                assert(rest[i - 1] == ballots[i]);
            }
        }
    }
}

/// Every entry of `first` is an entry of `second` where the two hold the
/// same ballots.
proof fn lemma_same_ballots_same_votes(
    secret: Seq<u8>,
    domain: Seq<char>,
    first: Seq<Ballot>,
    second: Seq<Ballot>,
)
    requires
        first.to_multiset() == second.to_multiset(),
    ensures
        holds_all_of(cast_votes(secret, domain, second), cast_votes(secret, domain, first)),
        forall|i: int| 0 <= i < first.len() ==> second.contains(#[trigger] first[i]),
{
    first.to_multiset_ensures();
    second.to_multiset_ensures();
    let a = cast_votes(secret, domain, first);
    let b = cast_votes(secret, domain, second);
    assert forall|i: int| 0 <= i < first.len() implies second.contains(#[trigger] first[i]) by {
        assert(first.contains(first[i]));
        assert(second.to_multiset().count(first[i]) > 0);
    }
    assert forall|i: int| 0 <= i < a.len() implies b.contains(#[trigger] a[i]) by {
        assert(second.contains(first[i]));
        let j = choose|j: int| 0 <= j < second.len() && second[j] == first[i];
        assert(b[j] == a[i]);
    }
}

/// Reordering the ballots changes neither whether the tally succeeds nor any
/// count, provided every voter's latest real votes say the same. Where a
/// voter's latest votes disagree, the one listed first stands, and the order
/// decides.
pub proof fn lemma_counts_ignore_order(
    secret: Seq<u8>,
    domain: Seq<char>,
    proposal_id: u64,
    first: Seq<Ballot>,
    second: Seq<Ballot>,
    quorum: QuorumType,
)
    requires
        first.to_multiset() == second.to_multiset(),
        no_conflicting_ties(cast_votes(secret, domain, first)),
    ensures
        first_failure(secret, domain, first) is None <==> first_failure(secret, domain, second)
            is None,
        aggregate(cast_votes(secret, domain, first)) == aggregate(
            cast_votes(secret, domain, second),
        ),
        tally_of(secret, domain, proposal_id, first, quorum).yes_count == tally_of(
            secret,
            domain,
            proposal_id,
            second,
            quorum,
        ).yes_count,
        tally_of(secret, domain, proposal_id, first, quorum).no_count == tally_of(
            secret,
            domain,
            proposal_id,
            second,
            quorum,
        ).no_count,
        tally_of(secret, domain, proposal_id, first, quorum).total_votes == tally_of(
            secret,
            domain,
            proposal_id,
            second,
            quorum,
        ).total_votes,
{
    lemma_same_ballots_same_votes(secret, domain, first, second);
    lemma_same_ballots_same_votes(secret, domain, second, first);
    lemma_standings_ignore_order(
        cast_votes(secret, domain, first),
        cast_votes(secret, domain, second),
    );
    lemma_failure_is_some_ballots(secret, domain, first);
    lemma_failure_is_some_ballots(secret, domain, second);
    if first_failure(secret, domain, first) is Some {
        let i = choose|i: int|
            0 <= i < first.len() && (#[trigger] ballot_reading(secret, domain, first[i])) is Err;
        assert(second.contains(first[i]));
        let j = choose|j: int| 0 <= j < second.len() && second[j] == first[i];
        assert(ballot_reading(secret, domain, second[j]) is Err);
    }
    if first_failure(secret, domain, second) is Some {
        let i = choose|i: int|
            0 <= i < second.len() && (#[trigger] ballot_reading(secret, domain, second[i])) is Err;
        assert(first.contains(second[i]));
        let j = choose|j: int| 0 <= j < first.len() && first[j] == second[i];
        assert(ballot_reading(secret, domain, first[j]) is Err);
    }
}

/// Whether every inclusion proof of `tally` leads from its leaf to the root
/// that `tally` discloses.
pub open spec fn proves_inclusion_all(tally: TallyResult) -> bool {
    forall|i: int|
        0 <= i < tally.merkle_proofs@.len() ==> proves_inclusion(
            (#[trigger] tally.merkle_proofs@[i]).vote_hash@,
            i,
            tally.merkle_proofs@[i].proof_path.deep_view(),
            tally.votes_merkle_root@,
        )
}

/// Puts together what is disclosed of a finished count.
pub fn disclose(
    proposal_id: u64,
    votes_data: &[VoteData],
    yes_count: u32,
    no_count: u32,
    quorum_met: bool,
) -> (result: TallyResult)
    requires
        yes_count + no_count <= u32::MAX,
    ensures
        result@ == disclosure(
            proposal_id,
            ballots_of(votes_data@),
            yes_count,
            no_count,
            quorum_met,
        ),
        proves_inclusion_all(result),
        has_digest_sizes(result.votes_merkle_root@, result.merkle_proofs@),
        result.tee_attestation@.len() == 80,
{
    let (votes_merkle_root, merkle_proofs) = build_merkle_tree_with_proofs(votes_data);
    let tee_attestation = if quorum_met {
        generate_tee_attestation(proposal_id, votes_merkle_root.as_str(), yes_count, no_count)
    } else {
        generate_tee_attestation(proposal_id, votes_merkle_root.as_str(), 0, 0)
    };
    TallyResult {
        proposal_id,
        yes_count: if quorum_met {
            Some(yes_count)
        } else {
            None
        },
        no_count: if quorum_met {
            Some(no_count)
        } else {
            None
        },
        total_votes: if quorum_met {
            yes_count + no_count
        } else {
            0
        },
        tee_attestation,
        votes_merkle_root,
        merkle_proofs,
    }
}

/// A tally with the account of the ballots that could not be read.
#[derive(Debug)]
pub struct TallyReport {
    /// The outcome of the tally.
    pub result: TallyResult,
    /// The ballots that could not be read, in their order.
    pub skipped: Vec<SkippedBallot>,
}

/// Whether `report` is what tallying `ballots` comes to, with the account
/// of every ballot that could not be read.
pub open spec fn is_tally_report(
    secret: Seq<u8>,
    domain: Seq<char>,
    proposal_id: u64,
    ballots: Seq<Ballot>,
    quorum: QuorumPolicy,
    report: Result<TallyReport, TallyError>,
) -> bool {
    match report {
        Ok(r) => is_tally(secret, domain, proposal_id, ballots, quorum, Ok(r.result))
            && skipped_views(r.skipped@) == skipped_of(secret, domain, ballots),
        Err(e) => is_tally(secret, domain, proposal_id, ballots, quorum, Err(e)),
    }
}

/// Tallies the ballots of one proposal, and accounts for every ballot that
/// could not be read.
///
/// Every ballot is decoded and opened with its voter's derived key. A ballot
/// that is malformed or does not open is left out of the count and entered
/// in the account; one that says neither `yes` nor `no` is left out and not
/// reported. Counts are disclosed only where the quorum is met; the
/// commitment to all submitted ballots is disclosed either way.
pub fn tally_votes_with_account(
    master_secret: &[u8],
    dao_account: &str,
    proposal_id: u64,
    votes_data: &[VoteData],
    quorum: &QuorumPolicy,
) -> (report: Result<TallyReport, TallyError>)
    ensures
        is_tally_report(
            master_secret@,
            dao_account@,
            proposal_id,
            ballots_of(votes_data@),
            *quorum,
            report,
        ),
{
    let ghost ballots = ballots_of(votes_data@);
    let ghost cast = cast_votes(master_secret@, dao_account@, ballots);
    let count = votes_data.len();
    let mut state = AggregateState::new();
    let mut skipped: Vec<SkippedBallot> = Vec::new();
    let mut i: usize = 0;
    assert(ballots.skip(0) =~= ballots);
    assert(cast.take(0) =~= Seq::<Option<CastVote>>::empty());
    assert(skipped_views(skipped@) =~= skipped_of(master_secret@, dao_account@, ballots.take(0)));
    while i < count
        invariant
            count == votes_data@.len(),
            ballots == ballots_of(votes_data@),
            cast == cast_votes(master_secret@, dao_account@, ballots),
            i <= count,
            state@ == aggregate(cast.take(i as int)),
            skipped_views(skipped@) == skipped_of(
                master_secret@,
                dao_account@,
                ballots.take(i as int),
            ),
            first_failure(master_secret@, dao_account@, ballots) == first_failure(
                master_secret@,
                dao_account@,
                ballots.skip(i as int),
            ),
        decreases count - i,
    {
        let vote = &votes_data[i];
        let ghost before = skipped_views(skipped@);
        proof {
            assert(ballots[i as int] == vote@);
            assert(ballots.skip(i as int)[0] == vote@);
            assert(ballots.skip(i as int).drop_first() =~= ballots.skip(i + 1));
            assert(cast.take(i + 1).drop_last() =~= cast.take(i as int));
            assert(cast.take(i + 1).last() == cast_vote_of(master_secret@, dao_account@, vote@));
            assert(ballots.take(i + 1).drop_last() =~= ballots.take(i as int));
            assert(ballots.take(i + 1).last() == vote@);
        }
        match read_ballot(master_secret, dao_account, vote) {
            Err(e) => {
                return Err(TallyError::KeyDerivation(e));
            },
            Ok(Reading::Vote(choice)) => {
                state.record(vote.user.as_str(), choice, vote.timestamp);
            },
            Ok(Reading::Dummy) => {},
            Ok(Reading::Malformed { cause }) => {
                let reason = SkipReason::Malformed { cause };
                skipped.push(SkippedBallot { index: i, voter: vote.user.clone(), reason });
                assert(skipped_views(skipped@) =~= before.push(skipped@[skipped@.len() - 1]@));
            },
            Ok(Reading::Undecryptable(error)) => {
                let reason = SkipReason::Undecryptable(error);
                skipped.push(SkippedBallot { index: i, voter: vote.user.clone(), reason });
                assert(skipped_views(skipped@) =~= before.push(skipped@[skipped@.len() - 1]@));
            },
        }
        i += 1;
    }
    proof {
        assert(cast.take(i as int) =~= cast);
        assert(ballots.take(i as int) =~= ballots);
    }
    let (yes, no) = state.counts();
    if yes > u32::MAX as usize || no > u32::MAX as usize || yes + no > u32::MAX as usize {
        return Err(TallyError::CountOverflow);
    }
    let yes_count = yes as u32;
    let no_count = no as u32;
    match check_quorum(quorum, yes_count + no_count) {
        Err(e) => Err(e),
        Ok(met) => Ok(
            TallyReport {
                result: disclose(proposal_id, votes_data, yes_count, no_count, met),
                skipped,
            },
        ),
    }
}

/// Tallies the ballots of one proposal.
///
/// Every ballot is decoded and opened with its voter's derived key. A ballot
/// that is malformed, does not authenticate or says neither `yes` nor `no`
/// is left out of the count. Counts are disclosed only where the quorum is
/// met; the commitment to all submitted ballots is disclosed either way.
pub fn tally_votes(
    master_secret: &[u8],
    dao_account: &str,
    proposal_id: u64,
    votes_data: &[VoteData],
    quorum: &QuorumPolicy,
) -> (result: Result<TallyResult, TallyError>)
    ensures
        is_tally(
            master_secret@,
            dao_account@,
            proposal_id,
            ballots_of(votes_data@),
            *quorum,
            result,
        ),
{
    match tally_votes_with_account(master_secret, dao_account, proposal_id, votes_data, quorum) {
        Ok(report) => Ok(report.result),
        Err(e) => Err(e),
    }
}

} // verus!
