//! A digest over a set of ballots that does not depend on the order in
//! which they are listed, as long as no two share voter and timestamp.
//!
//! The ballots are put in order of voter, then timestamp; ballots that agree
//! in both keep the order in which they were given.

use crate::hashing::{append_bytes, hex_text, sha256_digest, sha256_hex};
use crate::tally::{ballots_of, Ballot, VoteData};
use vstd::bytes::{spec_u64_to_le_bytes, u64_to_le_bytes};
use vstd::prelude::*;
use vstd::utf8::encode_utf8;

verus! {

/// Whether `a` comes before `b` or equals it, byte by byte; a proper prefix
/// comes first.
pub open spec fn bytes_precede(a: Seq<u8>, b: Seq<u8>) -> bool
    decreases a.len(),
{
    if a.len() == 0 {
        true
    } else if b.len() == 0 {
        false
    } else if a[0] != b[0] {
        a[0] < b[0]
    } else {
        bytes_precede(a.drop_first(), b.drop_first())
    }
}

/// Whether `first` is listed no later than `second`: by voter, then by
/// timestamp.
pub open spec fn listed_before(first: Ballot, second: Ballot) -> bool {
    if encode_utf8(first.voter) == encode_utf8(second.voter) {
        first.timestamp <= second.timestamp
    } else {
        bytes_precede(encode_utf8(first.voter), encode_utf8(second.voter))
    }
}

/// `sorted` with `ballot` put behind the last entry that is listed no later
/// than it.
pub open spec fn with_ballot(sorted: Seq<Ballot>, ballot: Ballot) -> Seq<Ballot>
    decreases sorted.len(),
{
    if sorted.len() == 0 || listed_before(sorted.last(), ballot) {
        sorted.push(ballot)
    } else {
        with_ballot(sorted.drop_last(), ballot).push(sorted.last())
    }
}

/// The ballots in order of voter, then timestamp; those that agree in both
/// in the order given.
pub open spec fn in_listing_order(ballots: Seq<Ballot>) -> Seq<Ballot>
    decreases ballots.len(),
{
    if ballots.len() == 0 {
        ballots
    } else {
        with_ballot(in_listing_order(ballots.drop_last()), ballots.last())
    }
}

/// Whether every entry is listed no later than those behind it.
pub open spec fn is_listed(ballots: Seq<Ballot>) -> bool {
    forall|i: int, j: int|
        0 <= i < j < ballots.len() ==> listed_before(#[trigger] ballots[i], #[trigger] ballots[j])
}

/// The bytes of one ballot that enter the digest.
pub open spec fn ballot_bytes(ballot: Ballot) -> Seq<u8> {
    encode_utf8(ballot.voter) + spec_u64_to_le_bytes(ballot.timestamp) + encode_utf8(
        ballot.ciphertext,
    )
}

/// The bytes of all of `ballots`, one after the other.
pub open spec fn listing_bytes(ballots: Seq<Ballot>) -> Seq<u8>
    decreases ballots.len(),
{
    if ballots.len() == 0 {
        Seq::empty()
    } else {
        listing_bytes(ballots.drop_last()) + ballot_bytes(ballots.last())
    }
}

/// The digest over `ballots`.
pub open spec fn votes_hash(ballots: Seq<Ballot>) -> Seq<char> {
    hex_text(sha256_digest(listing_bytes(in_listing_order(ballots))))
}

/// Of two byte strings one precedes the other.
pub proof fn lemma_bytes_precede_total(a: Seq<u8>, b: Seq<u8>)
    ensures
        bytes_precede(a, b) || bytes_precede(b, a),
        bytes_precede(a, b) && bytes_precede(b, a) ==> a == b,
    decreases a.len(),
{
    if a.len() > 0 && b.len() > 0 && a[0] == b[0] {
        lemma_bytes_precede_total(a.drop_first(), b.drop_first());
        if bytes_precede(a, b) && bytes_precede(b, a) {
            assert(a =~= seq![a[0]] + a.drop_first());
            assert(b =~= seq![b[0]] + b.drop_first());
        }
    } else if a.len() == 0 && b.len() == 0 {
        assert(a =~= b);
    }
}

/// Precedence of byte strings is transitive.
pub proof fn lemma_bytes_precede_transitive(a: Seq<u8>, b: Seq<u8>, c: Seq<u8>)
    requires
        bytes_precede(a, b),
        bytes_precede(b, c),
    ensures
        bytes_precede(a, c),
    decreases a.len(),
{
    if a.len() > 0 && b.len() > 0 && c.len() > 0 && a[0] == b[0] && b[0] == c[0] {
        lemma_bytes_precede_transitive(a.drop_first(), b.drop_first(), c.drop_first());
    }
}

/// The listing order is total and transitive.
pub proof fn lemma_listed_before_is_an_order(a: Ballot, b: Ballot, c: Ballot)
    ensures
        listed_before(a, b) || listed_before(b, a),
        listed_before(a, b) && listed_before(b, c) ==> listed_before(a, c),
{
    let x = encode_utf8(a.voter);
    let y = encode_utf8(b.voter);
    let z = encode_utf8(c.voter);
    lemma_bytes_precede_total(x, y);
    lemma_bytes_precede_total(y, z);
    lemma_bytes_precede_total(x, z);
    if listed_before(a, b) && listed_before(b, c) {
        if x != y {
            if y != z {
                lemma_bytes_precede_transitive(x, y, z);
                if x == z {
                    assert(bytes_precede(z, y));
                }
            }
        }
    }
}

/// Putting a ballot into an ordered list keeps the list ordered and adds
/// just that ballot.
pub proof fn lemma_with_ballot(sorted: Seq<Ballot>, ballot: Ballot)
    requires
        is_listed(sorted),
    ensures
        is_listed(with_ballot(sorted, ballot)),
        with_ballot(sorted, ballot).to_multiset() == sorted.to_multiset().insert(ballot),
        with_ballot(sorted, ballot).len() == sorted.len() + 1,
    decreases sorted.len(),
{
    broadcast use vstd::seq_lib::group_to_multiset_ensures;

    let result = with_ballot(sorted, ballot);
    if sorted.len() == 0 || listed_before(sorted.last(), ballot) {
        assert forall|i: int, j: int| 0 <= i < j < result.len() implies listed_before(
            #[trigger] result[i],
            #[trigger] result[j],
        ) by {
            if j == sorted.len() {
                if i < sorted.len() - 1 {
                    assert(listed_before(sorted[i], sorted[sorted.len() - 1]));
                }
                lemma_listed_before_is_an_order(sorted[i], sorted.last(), ballot);
            }
        }
    } else {
        let front = sorted.drop_last();
        let last = sorted.last();
        assert forall|i: int, j: int| 0 <= i < j < front.len() implies listed_before(
            #[trigger] front[i],
            #[trigger] front[j],
        ) by {
            assert(front[i] == sorted[i] && front[j] == sorted[j]);
        }
        lemma_with_ballot(front, ballot);
        let inner = with_ballot(front, ballot);
        lemma_listed_before_is_an_order(last, ballot, last);
        assert forall|i: int, j: int| 0 <= i < j < result.len() implies listed_before(
            #[trigger] result[i],
            #[trigger] result[j],
        ) by {
            if j == inner.len() {
                assert(inner.to_multiset().count(inner[i]) > 0);
                if inner[i] != ballot {
                    assert(front.to_multiset().count(inner[i]) > 0);
                    assert(front.contains(inner[i]));
                    let k = choose|k: int| 0 <= k < front.len() && front[k] == inner[i];
                    assert(listed_before(sorted[k], sorted[sorted.len() - 1]));
                }
            } else {
                assert(result[i] == inner[i] && result[j] == inner[j]);
            }
        }
        assert(sorted =~= front.push(last));
        assert(result.to_multiset() =~= sorted.to_multiset().insert(ballot));
    }
}

/// The listing is ordered and holds the ballots given, each as often as it
/// was given.
pub proof fn lemma_listing_is_sorted(ballots: Seq<Ballot>)
    ensures
        is_listed(in_listing_order(ballots)),
        in_listing_order(ballots).to_multiset() == ballots.to_multiset(),
        in_listing_order(ballots).len() == ballots.len(),
    decreases ballots.len(),
{
    broadcast use vstd::seq_lib::group_to_multiset_ensures;

    if ballots.len() > 0 {
        lemma_listing_is_sorted(ballots.drop_last());
        lemma_with_ballot(in_listing_order(ballots.drop_last()), ballots.last());
        assert(ballots =~= ballots.drop_last().push(ballots.last()));
    } else {
        assert(in_listing_order(ballots) =~= ballots);
    }
}

/// Whether two ballots of `ballots` that agree in voter and timestamp are
/// the same ballot.
pub open spec fn keys_tell_apart(ballots: Seq<Ballot>) -> bool {
    forall|i: int, j: int|
        #![trigger ballots[i], ballots[j]]
        0 <= i < ballots.len() && 0 <= j < ballots.len() && encode_utf8(ballots[i].voter)
            == encode_utf8(ballots[j].voter) && ballots[i].timestamp == ballots[j].timestamp
            ==> ballots[i] == ballots[j]
}

/// Two ordered lists of the same ballots, in which voter and timestamp tell
/// the ballots apart, are the same list.
pub proof fn lemma_listing_is_unique(first: Seq<Ballot>, second: Seq<Ballot>)
    requires
        is_listed(first),
        is_listed(second),
        first.to_multiset() == second.to_multiset(),
        keys_tell_apart(first),
    ensures
        first == second,
    decreases first.len(),
{
    broadcast use vstd::seq_lib::group_to_multiset_ensures;

    assert(first.len() == first.to_multiset().len());
    assert(second.len() == second.to_multiset().len());
    if first.len() == 0 {
        assert(first =~= second);
    } else {
        let a = first[0];
        let b = second[0];
        assert(first.contains(a));
        assert(second.to_multiset().count(a) > 0);
        assert(second.contains(a));
        let ia = choose|k: int| 0 <= k < second.len() && second[k] == a;
        assert(second.contains(b));
        assert(first.to_multiset().count(b) > 0);
        assert(first.contains(b));
        let ib = choose|k: int| 0 <= k < first.len() && first[k] == b;
        assert(listed_before(a, b)) by {
            if ib > 0 {
                assert(listed_before(first[0], first[ib]));
            } else {
                lemma_listed_before_is_an_order(a, a, a);
            }
        }
        assert(listed_before(b, a)) by {
            if ia > 0 {
                assert(listed_before(second[0], second[ia]));
            } else {
                lemma_listed_before_is_an_order(b, b, b);
            }
        }
        lemma_bytes_precede_total(encode_utf8(a.voter), encode_utf8(b.voter));
        assert(first[0] == first[ib]);
        assert(a == b);
        let rest_first = first.remove(0);
        let rest_second = second.remove(0);
        assert(rest_first.to_multiset() =~= rest_second.to_multiset());
        assert forall|i: int, j: int| 0 <= i < j < rest_first.len() implies listed_before(
            #[trigger] rest_first[i],
            #[trigger] rest_first[j],
        ) by {
            assert(rest_first[i] == first[i + 1] && rest_first[j] == first[j + 1]);
        }
        assert forall|i: int, j: int| 0 <= i < j < rest_second.len() implies listed_before(
            #[trigger] rest_second[i],
            #[trigger] rest_second[j],
        ) by {
            assert(rest_second[i] == second[i + 1] && rest_second[j] == second[j + 1]);
        }
        assert forall|i: int, j: int|
            #![trigger rest_first[i], rest_first[j]]
            0 <= i < rest_first.len() && 0 <= j < rest_first.len() && encode_utf8(
                rest_first[i].voter,
            ) == encode_utf8(rest_first[j].voter) && rest_first[i].timestamp
                == rest_first[j].timestamp implies rest_first[i] == rest_first[j] by {
            assert(rest_first[i] == first[i + 1] && rest_first[j] == first[j + 1]);
        }
        lemma_listing_is_unique(rest_first, rest_second);
        assert(first =~= seq![a] + rest_first);
        assert(second =~= seq![b] + rest_second);
    }
}

/// The digest does not depend on the order in which the ballots are given,
/// provided voter and timestamp tell them apart.
pub proof fn lemma_votes_hash_ignores_order(first: Seq<Ballot>, second: Seq<Ballot>)
    requires
        first.to_multiset() == second.to_multiset(),
        keys_tell_apart(first),
    ensures
        in_listing_order(first) == in_listing_order(second),
        votes_hash(first) == votes_hash(second),
{
    broadcast use vstd::seq_lib::group_to_multiset_ensures;

    lemma_listing_is_sorted(first);
    lemma_listing_is_sorted(second);
    let sorted = in_listing_order(first);
    assert forall|i: int, j: int|
        #![trigger sorted[i], sorted[j]]
        0 <= i < sorted.len() && 0 <= j < sorted.len() && encode_utf8(sorted[i].voter)
            == encode_utf8(sorted[j].voter) && sorted[i].timestamp
            == sorted[j].timestamp implies sorted[i] == sorted[j] by {
        assert(sorted.contains(sorted[i]) && sorted.contains(sorted[j]));
        assert(first.to_multiset().count(sorted[i]) > 0);
        assert(first.to_multiset().count(sorted[j]) > 0);
        assert(first.contains(sorted[i]) && first.contains(sorted[j]));
        let a = choose|k: int| 0 <= k < first.len() && first[k] == sorted[i];
        let b = choose|k: int| 0 <= k < first.len() && first[k] == sorted[j];
        assert(first[a] == first[b]);
    }
    lemma_listing_is_unique(sorted, in_listing_order(second));
}

/// A ballot goes behind the last entry that is listed no later than it: at
/// `position`, where every entry from there on is listed later and the one
/// before, if any, is not.
pub proof fn lemma_with_ballot_position(sorted: Seq<Ballot>, ballot: Ballot, position: int)
    requires
        0 <= position <= sorted.len(),
        forall|k: int| position <= k < sorted.len() ==> !listed_before(#[trigger] sorted[k], ballot),
        position > 0 ==> listed_before(sorted[position - 1], ballot),
    ensures
        with_ballot(sorted, ballot) == sorted.insert(position, ballot),
    decreases sorted.len(),
{
    if position == sorted.len() {
        assert(with_ballot(sorted, ballot) =~= sorted.insert(position, ballot));
    } else {
        let front = sorted.drop_last();
        assert(!listed_before(sorted[sorted.len() - 1], ballot));
        assert forall|k: int| position <= k < front.len() implies !listed_before(
            #[trigger] front[k],
            ballot,
        ) by {
            assert(front[k] == sorted[k]);
        }
        lemma_with_ballot_position(front, ballot, position);
        assert(front.insert(position, ballot).push(sorted.last()) =~= sorted.insert(
            position,
            ballot,
        ));
    }
}

/// Whether `a` comes before `b` or equals it, byte by byte.
fn precedes(a: &[u8], b: &[u8]) -> (first: bool)
    ensures
        first == bytes_precede(a@, b@),
{
    let mut i: usize = 0;
    assert(a@.skip(0) =~= a@ && b@.skip(0) =~= b@);
    while i < a.len() && i < b.len()
        invariant
            i <= a@.len(),
            i <= b@.len(),
            bytes_precede(a@, b@) == bytes_precede(a@.skip(i as int), b@.skip(i as int)),
        decreases a@.len() - i,
    {
        assert(a@.skip(i as int)[0] == a@[i as int] && b@.skip(i as int)[0] == b@[i as int]);
        if a[i] != b[i] {
            return a[i] < b[i];
        }
        assert(a@.skip(i as int).drop_first() =~= a@.skip(i + 1));
        assert(b@.skip(i as int).drop_first() =~= b@.skip(i + 1));
        i += 1;
    }
    i == a.len()
}

/// Whether `a` and `b` hold the same bytes.
fn same_bytes(a: &[u8], b: &[u8]) -> (same: bool)
    ensures
        same == (a@ == b@),
{
    if a.len() != b.len() {
        return false;
    }
    let mut i: usize = 0;
    while i < a.len()
        invariant
            a@.len() == b@.len(),
            i <= a@.len(),
            a@.take(i as int) == b@.take(i as int),
        decreases a@.len() - i,
    {
        if a[i] != b[i] {
            return false;
        }
        i += 1;
        assert(a@.take(i as int) =~= a@.take(i - 1).push(a@[i - 1]));
        assert(b@.take(i as int) =~= b@.take(i - 1).push(b@[i - 1]));
    }
    assert(a@.take(i as int) =~= a@ && b@.take(i as int) =~= b@);
    true
}

/// Whether `first` is listed no later than `second`.
pub fn is_listed_before(first: &VoteData, second: &VoteData) -> (before: bool)
    ensures
        before == listed_before(first@, second@),
{
    let a = first.user.as_str().as_bytes();
    let b = second.user.as_str().as_bytes();
    if same_bytes(a, b) {
        first.timestamp <= second.timestamp
    } else {
        precedes(a, b)
    }
}

/// The ballots at the positions that `order` names.
pub open spec fn picked(ballots: Seq<Ballot>, order: Seq<usize>) -> Seq<Ballot> {
    Seq::new(order.len(), |k: int| ballots[order[k] as int])
}

/// The positions of `votes_data` in listing order.
pub fn listing_order(votes_data: &[VoteData]) -> (order: Vec<usize>)
    ensures
        order@.len() == votes_data@.len(),
        forall|k: int| 0 <= k < order@.len() ==> (#[trigger] order@[k]) < votes_data@.len(),
        picked(ballots_of(votes_data@), order@) == in_listing_order(ballots_of(votes_data@)),
{
    let ghost ballots = ballots_of(votes_data@);
    let count = votes_data.len();
    let mut order: Vec<usize> = Vec::new();
    let mut i: usize = 0;
    assert(picked(ballots, order@) =~= in_listing_order(ballots.take(0)));
    while i < count
        invariant
            count == votes_data@.len(),
            ballots == ballots_of(votes_data@),
            i <= count,
            order@.len() == i,
            forall|k: int| 0 <= k < order@.len() ==> (#[trigger] order@[k]) < count,
            picked(ballots, order@) == in_listing_order(ballots.take(i as int)),
        decreases count - i,
    {
        let vote = &votes_data[i];
        let ghost sorted = picked(ballots, order@);
        let mut position = order.len();
        while position > 0 && !is_listed_before(&votes_data[order[position - 1]], vote)
            invariant
                count == votes_data@.len(),
                ballots == ballots_of(votes_data@),
                i < count,
                vote@ == ballots[i as int],
                position <= order@.len(),
                order@.len() == i,
                sorted == picked(ballots, order@),
                forall|k: int| 0 <= k < order@.len() ==> (#[trigger] order@[k]) < count,
                forall|k: int|
                    position <= k < sorted.len() ==> !listed_before(#[trigger] sorted[k], vote@),
            decreases position,
        {
            position -= 1;
        }
        proof {
            lemma_with_ballot_position(sorted, vote@, position as int);
            assert(ballots.take(i + 1).drop_last() =~= ballots.take(i as int));
            assert(ballots.take(i + 1).last() == vote@);
        }
        order.insert(position, i);
        assert(picked(ballots, order@) =~= sorted.insert(position as int, vote@));
        i += 1;
    }
    assert(ballots.take(i as int) =~= ballots);
    order
}

/// A digest over the ballots that is the same for every order in which they
/// can be listed, as long as no two share voter and timestamp.
pub fn compute_votes_hash(votes_data: &[VoteData]) -> (hash: String)
    ensures
        hash@ == votes_hash(ballots_of(votes_data@)),
{
    let ghost ballots = ballots_of(votes_data@);
    let ghost sorted = in_listing_order(ballots);
    let order = listing_order(votes_data);
    let mut preimage: Vec<u8> = Vec::new();
    let mut k: usize = 0;
    assert(preimage@ =~= listing_bytes(sorted.take(0)));
    while k < order.len()
        invariant
            ballots == ballots_of(votes_data@),
            sorted == picked(ballots, order@),
            k <= order@.len(),
            forall|j: int| 0 <= j < order@.len() ==> (#[trigger] order@[j]) < votes_data@.len(),
            preimage@ == listing_bytes(sorted.take(k as int)),
        decreases order@.len() - k,
    {
        let vote = &votes_data[order[k]];
        proof {
            assert(sorted.take(k + 1).drop_last() =~= sorted.take(k as int));
            assert(sorted.take(k + 1).last() == vote@);
        }
        append_bytes(&mut preimage, vote.user.as_str().as_bytes());
        append_bytes(&mut preimage, u64_to_le_bytes(vote.timestamp).as_slice());
        append_bytes(&mut preimage, vote.encrypted_vote.as_str().as_bytes());
        assert(preimage@ =~= listing_bytes(sorted.take(k as int)) + ballot_bytes(vote@));
        k += 1;
    }
    assert(sorted.take(k as int) =~= sorted);
    sha256_hex(preimage.as_slice())
}

} // verus!
