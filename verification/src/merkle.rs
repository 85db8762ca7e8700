//! A binary hash tree over the submitted ballots, with inclusion proofs.
//!
//! Nodes are carried as hexadecimal text. A level with an odd number of nodes
//! pairs its last node with itself.

use crate::hashing::{
    append_bytes, hex_text, is_digest_text, lemma_digest_text_len, lemma_hex_text_tells_apart,
    sha256_collides, sha256_digest, sha256_hex,
};
use vstd::bytes::{spec_u64_to_le_bytes, u64_to_le_bytes};
use vstd::prelude::*;
use vstd::utf8::{encode_utf8, encode_utf8_decode_utf8};

verus! {

/// The hash that commits to one ballot: its voter, its timestamp as eight
/// little-endian bytes, and its ciphertext as submitted.
pub open spec fn leaf_hash(voter: Seq<char>, timestamp: u64, ciphertext: Seq<char>) -> Seq<char> {
    hex_text(sha256_digest(leaf_preimage(voter, timestamp, ciphertext)))
}

/// The hash of the node above `left` and `right`.
pub open spec fn parent_hash(left: Seq<char>, right: Seq<char>) -> Seq<char> {
    hex_text(sha256_digest(encode_utf8(left) + encode_utf8(right)))
}

/// The level above `level`: adjacent nodes paired left to right, the last
/// node paired with itself where the count is odd.
pub open spec fn next_level(level: Seq<Seq<char>>) -> Seq<Seq<char>> {
    Seq::new(
        (level.len() + 1) / 2,
        |j: int|
            parent_hash(
                level[2 * j],
                if 2 * j + 1 < level.len() {
                    level[2 * j + 1]
                } else {
                    level[2 * j]
                },
            ),
    )
}

/// The root of the tree over `level`: empty text for no node, the node itself
/// for one.
pub open spec fn merkle_root(level: Seq<Seq<char>>) -> Seq<char>
    decreases level.len(),
{
    if level.len() == 0 {
        Seq::empty()
    } else if level.len() == 1 {
        level[0]
    } else {
        merkle_root(next_level(level))
    }
}

/// The node that `level[index]` is paired with.
pub open spec fn sibling(level: Seq<Seq<char>>, index: int) -> Seq<char> {
    if index % 2 == 1 {
        level[index - 1]
    } else if index + 1 < level.len() {
        level[index + 1]
    } else {
        level[index]
    }
}

/// The siblings met on the way from `level[index]` up to the root, lowest
/// level first.
pub open spec fn proof_path(level: Seq<Seq<char>>, index: int) -> Seq<Seq<char>>
    decreases level.len(),
{
    if level.len() <= 1 {
        Seq::empty()
    } else {
        seq![sibling(level, index)] + proof_path(next_level(level), index / 2)
    }
}

/// The parent of `node` at position `index` and its sibling `other`: a node
/// at an even position is the left child.
pub open spec fn climb_step(node: Seq<char>, index: int, other: Seq<char>) -> Seq<char> {
    if index % 2 == 0 {
        parent_hash(node, other)
    } else {
        parent_hash(other, node)
    }
}

/// The hash reached from `node` at position `index` by climbing along `path`.
pub open spec fn climb(node: Seq<char>, index: int, path: Seq<Seq<char>>) -> Seq<char>
    decreases path.len(),
{
    if path.len() == 0 {
        node
    } else {
        climb(climb_step(node, index, path[0]), index / 2, path.drop_first())
    }
}

/// Whether `path` leads from `leaf` at position `index` to `root`.
pub open spec fn proves_inclusion(
    leaf: Seq<char>,
    index: int,
    path: Seq<Seq<char>>,
    root: Seq<char>,
) -> bool {
    climb(leaf, index, path) == root
}

/// Whether every node of `level` is the text of a digest.
pub open spec fn are_digest_texts(level: Seq<Seq<char>>) -> bool {
    forall|j: int| 0 <= j < level.len() ==> is_digest_text(#[trigger] level[j])
}

/// Whether every node of the tree over `level` is the text of a digest.
pub open spec fn is_tree_of_digests(level: Seq<Seq<char>>) -> bool
    decreases level.len(),
{
    &&& are_digest_texts(level)
    &&& level.len() > 1 ==> is_tree_of_digests(next_level(level))
}

/// Whether SHA-256 gives one digest for some two different byte strings.
pub open spec fn sha256_has_collision() -> bool {
    exists|first: Seq<u8>, second: Seq<u8>| #[trigger] sha256_collides(first, second)
}

/// Two nodes have the parent of two other nodes only where SHA-256 gives
/// one digest for the two pairs.
pub proof fn lemma_parent_tells_pairs_apart(
    left: Seq<char>,
    right: Seq<char>,
    other_left: Seq<char>,
    other_right: Seq<char>,
)
    requires
        is_digest_text(left),
        is_digest_text(other_left),
        left != other_left || right != other_right,
        parent_hash(left, right) == parent_hash(other_left, other_right),
    ensures
        sha256_has_collision(),
{
    let a = encode_utf8(left) + encode_utf8(right);
    let b = encode_utf8(other_left) + encode_utf8(other_right);
    lemma_digest_text_len(left);
    lemma_digest_text_len(other_left);
    encode_utf8_decode_utf8(left);
    encode_utf8_decode_utf8(other_left);
    encode_utf8_decode_utf8(right);
    encode_utf8_decode_utf8(other_right);
    if a == b {
        assert(encode_utf8(left) =~= a.take(64));
        assert(encode_utf8(other_left) =~= b.take(64));
        assert(encode_utf8(right) =~= a.skip(64));
        assert(encode_utf8(other_right) =~= b.skip(64));
        assert(false);
    }
    if sha256_digest(a) != sha256_digest(b) {
        lemma_hex_text_tells_apart(sha256_digest(a), sha256_digest(b));
    }
    assert(sha256_collides(a, b));
}

/// Two trees over as many leaves, not all the same, have two roots, unless
/// SHA-256 gives one digest for two different byte strings somewhere.
pub proof fn lemma_changed_leaves_change_root(first: Seq<Seq<char>>, second: Seq<Seq<char>>)
    requires
        first.len() == second.len(),
        first != second,
        is_tree_of_digests(first),
        is_tree_of_digests(second),
    ensures
        merkle_root(first) != merkle_root(second) || sha256_has_collision(),
    decreases first.len(),
{
    if first.len() == 0 {
        assert(first =~= second);
    } else if first.len() == 1 {
        if first[0] == second[0] {
            assert(first =~= second);
        }
    } else {
        let a = next_level(first);
        let b = next_level(second);
        if a == b {
            if forall|i: int| 0 <= i < first.len() ==> first[i] == second[i] {
                assert(first =~= second);
            }
            let i = choose|i: int| 0 <= i < first.len() && first[i] != second[i];
            let j = i / 2;
            assert(a[j] == b[j]);
            let right = if 2 * j + 1 < first.len() {
                first[2 * j + 1]
            } else {
                first[2 * j]
            };
            let other_right = if 2 * j + 1 < second.len() {
                second[2 * j + 1]
            } else {
                second[2 * j]
            };
            assert(is_digest_text(first[2 * j]));
            assert(is_digest_text(second[2 * j]));
            lemma_parent_tells_pairs_apart(first[2 * j], right, second[2 * j], other_right);
        } else {
            lemma_changed_leaves_change_root(a, b);
        }
    }
}

/// The `depth`-th level above `leaves`.
pub open spec fn level_at(leaves: Seq<Seq<char>>, depth: nat) -> Seq<Seq<char>>
    decreases depth,
{
    if depth == 0 {
        leaves
    } else {
        next_level(level_at(leaves, (depth - 1) as nat))
    }
}

/// Every leaf's proof path leads to the root of the tree it was taken from.
pub proof fn lemma_proof_path_reaches_root(level: Seq<Seq<char>>, index: int)
    requires
        0 <= index < level.len(),
    ensures
        proves_inclusion(level[index], index, proof_path(level, index), merkle_root(level)),
    decreases level.len(),
{
    if level.len() > 1 {
        let above = next_level(level);
        let path = proof_path(level, index);
        assert(path.drop_first() =~= proof_path(above, index / 2));
        assert(climb_step(level[index], index, path[0]) == above[index / 2]);
        lemma_proof_path_reaches_root(above, index / 2);
    }
}

/// The bytes of one ballot that its leaf is the digest of.
pub open spec fn leaf_preimage(voter: Seq<char>, timestamp: u64, ciphertext: Seq<char>) -> Seq<u8> {
    encode_utf8(voter) + spec_u64_to_le_bytes(timestamp) + encode_utf8(ciphertext)
}

/// A ballot whose ciphertext alone is changed has another leaf, unless
/// SHA-256 gives one digest for the two ballots.
pub proof fn lemma_changed_ciphertext_changes_leaf(
    voter: Seq<char>,
    timestamp: u64,
    first: Seq<char>,
    second: Seq<char>,
)
    requires
        first != second,
    ensures
        leaf_hash(voter, timestamp, first) != leaf_hash(voter, timestamp, second)
            || sha256_collides(
            leaf_preimage(voter, timestamp, first),
            leaf_preimage(voter, timestamp, second),
        ),
{
    let head = encode_utf8(voter) + spec_u64_to_le_bytes(timestamp);
    let a = leaf_preimage(voter, timestamp, first);
    let b = leaf_preimage(voter, timestamp, second);
    encode_utf8_decode_utf8(first);
    encode_utf8_decode_utf8(second);
    assert(encode_utf8(first) != encode_utf8(second));
    if a == b {
        assert(a =~= head + encode_utf8(first));
        assert(b =~= head + encode_utf8(second));
        assert(encode_utf8(first) =~= a.skip(head.len() as int));
        assert(encode_utf8(second) =~= b.skip(head.len() as int));
    }
    if sha256_digest(a) != sha256_digest(b) {
        lemma_hex_text_tells_apart(sha256_digest(a), sha256_digest(b));
    }
}

/// Hashes one ballot into its leaf.
pub fn hash_leaf(voter: &str, timestamp: u64, ciphertext: &str) -> (hash: String)
    ensures
        hash@ == leaf_hash(voter@, timestamp, ciphertext@),
        is_digest_text(hash@),
        hash@.len() == 64,
{
    let mut preimage: Vec<u8> = Vec::new();
    append_bytes(&mut preimage, voter.as_bytes());
    let stamp = u64_to_le_bytes(timestamp);
    append_bytes(&mut preimage, stamp.as_slice());
    append_bytes(&mut preimage, ciphertext.as_bytes());
    sha256_hex(preimage.as_slice())
}

/// Hashes two adjacent nodes into their parent.
pub fn hash_pair(left: &str, right: &str) -> (hash: String)
    ensures
        hash@ == parent_hash(left@, right@),
        is_digest_text(hash@),
        hash@.len() == 64,
{
    let mut preimage: Vec<u8> = Vec::new();
    append_bytes(&mut preimage, left.as_bytes());
    append_bytes(&mut preimage, right.as_bytes());
    sha256_hex(preimage.as_slice())
}

/// The position above which `index` lies after `depth` levels.
pub open spec fn position_at(index: int, depth: nat) -> int
    decreases depth,
{
    if depth == 0 {
        index
    } else {
        position_at(index, (depth - 1) as nat) / 2
    }
}

/// While every level below `depth` holds more than one node, the root of the
/// tree is the root of its `depth`-th level.
pub proof fn lemma_root_of_level(leaves: Seq<Seq<char>>, depth: nat)
    requires
        forall|k: nat| k < depth ==> (#[trigger] level_at(leaves, k)).len() > 1,
    ensures
        merkle_root(leaves) == merkle_root(level_at(leaves, depth)),
    decreases depth,
{
    if depth > 0 {
        lemma_root_of_level(leaves, (depth - 1) as nat);
        assert(level_at(leaves, (depth - 1) as nat).len() > 1);
    }
}

/// While every level below `depth` holds more than one node, a proof path
/// starts with one sibling from each of those levels.
pub proof fn lemma_path_of_level(leaves: Seq<Seq<char>>, index: int, depth: nat)
    requires
        forall|k: nat| k < depth ==> (#[trigger] level_at(leaves, k)).len() > 1,
    ensures
        proof_path(leaves, index) == Seq::new(
            depth,
            |k: int| sibling(level_at(leaves, k as nat), position_at(index, k as nat)),
        ) + proof_path(level_at(leaves, depth), position_at(index, depth)),
    decreases depth,
{
    let head = |d: nat|
        Seq::new(d, |k: int| sibling(level_at(leaves, k as nat), position_at(index, k as nat)));
    if depth == 0 {
        assert(proof_path(leaves, index) =~= head(0) + proof_path(leaves, index));
    } else {
        let below = (depth - 1) as nat;
        lemma_path_of_level(leaves, index, below);
        assert(level_at(leaves, below).len() > 1);
        assert(head(depth) =~= head(below) + seq![
            sibling(level_at(leaves, below), position_at(index, below)),
        ]);
        assert(proof_path(leaves, index) =~= head(depth) + proof_path(
            level_at(leaves, depth),
            position_at(index, depth),
        ));
    }
}

/// Levels of digest texts, of which all but the topmost hold more than one
/// node, make a tree of digests.
pub proof fn lemma_levels_make_tree(leaves: Seq<Seq<char>>, top: nat, depth: nat)
    requires
        depth <= top,
        forall|k: nat| depth <= k <= top ==> are_digest_texts(#[trigger] level_at(leaves, k)),
        forall|k: nat| k < top ==> (#[trigger] level_at(leaves, k)).len() > 1,
        level_at(leaves, top).len() <= 1,
    ensures
        is_tree_of_digests(level_at(leaves, depth)),
    decreases top - depth,
{
    assert(are_digest_texts(level_at(leaves, depth)));
    if depth < top {
        assert(level_at(leaves, depth).len() > 1);
        lemma_levels_make_tree(leaves, top, depth + 1);
        assert(level_at(leaves, depth + 1) == next_level(level_at(leaves, depth)));
    } else {
        assert(level_at(leaves, depth).len() <= 1);
    }
}

/// The root of a tree of digests is the text of a digest.
pub proof fn lemma_root_is_digest_text(level: Seq<Seq<char>>)
    requires
        is_tree_of_digests(level),
        level.len() >= 1,
    ensures
        is_digest_text(merkle_root(level)),
    decreases level.len(),
{
    if level.len() > 1 {
        lemma_root_is_digest_text(next_level(level));
    }
}

/// The proof paths of a tree of digests hold texts of digests.
pub proof fn lemma_path_holds_digest_texts(level: Seq<Seq<char>>, index: int)
    requires
        is_tree_of_digests(level),
        0 <= index < level.len(),
    ensures
        are_digest_texts(proof_path(level, index)),
    decreases level.len(),
{
    if level.len() > 1 {
        lemma_path_holds_digest_texts(next_level(level), index / 2);
        let path = proof_path(level, index);
        let rest = proof_path(next_level(level), index / 2);
        assert forall|j: int| 0 <= j < path.len() implies is_digest_text(#[trigger] path[j]) by {
            if j > 0 {
                assert(path[j] == rest[j - 1]);
            }
        }
    }
}

/// The hash tree over a list of leaves, held level by level from the leaves
/// up to the root.
pub struct MerkleTree {
    levels: Vec<Vec<String>>,
}

impl MerkleTree {
    /// The leaves that the tree was built over.
    pub closed spec fn leaves(&self) -> Seq<Seq<char>> {
        self.levels@[0].deep_view()
    }

    /// The tree holds every level above its leaves, and ends at the first
    /// level that has no more than one node.
    #[verifier::type_invariant]
    spec fn holds_all_levels(self) -> bool {
        &&& self.levels@.len() >= 1
        &&& forall|k: int|
            0 <= k < self.levels@.len() ==> (#[trigger] self.levels@[k]).deep_view() == level_at(
                self.leaves(),
                k as nat,
            )
        &&& forall|k: nat|
            k < self.levels@.len() - 1 ==> (#[trigger] level_at(self.leaves(), k)).len() > 1
        &&& level_at(self.leaves(), (self.levels@.len() - 1) as nat).len() <= 1
    }

    /// Builds the tree over `leaves`. Over texts of digests it is a tree of
    /// such.
    pub fn build(leaves: Vec<String>) -> (tree: MerkleTree)
        ensures
            tree.leaves() == leaves.deep_view(),
            are_digest_texts(leaves.deep_view()) ==> is_tree_of_digests(leaves.deep_view()),
    {
        let ghost base = leaves.deep_view();
        let mut width = leaves.len();
        let mut levels: Vec<Vec<String>> = Vec::new();
        levels.push(leaves);
        while width > 1
            invariant
                levels@.len() >= 1,
                levels@[0].deep_view() == base,
                width == levels@[levels@.len() - 1].len(),
                forall|k: int|
                    0 <= k < levels@.len() ==> (#[trigger] levels@[k]).deep_view() == level_at(
                        base,
                        k as nat,
                    ),
                forall|k: nat| k < levels@.len() - 1 ==> (#[trigger] level_at(base, k)).len() > 1,
                forall|k: nat|
                    1 <= k < levels@.len() ==> are_digest_texts(#[trigger] level_at(base, k)),
            decreases width,
        {
            let ghost depth = levels@.len();
            let above = pair_level(&levels[levels.len() - 1]);
            assert(above.deep_view() == level_at(base, depth));
            width = above.len();
            levels.push(above);
            assert forall|k: nat| k < levels@.len() - 1 implies (#[trigger] level_at(
                base,
                k,
            )).len() > 1 by {
                if k == depth - 1 {
                    assert(levels@[k as int].deep_view() == level_at(base, k));
                }
            }
        }
        assert(levels@[levels@.len() - 1].deep_view() == level_at(
            base,
            (levels@.len() - 1) as nat,
        ));
        proof {
            if are_digest_texts(base) {
                assert(level_at(base, 0) == base);
                lemma_levels_make_tree(base, (levels@.len() - 1) as nat, 0);
            }
        }
        MerkleTree { levels }
    }

    /// The number of leaves.
    pub fn leaf_count(&self) -> (count: usize)
        ensures
            count == self.leaves().len(),
    {
        proof {
            use_type_invariant(self);
        }
        self.levels[0].len()
    }

    /// The leaf at `index`.
    pub fn leaf(&self, index: usize) -> (leaf: String)
        requires
            index < self.leaves().len(),
        ensures
            leaf@ == self.leaves()[index as int],
    {
        proof {
            use_type_invariant(self);
        }
        assert(self.levels@[0].deep_view()[index as int] == self.levels@[0]@[index as int]@);
        self.levels[0][index].clone()
    }

    /// The root: empty text for a tree without leaves.
    pub fn root(&self) -> (root: String)
        ensures
            root@ == merkle_root(self.leaves()),
    {
        proof {
            use_type_invariant(self);
        }
        let top = &self.levels[self.levels.len() - 1];
        proof {
            lemma_root_of_level(self.leaves(), (self.levels@.len() - 1) as nat);
            assert(top.deep_view() == level_at(self.leaves(), (self.levels@.len() - 1) as nat));
        }
        if top.len() == 0 {
            String::new()
        } else {
            assert(top.deep_view()[0] == top@[0]@);
            top[0].clone()
        }
    }

    /// The inclusion proof of the leaf at `index`: one sibling per level,
    /// lowest level first.
    pub fn path(&self, index: usize) -> (path: Vec<String>)
        requires
            index < self.leaves().len(),
        ensures
            path.deep_view() == proof_path(self.leaves(), index as int),
    {
        proof {
            use_type_invariant(self);
        }
        let ghost base = self.leaves();
        let mut path: Vec<String> = Vec::new();
        let mut position = index;
        let mut depth: usize = 0;
        assert(self.levels@[0].deep_view() == level_at(base, 0));
        let height = self.levels.len();
        while depth + 1 < height
            invariant
                self.holds_all_levels(),
                base == self.leaves(),
                depth < self.levels@.len(),
                position == position_at(index as int, depth as nat),
                position < level_at(base, depth as nat).len(),
                height == self.levels@.len(),
                path@.len() == depth,
                forall|k: int|
                    0 <= k < depth ==> (#[trigger] path@[k])@ == sibling(
                        level_at(base, k as nat),
                        position_at(index as int, k as nat),
                    ),
            decreases self.levels@.len() - depth,
        {
            let level = &self.levels[depth];
            assert(level.deep_view() == level_at(base, depth as nat));
            assert(self.levels@[depth + 1].deep_view() == level_at(base, (depth + 1) as nat));
            let other = if position % 2 == 1 {
                position - 1
            } else if position + 1 < level.len() {
                position + 1
            } else {
                position
            };
            assert(level.deep_view()[other as int] == level@[other as int]@);
            path.push(level[other].clone());
            position = position / 2;
            depth = depth + 1;
        }
        proof {
            lemma_path_of_level(base, index as int, depth as nat);
            assert(proof_path(level_at(base, depth as nat), position as int) =~= Seq::empty());
            assert(path.deep_view() =~= proof_path(base, index as int));
        }
        path
    }
}

/// The level above `level`.
pub fn pair_level(level: &Vec<String>) -> (above: Vec<String>)
    ensures
        above.deep_view() == next_level(level.deep_view()),
        are_digest_texts(above.deep_view()),
{
    let count = level.len() / 2 + level.len() % 2;
    let mut above: Vec<String> = Vec::new();
    let mut j: usize = 0;
    while j < count
        invariant
            count == (level@.len() + 1) / 2,
            level@.len() <= usize::MAX,
            j <= count,
            above@.len() == j,
            forall|k: int|
                0 <= k < j ==> (#[trigger] above@[k])@ == next_level(level.deep_view())[k],
            forall|k: int| 0 <= k < j ==> is_digest_text((#[trigger] above@[k])@),
        decreases count - j,
    {
        let left = &level[2 * j];
        let right = if 2 * j + 1 < level.len() {
            &level[2 * j + 1]
        } else {
            left
        };
        assert(level.deep_view()[2 * j] == left@);
        assert(2 * j + 1 < level.len() ==> level.deep_view()[2 * j + 1] == right@);
        above.push(hash_pair(left.as_str(), right.as_str()));
        j += 1;
    }
    assert(above.deep_view() =~= next_level(level.deep_view()));
    assert forall|k: int| 0 <= k < above.deep_view().len() implies is_digest_text(
        #[trigger] above.deep_view()[k],
    ) by {
        assert(above.deep_view()[k] == above@[k]@);
    }
    above
}

/// Recomputes the root from `leaf_hash` at position `index` along
/// `proof_path`, and tells whether it is `root`.
pub fn verify_merkle_proof(
    leaf_hash: &str,
    index: usize,
    proof_path: &Vec<String>,
    root: &str,
) -> (ok: bool)
    ensures
        ok == proves_inclusion(leaf_hash@, index as int, proof_path.deep_view(), root@),
{
    let ghost path = proof_path.deep_view();
    let mut node = leaf_hash.to_owned();
    let mut position = index;
    let mut depth: usize = 0;
    assert(path.skip(0) =~= path);
    while depth < proof_path.len()
        invariant
            depth <= proof_path@.len(),
            path == proof_path.deep_view(),
            climb(leaf_hash@, index as int, path) == climb(
                node@,
                position as int,
                path.skip(depth as int),
            ),
        decreases proof_path@.len() - depth,
    {
        let other = &proof_path[depth];
        assert(path.skip(depth as int)[0] == other@);
        assert(path.skip(depth as int).drop_first() =~= path.skip(depth + 1));
        node = if position % 2 == 0 {
            hash_pair(node.as_str(), other.as_str())
        } else {
            hash_pair(other.as_str(), node.as_str())
        };
        position = position / 2;
        depth = depth + 1;
    }
    let claimed = root.to_owned();
    node == claimed
}

} // verus!
