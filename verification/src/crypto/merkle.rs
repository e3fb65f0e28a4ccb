//! Merkle trees over hashes, with inclusion proofs.
//!
//! Leaves and inner nodes are hashed with different one-byte prefixes, so that
//! the hash of an inner node is never the hash of a leaf's preimage.
use crate::crypto::hash::{blake3_hash, joined, zero_hash, Digest};
use vstd::prelude::*;

verus! {

pub const MERKLE_LEAF_PREFIX: u8 = 0;

pub const MERKLE_NODE_PREFIX: u8 = 1;

/// The tree node of a leaf value.
pub open spec fn leaf_node(leaf: Seq<u8>) -> Seq<u8> {
    blake3_hash(seq![MERKLE_LEAF_PREFIX] + leaf)
}

/// The tree node above two children.
pub open spec fn inner_node(left: Seq<u8>, right: Seq<u8>) -> Seq<u8> {
    blake3_hash(seq![MERKLE_NODE_PREFIX] + left + right)
}

/// The right-hand neighbour of an even position; the last node of an odd level
/// is its own.
pub open spec fn right_of(level: Seq<Seq<u8>>, i: int) -> Seq<u8> {
    if i + 1 < level.len() {
        level[i + 1]
    } else {
        level[i]
    }
}

/// The level above: one node for every two.
pub open spec fn level_above(level: Seq<Seq<u8>>) -> Seq<Seq<u8>> {
    Seq::new(
        ((level.len() + 1) / 2) as nat,
        |i: int| inner_node(level[2 * i], right_of(level, 2 * i)),
    )
}

/// The node at the top of the tree over a non-empty level.
pub open spec fn apex(level: Seq<Seq<u8>>) -> Seq<u8>
    decreases level.len(),
{
    if level.len() <= 1 {
        level[0]
    } else {
        apex(level_above(level))
    }
}

/// The bottom level of the tree over some leaf values.
pub open spec fn leaf_level(leaves: Seq<Digest>) -> Seq<Seq<u8>> {
    Seq::new(leaves.len(), |i: int| leaf_node(leaves[i]@))
}

/// The Merkle root of a list of leaf values.
pub open spec fn root_of(leaves: Seq<Digest>) -> Seq<u8> {
    if leaves.len() == 0 {
        zero_hash()
    } else {
        apex(leaf_level(leaves))
    }
}

/// The sibling of position `i` in a level, and whether it stands to the right.
pub open spec fn sibling_of(level: Seq<Seq<u8>>, i: int) -> (Seq<u8>, bool) {
    if i % 2 == 0 {
        (right_of(level, i), true)
    } else {
        (level[i - 1], false)
    }
}

/// The siblings on the way from position `i` up to the top.
pub open spec fn path_from(level: Seq<Seq<u8>>, i: int) -> Seq<(Seq<u8>, bool)>
    decreases level.len(),
{
    if level.len() <= 1 {
        Seq::empty()
    } else {
        seq![sibling_of(level, i)] + path_from(level_above(level), i / 2)
    }
}

/// The node above `node` and the sibling that a step names.
pub open spec fn climb_one(node: Seq<u8>, step: (Seq<u8>, bool)) -> Seq<u8> {
    if step.1 {
        inner_node(node, step.0)
    } else {
        inner_node(step.0, node)
    }
}

/// The node that a whole path leads to.
pub open spec fn climb(node: Seq<u8>, path: Seq<(Seq<u8>, bool)>) -> Seq<u8>
    decreases path.len(),
{
    if path.len() == 0 {
        node
    } else {
        climb_one(climb(node, path.drop_last()), path.last())
    }
}

proof fn climb_from_below(node: Seq<u8>, first: (Seq<u8>, bool), rest: Seq<(Seq<u8>, bool)>)
    ensures
        climb(node, seq![first] + rest) == climb(climb_one(node, first), rest),
    decreases rest.len(),
{
    let path = seq![first] + rest;
    if rest.len() == 0 {
        assert(path.drop_last() =~= Seq::empty());
        assert(climb(node, path.drop_last()) == node);
    } else {
        assert(path.drop_last() =~= seq![first] + rest.drop_last());
        climb_from_below(node, first, rest.drop_last());
    }
}

/// The path from any position of a level leads to the top of its tree.
pub proof fn path_leads_to_apex(level: Seq<Seq<u8>>, i: int)
    requires
        0 <= i < level.len(),
    ensures
        climb(level[i], path_from(level, i)) == apex(level),
    decreases level.len(),
{
    if level.len() > 1 {
        let above = level_above(level);
        path_leads_to_apex(above, i / 2);
        climb_from_below(level[i], sibling_of(level, i), path_from(above, i / 2));
        if i % 2 == 0 {
            assert(2 * (i / 2) == i);
        } else {
            assert(2 * (i / 2) == i - 1);
        }
        assert(above[i / 2] == climb_one(level[i], sibling_of(level, i)));
    }
}

/// The proof for any leaf of a tree is accepted against the tree's root.
pub proof fn inclusion_proofs_verify(leaves: Seq<Digest>, i: int)
    requires
        0 <= i < leaves.len(),
    ensures
        climb(leaf_node(leaves[i]@), path_from(leaf_level(leaves), i)) == root_of(leaves),
{
    path_leads_to_apex(leaf_level(leaves), i);
}

pub fn merkle_leaf_hash(leaf: &Digest) -> (r: Digest)
    ensures
        r@ == leaf_node(leaf@),
{
    let prefix: [u8; 1] = [MERKLE_LEAF_PREFIX];
    let parts: [&[u8]; 2] = [
        vstd::array::array_as_slice(&prefix),
        vstd::array::array_as_slice(leaf.as_bytes()),
    ];
    proof {
        let p = parts@;
        assert(p.drop_last().drop_last() =~= Seq::empty());
        assert(joined(p.drop_last().drop_last()) == Seq::<u8>::empty());
        assert(joined(p.drop_last()) =~= seq![MERKLE_LEAF_PREFIX]);
        assert(joined(p) =~= seq![MERKLE_LEAF_PREFIX] + leaf@);
    }
    Digest::digest_many(vstd::array::array_as_slice(&parts))
}

pub fn merkle_node_hash(left: &Digest, right: &Digest) -> (r: Digest)
    ensures
        r@ == inner_node(left@, right@),
{
    let prefix: [u8; 1] = [MERKLE_NODE_PREFIX];
    let parts: [&[u8]; 3] = [
        vstd::array::array_as_slice(&prefix),
        vstd::array::array_as_slice(left.as_bytes()),
        vstd::array::array_as_slice(right.as_bytes()),
    ];
    proof {
        let p = parts@;
        assert(p.drop_last().drop_last().drop_last() =~= Seq::empty());
        assert(joined(p.drop_last().drop_last().drop_last()) == Seq::<u8>::empty());
        assert(joined(p.drop_last().drop_last()) =~= seq![MERKLE_NODE_PREFIX]);
        assert(joined(p.drop_last()) =~= seq![MERKLE_NODE_PREFIX] + left@);
        assert(joined(p) =~= seq![MERKLE_NODE_PREFIX] + left@ + right@);
    }
    Digest::digest_many(vstd::array::array_as_slice(&parts))
}

pub open spec fn digests(s: Seq<Digest>) -> Seq<Seq<u8>> {
    Seq::new(s.len(), |i: int| s[i]@)
}

fn leaf_nodes(hashes: &[Digest]) -> (r: Vec<Digest>)
    ensures
        digests(r@) == leaf_level(hashes@),
        r.len() == hashes.len(),
{
    let mut level: Vec<Digest> = Vec::new();
    let mut i: usize = 0;
    while i < hashes.len()
        invariant
            i <= hashes.len(),
            level.len() == i,
            forall|k: int| 0 <= k < i ==> (#[trigger] level@[k])@ == leaf_node(hashes@[k]@),
        decreases hashes.len() - i,
    {
        level.push(merkle_leaf_hash(&hashes[i]));
        i = i + 1;
    }
    assert(digests(level@) =~= leaf_level(hashes@));
    level
}

fn next_level(level: &Vec<Digest>) -> (r: Vec<Digest>)
    requires
        level.len() >= 2,
    ensures
        digests(r@) == level_above(digests(level@)),
        1 <= r.len() < level.len(),
{
    let n: usize = level.len();
    let mut next: Vec<Digest> = Vec::new();
    let mut i: usize = 0;
    while i < n
        invariant
            n == level.len(),
            n >= 2,
            i <= n + 1,
            i % 2 == 0,
            next.len() == i / 2,
            forall|k: int|
                0 <= k < i / 2 ==> (#[trigger] next@[k])@ == inner_node(
                    digests(level@)[2 * k],
                    right_of(digests(level@), 2 * k),
                ),
        decreases n + 1 - i,
    {
        let right = if n - i > 1 {
            level[i + 1]
        } else {
            level[i]
        };
        next.push(merkle_node_hash(&level[i], &right));
        if n - i <= 2 {
            proof {
                assert(digests(next@) =~= level_above(digests(level@)));
            }
            return next;
        }
        i = i + 2;
    }
    proof {
        assert(digests(next@) =~= level_above(digests(level@)));
    }
    next
}

/// The Merkle root over a list of leaf hashes; the zero hash for none.
pub fn merkle_root(hashes: &[Digest]) -> (r: Digest)
    ensures
        r@ == root_of(hashes@),
{
    if hashes.len() == 0 {
        return Digest::zero();
    }
    let mut current = leaf_nodes(hashes);
    while current.len() > 1
        invariant
            current.len() >= 1,
            apex(digests(current@)) == apex(leaf_level(hashes@)),
        decreases current.len(),
    {
        current = next_level(&current);
    }
    current[0]
}

/// One step of an inclusion proof: the sibling at a level of the tree, and
/// whether it stands to the right of the node being proved.
#[derive(Debug, Clone, Copy, PartialEq, Eq)]
pub struct MerkleProofStep {
    pub sibling: Digest,
    pub sibling_is_right: bool,
}

impl View for MerkleProofStep {
    type V = (Seq<u8>, bool);

    open spec fn view(&self) -> (Seq<u8>, bool) {
        (self.sibling@, self.sibling_is_right)
    }
}

pub open spec fn steps(s: Seq<MerkleProofStep>) -> Seq<(Seq<u8>, bool)> {
    Seq::new(s.len(), |i: int| s[i]@)
}

/// The inclusion proof for the leaf at `index`, or `None` past the end.
pub fn merkle_proof(hashes: &[Digest], index: usize) -> (r: Option<Vec<MerkleProofStep>>)
    ensures
        r is None <==> index >= hashes@.len(),
        r is Some ==> steps(r->0@) == path_from(leaf_level(hashes@), index as int),
        r is Some ==> climb(leaf_node(hashes@[index as int]@), steps(r->0@)) == root_of(hashes@),
{
    if index >= hashes.len() {
        return None;
    }
    let mut proof_steps: Vec<MerkleProofStep> = Vec::new();
    let mut current = leaf_nodes(hashes);
    let mut idx: usize = index;
    while current.len() > 1
        invariant
            0 <= idx < current.len(),
            steps(proof_steps@) + path_from(digests(current@), idx as int) == path_from(
                leaf_level(hashes@),
                index as int,
            ),
        decreases current.len(),
    {
        let ghost before = steps(proof_steps@);
        let ghost level = digests(current@);
        let step = if idx % 2 == 0 {
            let sibling = if current.len() - idx > 1 {
                current[idx + 1]
            } else {
                current[idx]
            };
            MerkleProofStep { sibling, sibling_is_right: true }
        } else {
            MerkleProofStep { sibling: current[idx - 1], sibling_is_right: false }
        };
        proof {
            assert(step@ == sibling_of(level, idx as int));
        }
        proof_steps.push(step);
        current = next_level(&current);
        proof {
            assert(steps(proof_steps@) =~= before.push(sibling_of(level, idx as int)));
            let rest = path_from(level_above(level), idx as int / 2);
            assert(before + (seq![sibling_of(level, idx as int)] + rest) =~= before.push(
                sibling_of(level, idx as int),
            ) + rest);
        }
        idx = idx / 2;
    }
    proof {
        assert(steps(proof_steps@) + path_from(digests(current@), idx as int) =~= steps(
            proof_steps@,
        ));
        inclusion_proofs_verify(hashes@, index as int);
    }
    Some(proof_steps)
}

/// Whether `proof_steps` lead from `leaf` to `root`.
pub fn verify_merkle_proof(leaf: Digest, proof_steps: &[MerkleProofStep], root: Digest) -> (r: bool)
    ensures
        r == (climb(leaf_node(leaf@), steps(proof_steps@)) == root@),
{
    let mut current = merkle_leaf_hash(&leaf);
    let mut i: usize = 0;
    while i < proof_steps.len()
        invariant
            i <= proof_steps.len(),
            current@ == climb(leaf_node(leaf@), steps(proof_steps@).take(i as int)),
        decreases proof_steps.len() - i,
    {
        let step = &proof_steps[i];
        current = if step.sibling_is_right {
            merkle_node_hash(&current, &step.sibling)
        } else {
            merkle_node_hash(&step.sibling, &current)
        };
        proof {
            let next = steps(proof_steps@).take(i + 1);
            assert(next.drop_last() =~= steps(proof_steps@).take(i as int));
            assert(next.last() == step@);
        }
        i = i + 1;
    }
    proof {
        assert(steps(proof_steps@).take(i as int) =~= steps(proof_steps@));
    }
    current.same(&root)
}

} // verus!
