//! The Merkle root of a list of hashes.

use crate::bytes::append_bytes;
use crate::crypto;
use crate::crypto::{hash, hash_of};
use vstd::prelude::*;

verus! {

/// The parent of two nodes: the hash of the left one followed by the right one.
pub open spec fn parent_of(left: crypto::Hash, right: crypto::Hash) -> crypto::Hash {
    hash_of(left.0@ + right.0@)
}

/// The level above `level`: the parents of its nodes taken two by two from
/// the left. A node that is left over at the end goes up as it is.
pub open spec fn parents(level: Seq<crypto::Hash>) -> Seq<crypto::Hash>
    decreases level.len(),
{
    if level.len() < 2 {
        level
    } else {
        seq![parent_of(level[0], level[1])] + parents(level.skip(2))
    }
}

/// The level above a level holds half as many nodes, rounded up.
pub proof fn lemma_parents_len(level: Seq<crypto::Hash>)
    ensures
        parents(level).len() == (level.len() + 1) / 2,
    decreases level.len(),
{
    if level.len() >= 2 {
        lemma_parents_len(level.skip(2));
    }
}

/// The Merkle root of `leaves`: the zero hash if there are none, the leaf
/// itself if there is one, and else the root of the level above them.
pub open spec fn merkle_root(leaves: Seq<crypto::Hash>) -> crypto::Hash
    decreases leaves.len(),
{
    if leaves.len() == 0 {
        crypto::Hash::zero()
    } else if leaves.len() == 1 {
        leaves[0]
    } else {
        proof {
            lemma_parents_len(leaves);
        }
        merkle_root(parents(leaves))
    }
}

/// The parent of two nodes.
pub fn parent(left: &crypto::Hash, right: &crypto::Hash) -> (h: crypto::Hash)
    ensures
        h == parent_of(*left, *right),
{
    let mut bytes: Vec<u8> = Vec::new();
    append_bytes(&mut bytes, left.0.as_slice());
    append_bytes(&mut bytes, right.0.as_slice());
    assert(bytes@ =~= left.0@ + right.0@);
    hash(bytes)
}

/// The level above `level`.
pub fn level_above(level: &[crypto::Hash]) -> (r: Vec<crypto::Hash>)
    ensures
        r@ == parents(level@),
{
    let mut r: Vec<crypto::Hash> = Vec::new();
    let mut i: usize = 0;
    assert(level@.skip(0) =~= level@);
    while i < level.len() && i + 1 < level.len()
        invariant
            i <= level.len(),
            parents(level@) == r@ + parents(level@.skip(i as int)),
        decreases level.len() - i,
    {
        let p = parent(&level[i], &level[i + 1]);
        proof {
            let rest = level@.skip(i as int);
            assert(rest[0] == level@[i as int]);
            assert(rest[1] == level@[i as int + 1]);
            assert(rest.skip(2) =~= level@.skip(i as int + 2));
            assert(r@.push(p) + parents(rest.skip(2)) =~= r@ + (seq![p] + parents(rest.skip(2))));
        }
        r.push(p);
        i += 2;
    }
    if i < level.len() {
        proof {
            let rest = level@.skip(i as int);
            assert(rest =~= seq![level@[i as int]]);
            assert(r@.push(level@[i as int]) =~= r@ + parents(rest));
        }
        r.push(level[i]);
    } else {
        assert(r@ =~= r@ + parents(level@.skip(i as int)));
    }
    r
}

/// The Merkle root of `leaves`.
pub fn root(leaves: &[crypto::Hash]) -> (h: crypto::Hash)
    ensures
        h == merkle_root(leaves@),
{
    if leaves.len() == 0 {
        return crypto::Hash::zeroed();
    }
    let mut level = level_above(leaves);
    if leaves.len() == 1 {
        return leaves[0];
    }
    proof {
        lemma_parents_len(leaves@);
    }
    while level.len() > 1
        invariant
            level@.len() >= 1,
            merkle_root(leaves@) == merkle_root(level@),
        decreases level@.len(),
    {
        proof {
            lemma_parents_len(level@);
        }
        level = level_above(level.as_slice());
    }
    level[0]
}

} // verus!
