//! Merkle roots of SSZ containers.
use vstd::prelude::*;

use crate::bytes::B256;

verus! {

/// The root that `tree_hash::merkle_root` computes over the 32-byte leaves in
/// `leaves`, in a tree with room for at least `minimum_leaf_count` leaves.
pub uninterp spec fn merkle_root_bytes(leaves: Seq<u8>, minimum_leaf_count: nat) -> Seq<u8>;

/// Calls `tree_hash::merkle_root`, which splits `leaves` into 32-byte leaves,
/// pads them with zero leaves to a power of two and hashes the tree. The
/// contract claims that the root depends on the two arguments alone; it leaves
/// unsaid which root that is. Trees deeper than the cached zero hashes make the
/// outside function panic, hence the bounds.
#[verifier::external_body]
pub(crate) fn merkle_root(leaves: &[u8], minimum_leaf_count: usize) -> (root: B256)
    requires
        leaves@.len() <= 0x10000,
        minimum_leaf_count <= 0x10000,
    ensures
        root.0@ == merkle_root_bytes(leaves@, minimum_leaf_count as nat),
{
    B256(tree_hash::merkle_root(leaves, minimum_leaf_count).0)
}

} // verus!
