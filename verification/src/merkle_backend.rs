//! What a Merkle tree needs from a hash.

use vstd::prelude::*;
use crate::chaining::Node;

verus! {

/// How the leaves and the inner nodes of a Merkle tree are hashed, where a leaf commits to a
/// `Data`.
pub trait IsMerkleTreeBackend<Data> {
    /// Whether the data can be hashed into a leaf.
    spec fn is_leaf(leaf: Data) -> bool;

    /// The leaf that commits to the data.
    spec fn leaf_node(leaf: Data) -> Seq<u8>;

    /// The inner node over two children.
    spec fn parent_node(left: Node, right: Node) -> Seq<u8>;

    /// Hashes one leaf.
    fn hash_data(leaf: &Data) -> (node: Node)
        requires
            Self::is_leaf(*leaf),
        ensures
            node@ == Self::leaf_node(*leaf),
    ;

    /// Hashes a set of leaves, each as [`IsMerkleTreeBackend::hash_data`] hashes it.
    fn hash_leaves(unhashed_leaves: &[Data]) -> (nodes: Vec<Node>)
        requires
            forall|k: int|
                0 <= k < unhashed_leaves@.len() ==> Self::is_leaf(#[trigger] unhashed_leaves@[k]),
        ensures
            nodes@.len() == unhashed_leaves@.len(),
            forall|k: int|
                0 <= k < nodes@.len() ==> (#[trigger] nodes@[k])@ == Self::leaf_node(
                    unhashed_leaves@[k],
                ),
    {
        let mut nodes: Vec<Node> = Vec::new();
        let mut i: usize = 0;
        while i < unhashed_leaves.len()
            invariant
                i <= unhashed_leaves@.len(),
                nodes@.len() == i,
                forall|k: int|
                    0 <= k < unhashed_leaves@.len() ==> Self::is_leaf(
                        #[trigger] unhashed_leaves@[k],
                    ),
                forall|k: int|
                    0 <= k < i ==> (#[trigger] nodes@[k])@ == Self::leaf_node(unhashed_leaves@[k]),
            decreases unhashed_leaves@.len() - i,
        {
            nodes.push(Self::hash_data(&unhashed_leaves[i]));
            i = i + 1;
        }
        nodes
    }

    /// Hashes the inner node over two children.
    fn hash_new_parent(left: &Node, right: &Node) -> (node: Node)
        ensures
            node@ == Self::parent_node(*left, *right),
    ;

    /// Hashes the level above `children`, pair by pair, each as
    /// [`IsMerkleTreeBackend::hash_new_parent`] hashes it.
    fn hash_level(children: &[Node]) -> (nodes: Vec<Node>)
        requires
            children@.len() % 2 == 0,
        ensures
            2 * nodes@.len() == children@.len(),
            forall|k: int|
                0 <= k < nodes@.len() ==> (#[trigger] nodes@[k])@ == Self::parent_node(
                    children@[2 * k],
                    children@[2 * k + 1],
                ),
    ;
}

} // verus!
