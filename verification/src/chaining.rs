//! The calls into the `blake3` crate, and what is taken for granted about them.
//!
//! BLAKE3 hashes a long input as a tree. Every node of the tree below the root has a
//! 32-byte *chaining value*. Three functions of the crate produce such values, and each of
//! them gets a name here, over plain byte sequences:
//!
//! * [`subtree_chaining_value`] of a non-empty byte string,
//! * [`parent_chaining_value`] of two chaining values,
//! * [`block_chain_output`] of a message of whole blocks, under explicit key words, counter and
//!   flags.
//!
//! The three are linked by two facts, collected in [`is_batch_output`]: a message of at most one
//! chunk compressed under the chunk flags gives its subtree value, and a message of one block
//! compressed under the parent flag gives the parent value of its two halves.

use vstd::prelude::*;
use blake3::hazmat::HasherExt;

verus! {

/// A 32-byte chaining value: a node of a Merkle tree.
pub type Node = [u8; 32];

/// BLAKE3's IV: the key words for unkeyed hashing.
pub const IV: [u32; 8] = [
    0x6A09E667,
    0xBB67AE85,
    0x3C6EF372,
    0xA54FF53A,
    0x510E527F,
    0x9B05688C,
    0x1F83D9AB,
    0x5BE0CD19,
];

/// Flag of the first block of a chunk.
pub const CHUNK_START: u8 = 1;

/// Flag of the last block of a chunk.
pub const CHUNK_END: u8 = 2;

/// Flag of the block that holds the two children of an inner node.
pub const PARENT: u8 = 4;

/// Bytes in a block, the unit of compression.
pub const BLOCK_LEN: usize = 64;

/// Bytes in a chunk, the largest message that is hashed without inner nodes.
pub const CHUNK_LEN: usize = 1024;

/// The non-root chaining value of `bytes`, hashed unkeyed from input offset zero.
pub uninterp spec fn subtree_chaining_value(bytes: Seq<u8>) -> Seq<u8>;

/// The non-root chaining value of the inner node over `left` and `right`, unkeyed.
pub uninterp spec fn parent_chaining_value(left: Seq<u8>, right: Seq<u8>) -> Seq<u8>;

/// The chaining value left by compressing the blocks of `message` one after the other from `key`,
/// at `counter`, with `flags` on every block, `flags_start` on the first one and `flags_end` on
/// the last one.
pub uninterp spec fn block_chain_output(
    message: Seq<u8>,
    key: Seq<u32>,
    counter: u64,
    flags: u8,
    flags_start: u8,
    flags_end: u8,
) -> Seq<u8>;

/// The key words, counter and flags under which a chunk at input offset zero is compressed.
pub open spec fn is_chunk_setting(
    key: Seq<u32>,
    counter: u64,
    flags: u8,
    flags_start: u8,
    flags_end: u8,
) -> bool {
    key == IV@ && counter == 0 && flags == 0 && flags_start == CHUNK_START && flags_end
        == CHUNK_END
}

/// The key words, counter and flags under which an inner node is compressed.
pub open spec fn is_parent_setting(
    key: Seq<u32>,
    counter: u64,
    flags: u8,
    flags_start: u8,
    flags_end: u8,
) -> bool {
    key == IV@ && counter == 0 && flags == PARENT && flags_start == 0 && flags_end == 0
}

/// What a batch call leaves for one `message`: its block chain output, which is the subtree value
/// of a message of at most one chunk under the chunk setting, and the parent value of the two
/// halves of a one-block message under the parent setting.
pub open spec fn is_batch_output(
    cv: Seq<u8>,
    message: Seq<u8>,
    key: Seq<u32>,
    counter: u64,
    flags: u8,
    flags_start: u8,
    flags_end: u8,
) -> bool {
    &&& cv == block_chain_output(message, key, counter, flags, flags_start, flags_end)
    &&& is_chunk_setting(key, counter, flags, flags_start, flags_end) && message.len()
        <= CHUNK_LEN ==> cv == subtree_chaining_value(message)
    &&& is_parent_setting(key, counter, flags, flags_start, flags_end) && message.len()
        == BLOCK_LEN ==> cv == parent_chaining_value(
        message.subrange(0, 32),
        message.subrange(32, 64),
    )
}

/// The instruction set that `blake3` compresses with.
#[verifier::external_type_specification]
#[verifier::external_body]
pub struct ExPlatform(blake3::platform::Platform);

/// `blake3::platform::Platform::detect` picks the widest instruction set of the machine. Nothing
/// is claimed of the choice: it changes how fast a batch is hashed, not what comes out.
pub assume_specification[ blake3::platform::Platform::detect ]() -> blake3::platform::Platform;

/// `std`'s `<[T]>::first_chunk`: a reference to the first `N` items of the slice as an array, or
/// `None` where the slice is shorter than that.
pub assume_specification<T, const N: usize>[ <[T]>::first_chunk::<N> ](slice: &[T]) -> (chunk:
    Option<&[T; N]>)
    ensures
        chunk is Some <==> N <= slice@.len(),
        chunk matches Some(items) ==> items@ == slice@.subrange(0, N as int),
;

/// `blake3::Hasher` with its `HasherExt::finalize_non_root`: the chaining value of `bytes` as a
/// subtree that starts at offset zero. The crate asserts that a subtree is not empty.
#[verifier::external_body]
pub(crate) fn hash_subtree(bytes: &[u8]) -> (cv: Node)
    requires
        bytes@.len() > 0,
    ensures
        cv@ == subtree_chaining_value(bytes@),
{
    blake3::Hasher::new().update(bytes).finalize_non_root()
}

/// `blake3::hazmat::merge_subtrees_non_root` in its unkeyed mode: the chaining value of the inner
/// node over two children.
#[verifier::external_body]
pub(crate) fn merge_subtrees(left: &Node, right: &Node) -> (cv: Node)
    ensures
        cv@ == parent_chaining_value(left@, right@),
{
    blake3::hazmat::merge_subtrees_non_root(left, right, blake3::hazmat::Mode::Hash)
}

/// `blake3::platform::Platform::hash_many` with a fixed counter: compresses each input from `key`
/// and writes the chaining values to the front of `out`, 32 bytes each, in order. The rest of
/// `out` stays as it was. The crate asserts that the inputs are whole blocks and that `out` has
/// room for their values.
#[verifier::external_body]
pub(crate) fn hash_many<const N: usize>(
    platform: &blake3::platform::Platform,
    inputs: &[&[u8; N]],
    key: &[u32; 8],
    counter: u64,
    flags: u8,
    flags_start: u8,
    flags_end: u8,
    out: &mut [u8],
)
    requires
        N > 0,
        N % BLOCK_LEN == 0,
        old(out)@.len() >= 32 * inputs@.len(),
    ensures
        final(out)@.len() == old(out)@.len(),
        forall|i: int|
            0 <= i < inputs@.len() ==> #[trigger] final(out)@.subrange(32 * i, 32 * i + 32)
                == block_chain_output(inputs@[i]@, key@, counter, flags, flags_start, flags_end),
        is_chunk_setting(key@, counter, flags, flags_start, flags_end) && N <= CHUNK_LEN
            ==> forall|i: int|
            0 <= i < inputs@.len() ==> #[trigger] final(out)@.subrange(32 * i, 32 * i + 32)
                == subtree_chaining_value(inputs@[i]@),
        is_parent_setting(key@, counter, flags, flags_start, flags_end) && N == BLOCK_LEN
            ==> forall|i: int|
            0 <= i < inputs@.len() ==> #[trigger] final(out)@.subrange(32 * i, 32 * i + 32)
                == parent_chaining_value(
                inputs@[i]@.subrange(0, 32),
                inputs@[i]@.subrange(32, 64),
            ),
        forall|j: int|
            32 * inputs@.len() <= j < old(out)@.len() ==> #[trigger] final(out)@[j] == old(out)@[j],
{
    platform.hash_many(
        inputs,
        key,
        counter,
        blake3::IncrementCounter::No,
        flags,
        flags_start,
        flags_end,
        out,
    )
}

} // verus!
