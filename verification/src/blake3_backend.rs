//! BLAKE3 Merkle tree backends.
//!
//! Node definitions follow BLAKE3's own tree semantics:
//!
//! * a leaf is the non-root chaining value of the leaf bytes ([`leaf_cv`]);
//! * a parent is the PARENT-flagged compression of its two children ([`parent_cv`]), one
//!   compression and no chunk state.
//!
//! Whole levels and whole leaf sets are hashed through `blake3::platform::Platform::hash_many`,
//! which runs several compressions at once with SIMD. Every batched function below promises node
//! by node what the two scalar definitions give. Leaves can only be batched when their byte length
//! is a multiple of [`BLOCK_LEN`] and at most [`CHUNK_LEN`]; other sizes fall back to the scalar
//! definition.

use core::marker::PhantomData;
use vstd::prelude::*;
use vstd::arithmetic::mul::{lemma_mul_inequality, lemma_mul_is_distributive_add_other_way};
use crate::chaining::{hash_many, hash_subtree, merge_subtrees, Node};
use crate::chaining::{
    block_chain_output, is_batch_output, parent_chaining_value, subtree_chaining_value,
};
use crate::chaining::{BLOCK_LEN, CHUNK_END, CHUNK_LEN, CHUNK_START, IV, PARENT};
use crate::field::IsField;
use crate::merkle_backend::IsMerkleTreeBackend;

verus! {

/// Messages per batch call: fills the widest SIMD path on every platform.
pub const BATCH: usize = 16;

/// Nodes handled per task.
pub const PAR_CHUNK: usize = 1024;

/// The scalar leaf definition: the non-root chaining value of the leaf bytes.
pub fn leaf_cv(bytes: &[u8]) -> (cv: Node)
    requires
        bytes@.len() > 0,
    ensures
        cv@ == subtree_chaining_value(bytes@),
{
    hash_subtree(bytes)
}

/// The scalar parent definition: the PARENT-flagged compression of the two children.
pub fn parent_cv(left: &Node, right: &Node) -> (cv: Node)
    ensures
        cv@ == parent_chaining_value(left@, right@),
{
    merge_subtrees(left, right)
}

/// The `k`-th of the messages of `n` bytes each that `data` strings together.
pub open spec fn message(data: Seq<u8>, n: int, k: int) -> Seq<u8> {
    data.subrange(k * n, (k + 1) * n)
}

/// The `k`-th message lies within data that holds `count` of them.
pub proof fn lemma_message_bounds(n: int, k: int, count: int)
    requires
        0 < n,
        0 <= k < count,
    ensures
        0 <= k * n,
        (k + 1) * n == k * n + n,
        (k + 1) * n <= count * n,
{
    lemma_mul_is_distributive_add_other_way(n, k, 1);
    lemma_mul_inequality(0, k, n);
    lemma_mul_inequality(k + 1, count, n);
}

/// Whether `out` holds what a batch leaves for the messages of `n` bytes each that `data` strings
/// together: every slot depends on its own message and on the flags alone.
pub open spec fn is_batch(
    out: Seq<Node>,
    data: Seq<u8>,
    n: int,
    flags: u8,
    start: u8,
    end: u8,
) -> bool {
    forall|k: int|
        0 <= k < out.len() ==> is_batch_output(
            (#[trigger] out[k])@,
            message(data, n, k),
            IV@,
            0,
            flags,
            start,
            end,
        )
}

/// A batch of one-block messages under the parent flag holds the parents of the halves of each
/// message, as [`parent_cv`] defines them.
pub proof fn law_batch_of_parents(out: Seq<Node>, data: Seq<u8>)
    requires
        data.len() == 64 * out.len(),
        is_batch(out, data, 64, PARENT, 0, 0),
    ensures
        forall|k: int|
            0 <= k < out.len() ==> (#[trigger] out[k])@ == parent_chaining_value(
                data.subrange(64 * k, 64 * k + 32),
                data.subrange(64 * k + 32, 64 * k + 64),
            ),
{
    assert forall|k: int| 0 <= k < out.len() implies (#[trigger] out[k])@ == parent_chaining_value(
        data.subrange(64 * k, 64 * k + 32),
        data.subrange(64 * k + 32, 64 * k + 64),
    ) by {
        let pair = message(data, 64, k);
        assert(pair.subrange(0, 32) =~= data.subrange(64 * k, 64 * k + 32));
        assert(pair.subrange(32, 64) =~= data.subrange(64 * k + 32, 64 * k + 64));
    }
}

/// A batch of messages of whole blocks, up to one chunk, under the chunk flags holds the leaf of
/// each message, as [`leaf_cv`] defines it.
pub proof fn law_batch_of_leaves(out: Seq<Node>, data: Seq<u8>, n: int)
    requires
        is_batchable(n),
        data.len() == out.len() * n,
        is_batch(out, data, n, 0, CHUNK_START, CHUNK_END),
    ensures
        forall|k: int|
            0 <= k < out.len() ==> (#[trigger] out[k])@ == subtree_chaining_value(
                message(data, n, k),
            ),
{
    assert forall|k: int| 0 <= k < out.len() implies (#[trigger] out[k])@ == subtree_chaining_value(
        message(data, n, k),
    ) by {
        lemma_message_bounds(n, k, out.len() as int);
    }
}

/// A slot of a batch is what a batch of its message alone gives: it depends neither on the other
/// messages nor on its position.
pub proof fn law_batch_slots_are_independent(
    out: Seq<Node>,
    data: Seq<u8>,
    n: int,
    flags: u8,
    start: u8,
    end: u8,
    i: int,
    one: Seq<Node>,
)
    requires
        n > 0,
        data.len() == out.len() * n,
        is_batch(out, data, n, flags, start, end),
        0 <= i < out.len(),
        one.len() == 1,
        is_batch(one, message(data, n, i), n, flags, start, end),
    ensures
        out[i] == one[0],
{
    let own = message(data, n, i);
    lemma_message_bounds(n, i, out.len() as int);
    assert(message(own, n, 0) =~= own);
    assert(one[0]@ == out[i]@);
    assert(one[0] =~= out[i]);
}

/// Hashes `out.len()` messages of `N` bytes each (`data` is their concatenation) with the given
/// flags, [`BATCH`] at a time. `N` must be a positive multiple of the block length.
pub fn hash_many_n<const N: usize>(data: &[u8], out: &mut [Node], flags: u8, start: u8, end: u8)
    requires
        N > 0,
        N % BLOCK_LEN == 0,
        data@.len() == old(out)@.len() * N,
    ensures
        final(out)@.len() == old(out)@.len(),
        is_batch(final(out)@, data@, N as int, flags, start, end),
        forall|k: int|
            0 <= k < final(out)@.len() ==> (#[trigger] final(out)@[k])@ == block_chain_output(
                data@.subrange(k * N, (k + 1) * N),
                IV@,
                0,
                flags,
                start,
                end,
            ),
{
    let platform = blake3::platform::Platform::detect();
    let count: usize = out.len();
    let mut done: usize = 0;
    while done < count
        invariant
            N > 0,
            N % BLOCK_LEN == 0,
            done <= count,
            out@.len() == count,
            data.len() == count * N,
            forall|k: int|
                0 <= k < done ==> is_batch_output(
                    (#[trigger] out@[k])@,
                    message(data@, N as int, k),
                    IV@,
                    0,
                    flags,
                    start,
                    end,
                ),
        decreases count - done,
    {
        let n: usize = if count - done < BATCH {
            count - done
        } else {
            BATCH
        };
        let mut inputs: Vec<&[u8; N]> = Vec::new();
        let mut i: usize = 0;
        while i < n
            invariant
                N > 0,
                i <= n,
                done + n <= count,
                data.len() == count * N,
                inputs@.len() == i,
                forall|j: int|
                    0 <= j < i ==> (#[trigger] inputs@[j])@ == message(
                        data@,
                        N as int,
                        done + j,
                    ),
            decreases n - i,
        {
            proof {
                lemma_message_bounds(N as int, done + i, count as int);
            }
            let first: usize = (done + i) * N;
            let bytes = &data[first..first + N];
            let input: &[u8; N] = bytes.first_chunk::<N>().unwrap();
            assert(input@ =~= message(data@, N as int, done + i));
            inputs.push(input);
            i = i + 1;
        }
        let mut cvs: Vec<u8> = vec![0u8; n * 32];
        hash_many(&platform, inputs.as_slice(), &IV, 0, flags, start, end, cvs.as_mut_slice());
        let mut j: usize = 0;
        while j < n
            invariant
                j <= n,
                done + n <= count,
                n <= BATCH,
                out@.len() == count,
                cvs@.len() == n * 32,
                forall|k: int|
                    0 <= k < n ==> is_batch_output(
                        #[trigger] cvs@.subrange(32 * k, 32 * k + 32),
                        message(data@, N as int, done + k),
                        IV@,
                        0,
                        flags,
                        start,
                        end,
                    ),
                forall|k: int|
                    0 <= k < done + j ==> is_batch_output(
                        (#[trigger] out@[k])@,
                        message(data@, N as int, k),
                        IV@,
                        0,
                        flags,
                        start,
                        end,
                    ),
            decreases n - j,
        {
            let first: usize = j * 32;
            let bytes = &cvs[first..first + 32];
            let cv: Node = *bytes.first_chunk::<32>().unwrap();
            assert(cv@ =~= cvs@.subrange(32 * j, 32 * j + 32));
            out[done + j] = cv;
            j = j + 1;
        }
        done = done + n;
    }
}

/// The bytes of the nodes, one after the other.
fn node_bytes(nodes: &[Node]) -> (bytes: Vec<u8>)
    ensures
        bytes@.len() == 32 * nodes@.len(),
        forall|k: int|
            0 <= k < nodes@.len() ==> #[trigger] bytes@.subrange(32 * k, 32 * k + 32)
                == nodes@[k]@,
{
    let mut bytes: Vec<u8> = Vec::new();
    let mut i: usize = 0;
    while i < nodes.len()
        invariant
            i <= nodes@.len(),
            bytes@.len() == 32 * i,
            forall|k: int|
                0 <= k < i ==> #[trigger] bytes@.subrange(32 * k, 32 * k + 32) == nodes@[k]@,
        decreases nodes@.len() - i,
    {
        let ghost before = bytes@;
        bytes.extend_from_slice(nodes[i].as_slice());
        assert(bytes@ =~= before + nodes@[i as int]@);
        assert forall|k: int| 0 <= k < i + 1 implies #[trigger] bytes@.subrange(
            32 * k,
            32 * k + 32,
        ) == nodes@[k]@ by {
            if k < i {
                assert(bytes@.subrange(32 * k, 32 * k + 32) =~= before.subrange(
                    32 * k,
                    32 * k + 32,
                ));
            } else {
                assert(bytes@.subrange(32 * k, 32 * k + 32) =~= nodes@[k]@);
            }
        }
        i = i + 1;
    }
    bytes
}

/// Parents of consecutive pairs of `children` (even length) as one batched task.
pub fn hash_parents_task(children: &[Node]) -> (nodes: Vec<Node>)
    requires
        children@.len() % 2 == 0,
    ensures
        2 * nodes@.len() == children@.len(),
        forall|k: int|
            0 <= k < nodes@.len() ==> (#[trigger] nodes@[k])@ == parent_chaining_value(
                children@[2 * k]@,
                children@[2 * k + 1]@,
            ),
{
    let bytes = node_bytes(children);
    let mut nodes: Vec<Node> = vec![[0u8; 32]; children.len() / 2];
    hash_many_n::<64>(bytes.as_slice(), nodes.as_mut_slice(), PARENT, 0, 0);
    proof {
        law_batch_of_parents(nodes@, bytes@);
        assert forall|k: int| 0 <= k < nodes@.len() implies (#[trigger] nodes@[k])@
            == parent_chaining_value(children@[2 * k]@, children@[2 * k + 1]@) by {
            assert(bytes@.subrange(64 * k, 64 * k + 32) == bytes@.subrange(
                32 * (2 * k),
                32 * (2 * k) + 32,
            ));
            assert(bytes@.subrange(64 * k + 32, 64 * k + 64) == bytes@.subrange(
                32 * (2 * k + 1),
                32 * (2 * k + 1) + 32,
            ));
        }
    }
    nodes
}

/// Parents of consecutive pairs of `children` (even length), batched, [`PAR_CHUNK`] nodes per
/// task.
pub fn hash_parents(children: &[Node]) -> (nodes: Vec<Node>)
    requires
        children@.len() % 2 == 0,
    ensures
        2 * nodes@.len() == children@.len(),
        forall|k: int|
            0 <= k < nodes@.len() ==> (#[trigger] nodes@[k])@ == parent_chaining_value(
                children@[2 * k]@,
                children@[2 * k + 1]@,
            ),
{
    let mut nodes: Vec<Node> = Vec::new();
    let mut done: usize = 0;
    while done < children.len()
        invariant
            done <= children@.len(),
            children@.len() % 2 == 0,
            2 * nodes@.len() == done,
            forall|k: int|
                0 <= k < nodes@.len() ==> (#[trigger] nodes@[k])@ == parent_chaining_value(
                    children@[2 * k]@,
                    children@[2 * k + 1]@,
                ),
        decreases children@.len() - done,
    {
        let left: usize = children.len() - done;
        let taken: usize = if left < 2 * PAR_CHUNK {
            left
        } else {
            2 * PAR_CHUNK
        };
        let ghost before = nodes@;
        let mut task: Vec<Node> = hash_parents_task(&children[done..done + taken]);
        let ghost added = task@;
        nodes.append(&mut task);
        assert forall|k: int| 0 <= k < nodes@.len() implies (#[trigger] nodes@[k])@
            == parent_chaining_value(children@[2 * k]@, children@[2 * k + 1]@) by {
            if k < before.len() {
                assert(nodes@[k] == before[k]);
            } else {
                assert(nodes@[k] == added[k - before.len()]);
            }
        }
        done = done + taken;
    }
    nodes
}

/// The leaf lengths that can be batched: whole blocks, up to one chunk.
pub open spec fn is_batchable(leaf_len: int) -> bool {
    0 < leaf_len <= CHUNK_LEN && leaf_len % (BLOCK_LEN as int) == 0
}

/// Chaining values of `out.len()` leaves of `leaf_len` bytes each, batched when the length allows
/// it. Returns false (and leaves `out` untouched) otherwise.
pub fn hash_leaves_batched(data: &[u8], leaf_len: usize, out: &mut [Node]) -> (batched: bool)
    requires
        is_batchable(leaf_len as int) ==> data@.len() == old(out)@.len() * leaf_len,
    ensures
        batched <==> is_batchable(leaf_len as int),
        batched <==> 0 < leaf_len <= 1024 && leaf_len % 64 == 0,
        final(out)@.len() == old(out)@.len(),
        batched ==> forall|k: int|
            0 <= k < final(out)@.len() ==> (#[trigger] final(out)@[k])@ == subtree_chaining_value(
                message(data@, leaf_len as int, k),
            ),
        batched ==> forall|k: int|
            0 <= k < final(out)@.len() ==> (#[trigger] final(out)@[k])@ == subtree_chaining_value(
                data@.subrange(k * leaf_len, (k + 1) * leaf_len),
            ),
        !batched ==> final(out)@ == old(out)@,
{
    let batched: bool = match leaf_len {
        64 => { hash_many_n::<64>(data, out, 0, CHUNK_START, CHUNK_END); true },
        128 => { hash_many_n::<128>(data, out, 0, CHUNK_START, CHUNK_END); true },
        192 => { hash_many_n::<192>(data, out, 0, CHUNK_START, CHUNK_END); true },
        256 => { hash_many_n::<256>(data, out, 0, CHUNK_START, CHUNK_END); true },
        320 => { hash_many_n::<320>(data, out, 0, CHUNK_START, CHUNK_END); true },
        384 => { hash_many_n::<384>(data, out, 0, CHUNK_START, CHUNK_END); true },
        448 => { hash_many_n::<448>(data, out, 0, CHUNK_START, CHUNK_END); true },
        512 => { hash_many_n::<512>(data, out, 0, CHUNK_START, CHUNK_END); true },
        576 => { hash_many_n::<576>(data, out, 0, CHUNK_START, CHUNK_END); true },
        640 => { hash_many_n::<640>(data, out, 0, CHUNK_START, CHUNK_END); true },
        704 => { hash_many_n::<704>(data, out, 0, CHUNK_START, CHUNK_END); true },
        768 => { hash_many_n::<768>(data, out, 0, CHUNK_START, CHUNK_END); true },
        832 => { hash_many_n::<832>(data, out, 0, CHUNK_START, CHUNK_END); true },
        896 => { hash_many_n::<896>(data, out, 0, CHUNK_START, CHUNK_END); true },
        960 => { hash_many_n::<960>(data, out, 0, CHUNK_START, CHUNK_END); true },
        1024 => { hash_many_n::<1024>(data, out, 0, CHUNK_START, CHUNK_END); true },
        _ => false,
    };
    proof {
        if batched {
            law_batch_of_leaves(out@, data@, leaf_len as int);
        }
    }
    batched
}

/// The serialisation of a leaf: its elements, one after the other.
pub open spec fn row_bytes<F: IsField>(row: Seq<F>) -> Seq<u8>
    decreases row.len(),
{
    if row.len() == 0 {
        Seq::empty()
    } else {
        row_bytes(row.drop_last()) + row.last().spec_as_bytes()
    }
}

/// Whether a row can be a leaf: it has elements, and elements only.
pub open spec fn is_row<F: IsField>(row: Seq<F>) -> bool {
    &&& row.len() > 0
    &&& forall|i: int| 0 <= i < row.len() ==> (#[trigger] row[i]).is_element()
}

/// A row serialises to a number of bytes that its length determines.
proof fn lemma_row_bytes_len<F: IsField>(row: Seq<F>)
    requires
        forall|i: int| 0 <= i < row.len() ==> (#[trigger] row[i]).is_element(),
    ensures
        row_bytes(row).len() == row.len() * F::spec_byte_len(),
        row.len() > 0 ==> row_bytes(row).len() > 0,
    decreases row.len(),
{
    if row.len() > 0 {
        let before = row.drop_last();
        lemma_row_bytes_len(before);
        assert(row.last() == row[row.len() - 1]);
        F::lemma_as_bytes(row.last());
        lemma_mul_is_distributive_add_other_way(
            F::spec_byte_len() as int,
            before.len() as int,
            1,
        );
    }
}

/// Serialises a leaf exactly as the scalar definition hashes it.
pub fn leaf_bytes<F: IsField>(leaf: &[F]) -> (bytes: Vec<u8>)
    requires
        forall|i: int| 0 <= i < leaf@.len() ==> (#[trigger] leaf@[i]).is_element(),
    ensures
        bytes@ == row_bytes(leaf@),
{
    let mut bytes: Vec<u8> = Vec::new();
    let mut i: usize = 0;
    while i < leaf.len()
        invariant
            i <= leaf@.len(),
            forall|i: int| 0 <= i < leaf@.len() ==> (#[trigger] leaf@[i]).is_element(),
            bytes@ == row_bytes(leaf@.take(i as int)),
        decreases leaf@.len() - i,
    {
        let mut element: Vec<u8> = leaf[i].as_bytes();
        bytes.append(&mut element);
        assert(leaf@.take(i + 1).drop_last() =~= leaf@.take(i as int));
        i = i + 1;
    }
    assert(leaf@.take(i as int) =~= leaf@);
    bytes
}

/// Whether all leaves have as many elements as the first one.
fn is_uniform<F: IsField>(leaves: &[Vec<F>]) -> (uniform: bool)
    ensures
        uniform <==> forall|k: int|
            0 <= k < leaves@.len() ==> (#[trigger] leaves@[k])@.len() == leaves@[0]@.len(),
{
    let mut k: usize = 0;
    while k < leaves.len()
        invariant
            k <= leaves@.len(),
            forall|j: int| 0 <= j < k ==> (#[trigger] leaves@[j])@.len() == leaves@[0]@.len(),
        decreases leaves@.len() - k,
    {
        if leaves[k].len() != leaves[0].len() {
            return false;
        }
        k = k + 1;
    }
    true
}

/// Serialises leaves of `leaf_len` bytes each, one after the other.
fn concatenate_leaves<F: IsField>(leaves: &[Vec<F>], leaf_len: usize) -> (data: Vec<u8>)
    requires
        leaf_len > 0,
        forall|k: int| 0 <= k < leaves@.len() ==> is_row((#[trigger] leaves@[k])@),
        forall|k: int|
            0 <= k < leaves@.len() ==> row_bytes((#[trigger] leaves@[k])@).len() == leaf_len,
    ensures
        data@.len() == leaves@.len() * leaf_len,
        forall|k: int|
            0 <= k < leaves@.len() ==> message(data@, leaf_len as int, k) == row_bytes(
                (#[trigger] leaves@[k])@,
            ),
{
    let mut data: Vec<u8> = Vec::new();
    let mut i: usize = 0;
    while i < leaves.len()
        invariant
            leaf_len > 0,
            i <= leaves@.len(),
            forall|k: int| 0 <= k < leaves@.len() ==> is_row((#[trigger] leaves@[k])@),
            forall|k: int|
                0 <= k < leaves@.len() ==> row_bytes((#[trigger] leaves@[k])@).len() == leaf_len,
            data@.len() == i * leaf_len,
            forall|k: int|
                0 <= k < i ==> message(data@, leaf_len as int, k) == row_bytes(
                    (#[trigger] leaves@[k])@,
                ),
        decreases leaves@.len() - i,
    {
        let ghost before = data@;
        let mut row: Vec<u8> = leaf_bytes(leaves[i].as_slice());
        let ghost added = row@;
        data.append(&mut row);
        proof {
            lemma_message_bounds(leaf_len as int, i as int, i + 1);
            assert forall|k: int| 0 <= k < i + 1 implies message(data@, leaf_len as int, k)
                == row_bytes((#[trigger] leaves@[k])@) by {
                if k < i {
                    lemma_message_bounds(leaf_len as int, k, i as int);
                    assert(message(data@, leaf_len as int, k) =~= message(
                        before,
                        leaf_len as int,
                        k,
                    ));
                } else {
                    assert(message(data@, leaf_len as int, k) =~= added);
                }
            }
        }
        i = i + 1;
    }
    data
}

/// Hashes a set of leaves as one task: batched where they have one length that allows it, and by
/// the scalar definition otherwise.
pub fn hash_vector_leaves_task<F: IsField>(leaves: &[Vec<F>]) -> (nodes: Vec<Node>)
    requires
        forall|k: int| 0 <= k < leaves@.len() ==> is_row((#[trigger] leaves@[k])@),
    ensures
        nodes@.len() == leaves@.len(),
        forall|k: int|
            0 <= k < nodes@.len() ==> (#[trigger] nodes@[k])@ == subtree_chaining_value(
                row_bytes(leaves@[k]@),
            ),
{
    let mut nodes: Vec<Node> = vec![[0u8; 32]; leaves.len()];
    let leaf_len: usize = match leaves.first() {
        Some(leaf) => leaf_bytes(leaf.as_slice()).len(),
        None => 0,
    };
    if is_uniform(leaves) && leaf_len > 0 && leaf_len % BLOCK_LEN == 0 && leaf_len <= CHUNK_LEN {
        proof {
            assert forall|k: int| 0 <= k < leaves@.len() implies row_bytes(
                (#[trigger] leaves@[k])@,
            ).len() == leaf_len by {
                lemma_row_bytes_len(leaves@[k]@);
                lemma_row_bytes_len(leaves@[0]@);
            }
        }
        let data = concatenate_leaves(leaves, leaf_len);
        if hash_leaves_batched(data.as_slice(), leaf_len, nodes.as_mut_slice()) {
            assert forall|k: int| 0 <= k < nodes@.len() implies (#[trigger] nodes@[k])@
                == subtree_chaining_value(row_bytes(leaves@[k]@)) by {
                assert(is_row(leaves@[k]@));
            }
            return nodes;
        }
    }
    let mut k: usize = 0;
    while k < leaves.len()
        invariant
            k <= leaves@.len(),
            nodes@.len() == leaves@.len(),
            forall|k: int| 0 <= k < leaves@.len() ==> is_row((#[trigger] leaves@[k])@),
            forall|j: int|
                0 <= j < k ==> (#[trigger] nodes@[j])@ == subtree_chaining_value(
                    row_bytes(leaves@[j]@),
                ),
        decreases leaves@.len() - k,
    {
        proof {
            lemma_row_bytes_len(leaves@[k as int]@);
        }
        nodes[k] = leaf_cv(leaf_bytes(leaves[k].as_slice()).as_slice());
        k = k + 1;
    }
    nodes
}

/// Hashes a set of leaves, [`PAR_CHUNK`] of them per task.
pub fn hash_vector_leaves<F: IsField>(leaves: &[Vec<F>]) -> (nodes: Vec<Node>)
    requires
        forall|k: int| 0 <= k < leaves@.len() ==> is_row((#[trigger] leaves@[k])@),
    ensures
        nodes@.len() == leaves@.len(),
        forall|k: int|
            0 <= k < nodes@.len() ==> (#[trigger] nodes@[k])@ == subtree_chaining_value(
                row_bytes(leaves@[k]@),
            ),
{
    let mut nodes: Vec<Node> = Vec::new();
    let mut done: usize = 0;
    while done < leaves.len()
        invariant
            done <= leaves@.len(),
            nodes@.len() == done,
            forall|k: int| 0 <= k < leaves@.len() ==> is_row((#[trigger] leaves@[k])@),
            forall|k: int|
                0 <= k < nodes@.len() ==> (#[trigger] nodes@[k])@ == subtree_chaining_value(
                    row_bytes(leaves@[k]@),
                ),
        decreases leaves@.len() - done,
    {
        let left: usize = leaves.len() - done;
        let taken: usize = if left < PAR_CHUNK {
            left
        } else {
            PAR_CHUNK
        };
        let ghost before = nodes@;
        let mut task: Vec<Node> = hash_vector_leaves_task(&leaves[done..done + taken]);
        let ghost added = task@;
        nodes.append(&mut task);
        assert forall|k: int| 0 <= k < nodes@.len() implies (#[trigger] nodes@[k])@
            == subtree_chaining_value(row_bytes(leaves@[k]@)) by {
            if k < before.len() {
                assert(nodes@[k] == before[k]);
            } else {
                assert(nodes@[k] == added[k - before.len()]);
            }
        }
        done = done + taken;
    }
    nodes
}

/// Leaves are rows of field elements (trace and composition polynomial commitments).
pub struct Blake3VectorBackend<F> {
    phantom: PhantomData<F>,
}

impl<F> Blake3VectorBackend<F> {
    /// The only value of the type.
    pub closed spec fn spec_default() -> Self {
        Blake3VectorBackend { phantom: PhantomData }
    }
}

impl<F> Clone for Blake3VectorBackend<F> {
    fn clone(&self) -> (r: Self)
        ensures
            r == *self,
    {
        Blake3VectorBackend { phantom: PhantomData }
    }
}

impl<F> Default for Blake3VectorBackend<F> {
    fn default() -> (r: Self)
        ensures
            r == Self::spec_default(),
    {
        Blake3VectorBackend { phantom: PhantomData }
    }
}

impl<F: IsField> IsMerkleTreeBackend<Vec<F>> for Blake3VectorBackend<F> {
    open spec fn is_leaf(leaf: Vec<F>) -> bool {
        is_row(leaf@)
    }

    open spec fn leaf_node(leaf: Vec<F>) -> Seq<u8> {
        subtree_chaining_value(row_bytes(leaf@))
    }

    open spec fn parent_node(left: Node, right: Node) -> Seq<u8> {
        parent_chaining_value(left@, right@)
    }

    fn hash_data(leaf: &Vec<F>) -> (node: Node)
        ensures
            node@ == subtree_chaining_value(row_bytes(leaf@)),
    {
        proof {
            lemma_row_bytes_len(leaf@);
        }
        leaf_cv(leaf_bytes(leaf.as_slice()).as_slice())
    }

    fn hash_leaves(unhashed_leaves: &[Vec<F>]) -> (nodes: Vec<Node>)
        ensures
            forall|k: int|
                0 <= k < nodes@.len() ==> (#[trigger] nodes@[k])@ == subtree_chaining_value(
                    row_bytes(unhashed_leaves@[k]@),
                ),
    {
        hash_vector_leaves(unhashed_leaves)
    }

    fn hash_new_parent(left: &Node, right: &Node) -> (node: Node)
        ensures
            node@ == parent_chaining_value(left@, right@),
    {
        parent_cv(left, right)
    }

    fn hash_level(children: &[Node]) -> (nodes: Vec<Node>)
        ensures
            forall|k: int|
                0 <= k < nodes@.len() ==> (#[trigger] nodes@[k])@ == parent_chaining_value(
                    children@[2 * k]@,
                    children@[2 * k + 1]@,
                ),
    {
        hash_parents(children)
    }
}

/// Leaves are single field elements (FRI layer commitments). They use the scalar definition;
/// levels are batched.
pub struct Blake3ElementBackend<F> {
    phantom: PhantomData<F>,
}

impl<F> Blake3ElementBackend<F> {
    /// The only value of the type.
    pub closed spec fn spec_default() -> Self {
        Blake3ElementBackend { phantom: PhantomData }
    }
}

impl<F> Clone for Blake3ElementBackend<F> {
    fn clone(&self) -> (r: Self)
        ensures
            r == *self,
    {
        Blake3ElementBackend { phantom: PhantomData }
    }
}

impl<F> Default for Blake3ElementBackend<F> {
    fn default() -> (r: Self)
        ensures
            r == Self::spec_default(),
    {
        Blake3ElementBackend { phantom: PhantomData }
    }
}

impl<F: IsField> IsMerkleTreeBackend<F> for Blake3ElementBackend<F> {
    open spec fn is_leaf(leaf: F) -> bool {
        leaf.is_element()
    }

    open spec fn leaf_node(leaf: F) -> Seq<u8> {
        subtree_chaining_value(leaf.spec_as_bytes())
    }

    open spec fn parent_node(left: Node, right: Node) -> Seq<u8> {
        parent_chaining_value(left@, right@)
    }

    fn hash_data(leaf: &F) -> (node: Node)
        ensures
            node@ == subtree_chaining_value(leaf.spec_as_bytes()),
    {
        proof {
            F::lemma_as_bytes(*leaf);
        }
        leaf_cv(leaf.as_bytes().as_slice())
    }

    fn hash_new_parent(left: &Node, right: &Node) -> (node: Node)
        ensures
            node@ == parent_chaining_value(left@, right@),
    {
        parent_cv(left, right)
    }

    fn hash_level(children: &[Node]) -> (nodes: Vec<Node>)
        ensures
            forall|k: int|
                0 <= k < nodes@.len() ==> (#[trigger] nodes@[k])@ == parent_chaining_value(
                    children@[2 * k]@,
                    children@[2 * k + 1]@,
                ),
    {
        hash_parents(children)
    }
}

} // verus!
