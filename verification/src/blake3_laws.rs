//! What the BLAKE3 backends promise as a whole.

use vstd::prelude::*;
use vstd::arithmetic::div_mod::lemma_fundamental_div_mod;
use vstd::arithmetic::mul::lemma_mul_is_commutative;
use crate::blake3_backend::{
    is_batchable, is_row, lemma_message_bounds, message, row_bytes, Blake3ElementBackend,
    Blake3VectorBackend,
};
use crate::chaining::{parent_chaining_value, subtree_chaining_value, Node};
use crate::field::IsField;
use crate::merkle_backend::IsMerkleTreeBackend;
use crate::stark252::Stark252;
use crate::stark252_laws::law_serialisation_is_injective;

verus! {

/// Strings of `count` blocks of `n` bytes each are equal where all their blocks are.
proof fn lemma_equal_blocks(x: Seq<u8>, y: Seq<u8>, n: int, count: int)
    requires
        0 < n,
        x.len() == count * n,
        y.len() == count * n,
        forall|i: int|
            0 <= i < count ==> #[trigger] x.subrange(i * n, (i + 1) * n) == y.subrange(
                i * n,
                (i + 1) * n,
            ),
    ensures
        x == y,
{
    assert forall|t: int| 0 <= t < x.len() implies x[t] == y[t] by {
        let i = t / n;
        lemma_fundamental_div_mod(t, n);
        lemma_mul_is_commutative(n, i);
        assert(0 <= i < count) by (nonlinear_arith)
            requires
                0 <= t < count * n,
                t == i * n + t % n,
                0 <= t % n < n,
        ;
        lemma_message_bounds(n, i, count);
        let block = x.subrange(i * n, (i + 1) * n);
        assert(block == y.subrange(i * n, (i + 1) * n));
        assert(block[t - i * n] == x[t]);
        assert(y.subrange(i * n, (i + 1) * n)[t - i * n] == y[t]);
    }
    assert(x =~= y);
}

/// The serialisation of a row holds, at the `i`-th place, the serialisation of the `i`-th element,
/// for every element of the row and nothing besides.
pub proof fn law_row_bytes_hold_every_element<F: IsField>(row: Seq<F>)
    requires
        forall|i: int| 0 <= i < row.len() ==> (#[trigger] row[i]).is_element(),
    ensures
        row_bytes(row).len() == row.len() * F::spec_byte_len(),
        forall|i: int|
            0 <= i < row.len() ==> row_bytes(row).subrange(
                i * F::spec_byte_len(),
                (i + 1) * F::spec_byte_len(),
            ) == (#[trigger] row[i]).spec_as_bytes(),
    decreases row.len(),
{
    if row.len() > 0 {
        let n = F::spec_byte_len() as int;
        let before = row.drop_last();
        let last = row.len() - 1;
        law_row_bytes_hold_every_element(before);
        assert(row.last() == row[last]);
        F::lemma_as_bytes(row[last]);
        lemma_message_bounds(n, last, row.len() as int);
        assert forall|i: int| 0 <= i < row.len() implies row_bytes(row).subrange(
            i * n,
            (i + 1) * n,
        ) == (#[trigger] row[i]).spec_as_bytes() by {
            lemma_message_bounds(n, i, row.len() as int);
            if i < last {
                lemma_message_bounds(n, i, last);
                assert(before[i] == row[i]);
                assert(row_bytes(row).subrange(i * n, (i + 1) * n) =~= row_bytes(before).subrange(
                    i * n,
                    (i + 1) * n,
                ));
            } else {
                assert(row_bytes(row).subrange(i * n, (i + 1) * n) =~= row[i].spec_as_bytes());
            }
        }
    }
}

/// Serialising two rows put together is serialising them one after the other, and a row of one
/// element serialises as that element.
pub proof fn law_row_bytes_concatenate<F: IsField>(left: Seq<F>, right: Seq<F>, element: F)
    ensures
        row_bytes(left + right) == row_bytes(left) + row_bytes(right),
        row_bytes(seq![element]) == element.spec_as_bytes(),
    decreases right.len(),
{
    assert(seq![element].drop_last() =~= Seq::<F>::empty());
    reveal_with_fuel(row_bytes, 2);
    assert(row_bytes(seq![element]) =~= element.spec_as_bytes());
    if right.len() == 0 {
        assert(left + right =~= left);
        assert(row_bytes(left) + row_bytes(right) =~= row_bytes(left));
    } else {
        law_row_bytes_concatenate(left, right.drop_last(), element);
        assert((left + right).drop_last() =~= left + right.drop_last());
        assert((left + right).last() == right.last());
        assert(row_bytes(left + right) =~= row_bytes(left) + row_bytes(right));
    }
}

/// What can be hashed: rows that have elements, and elements only; and every single element.
pub proof fn law_leaves<F: IsField>(row: Vec<F>, element: F)
    ensures
        Blake3VectorBackend::<F>::is_leaf(row) <==> row@.len() > 0 && forall|i: int|
            0 <= i < row@.len() ==> (#[trigger] row@[i]).is_element(),
        is_row(row@) <==> row@.len() > 0 && forall|i: int|
            0 <= i < row@.len() ==> (#[trigger] row@[i]).is_element(),
        Blake3ElementBackend::<F>::is_leaf(element) <==> element.is_element(),
{
}

/// The leaf of a row is the chaining value of any byte string that has the bytes of every element
/// in its place.
pub proof fn law_row_leaf_commits_to_every_element<F: IsField>(row: Vec<F>, bytes: Seq<u8>)
    requires
        row@.len() > 0,
        forall|i: int| 0 <= i < row@.len() ==> (#[trigger] row@[i]).is_element(),
        bytes.len() == row@.len() * F::spec_byte_len(),
        forall|i: int|
            0 <= i < row@.len() ==> bytes.subrange(
                i * F::spec_byte_len(),
                (i + 1) * F::spec_byte_len(),
            ) == (#[trigger] row@[i]).spec_as_bytes(),
    ensures
        Blake3VectorBackend::<F>::leaf_node(row) == subtree_chaining_value(bytes),
{
    let n = F::spec_byte_len() as int;
    F::lemma_as_bytes(row@[0]);
    law_row_bytes_hold_every_element(row@);
    assert forall|i: int| 0 <= i < row@.len() implies #[trigger] bytes.subrange(
        i * n,
        (i + 1) * n,
    ) == row_bytes(row@).subrange(i * n, (i + 1) * n) by {
        assert(row@[i].is_element());
    }
    lemma_equal_blocks(bytes, row_bytes(row@), n, row@.len() as int);
}

/// The leaf of a single element is the chaining value of all of its bytes, and so the same as the
/// leaf of the row of that element alone.
pub proof fn law_element_leaf_is_row_leaf<F: IsField>(element: F, row: Vec<F>)
    requires
        row@ == seq![element],
    ensures
        Blake3ElementBackend::<F>::leaf_node(element) == Blake3VectorBackend::<F>::leaf_node(row),
        Blake3ElementBackend::<F>::leaf_node(element) == subtree_chaining_value(
            element.spec_as_bytes(),
        ),
{
    law_row_bytes_concatenate(seq![element], seq![element], element);
}

/// Inner nodes of both backends are the PARENT-flagged compression of their children.
pub proof fn law_inner_nodes_are_parents<F: IsField>(left: Node, right: Node)
    ensures
        <Blake3VectorBackend<F> as IsMerkleTreeBackend<Vec<F>>>::parent_node(left, right)
            == parent_chaining_value(left@, right@),
        <Blake3ElementBackend<F> as IsMerkleTreeBackend<F>>::parent_node(left, right)
            == parent_chaining_value(left@, right@),
{
}

/// Over the STARK field, rows with the same serialisation are the same row: no column is left out
/// of a leaf's bytes.
pub proof fn law_rows_are_told_apart(left: Seq<Stark252>, right: Seq<Stark252>)
    requires
        forall|i: int| 0 <= i < left.len() ==> (#[trigger] left[i]).is_element(),
        forall|i: int| 0 <= i < right.len() ==> (#[trigger] right[i]).is_element(),
        row_bytes(left) == row_bytes(right),
    ensures
        left == right,
{
    let n = Stark252::spec_byte_len();
    law_row_bytes_hold_every_element(left);
    law_row_bytes_hold_every_element(right);
    Stark252::lemma_constants();
    Stark252::lemma_as_bytes(Stark252::spec_one());
    assert(left.len() == right.len()) by (nonlinear_arith)
        requires
            left.len() * n == right.len() * n,
            n > 0,
    ;
    assert forall|i: int| 0 <= i < left.len() implies left[i] == right[i] by {
        assert(left[i].spec_as_bytes() == right[i].spec_as_bytes());
        law_serialisation_is_injective(left[i], right[i]);
    }
    assert(left =~= right);
}

/// The `j`-th byte of the `k`-th message of `n` bytes is the byte of the data at `k * n + j`.
pub proof fn law_messages_partition_the_data(data: Seq<u8>, n: int, k: int, j: int)
    requires
        0 <= k,
        0 <= j < n,
        (k + 1) * n <= data.len(),
    ensures
        message(data, n, k).len() == n,
        message(data, n, k)[j] == data[k * n + j],
{
    lemma_message_bounds(n, k, k + 1);
}

/// The lengths that can be batched are those of one to sixteen blocks of 64 bytes.
pub proof fn law_batchable_lengths(n: int)
    ensures
        is_batchable(n) <==> exists|blocks: int| 1 <= blocks <= 16 && n == #[trigger] (64 * blocks),
{
    if is_batchable(n) {
        assert(n == 64 * (n / 64));
    }
}

} // verus!
