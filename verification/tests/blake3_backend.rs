use stark_commit::blake3_backend::{
    hash_leaves_batched, hash_many_n, hash_parents, hash_parents_task, hash_vector_leaves,
    hash_vector_leaves_task, leaf_bytes, leaf_cv, parent_cv, Blake3ElementBackend,
    Blake3VectorBackend, BATCH, PAR_CHUNK,
};
use stark_commit::chaining::{Node, CHUNK_END, CHUNK_START, PARENT};
use stark_commit::config::{
    BatchedMerkleTreeBackend, Commitment, FriMerkleTreeBackend, COMMITMENT_SIZE,
};
use stark_commit::field::IsField;
use stark_commit::merkle_backend::IsMerkleTreeBackend;
use stark_commit::stark252::Stark252;

type FE = Stark252;

fn pseudo_random_bytes(n: usize, seed: u64) -> Vec<u8> {
    let mut state: u64 = seed.wrapping_mul(0x9E37_79B9_7F4A_7C15) | 1;
    (0..n)
        .map(|_| {
            state ^= state << 13;
            state ^= state >> 7;
            state ^= state << 17;
            state as u8
        })
        .collect()
}

fn hex(node: &[u8]) -> String {
    node.iter().map(|byte| format!("{:02x}", byte)).collect()
}

/// A Merkle tree over a backend: the levels from the leaves, padded to a power of two with copies
/// of the last one, up to the root.
struct Tree {
    levels: Vec<Vec<Node>>,
}

impl Tree {
    fn build<D, B: IsMerkleTreeBackend<D>>(data: &[D]) -> Tree {
        let mut level = B::hash_leaves(data);
        let last = level[level.len() - 1];
        while !level.len().is_power_of_two() {
            level.push(last);
        }
        let mut levels = vec![level];
        while levels[levels.len() - 1].len() > 1 {
            let above = B::hash_level(&levels[levels.len() - 1]);
            levels.push(above);
        }
        Tree { levels }
    }

    fn root(&self) -> Node {
        self.levels[self.levels.len() - 1][0]
    }

    fn path(&self, pos: usize) -> Vec<Node> {
        (0..self.levels.len() - 1)
            .map(|height| self.levels[height][(pos >> height) ^ 1])
            .collect()
    }
}

fn verify<D, B: IsMerkleTreeBackend<D>>(path: &[Node], root: &Node, pos: usize, data: &D) -> bool {
    let mut node = B::hash_data(data);
    let mut index: usize = pos;
    for sibling in path {
        node = if index % 2 == 0 {
            B::hash_new_parent(&node, sibling)
        } else {
            B::hash_new_parent(sibling, &node)
        };
        index >>= 1;
    }
    node == *root
}

#[test]
fn batched_parents_match_the_scalar_definition() {
    for count in [2usize, 4, 30, 2 * BATCH, 2 * PAR_CHUNK + 6, 5000] {
        let bytes = pseudo_random_bytes(count * 32, count as u64);
        let children: Vec<Node> = bytes.chunks(32).map(|c| c.try_into().unwrap()).collect();
        let batched = hash_parents(&children);
        assert_eq!(batched.len(), count / 2);
        for (i, pair) in children.chunks(2).enumerate() {
            assert_eq!(
                batched[i],
                parent_cv(&pair[0], &pair[1]),
                "pair {i} of {count}"
            );
        }
    }
}

#[test]
fn batched_leaves_match_the_scalar_definition() {
    for leaf_len in [64usize, 128, 384, 1024] {
        for count in [1usize, 3, BATCH + 1, PAR_CHUNK + 2] {
            let data = pseudo_random_bytes(leaf_len * count, (leaf_len * count) as u64);
            let mut out = vec![[0u8; 32]; count];
            assert!(hash_leaves_batched(&data, leaf_len, &mut out));
            for (i, leaf) in data.chunks(leaf_len).enumerate() {
                assert_eq!(out[i], leaf_cv(leaf), "leaf {i}, len {leaf_len}");
            }
        }
    }
    // unsupported lengths are refused so callers fall back to the scalar path
    assert!(!hash_leaves_batched(&[0u8; 96], 96, &mut [[0u8; 32]; 1]));
}

#[test]
fn vector_leaves_match_hash_data_for_every_row_width() {
    for width in [1usize, 2, 4, 12, 33] {
        let rows: Vec<Vec<FE>> = (0..(PAR_CHUNK + 5) as u64)
            .map(|r| (0..width as u64).map(|c| FE::from_u64(r * 1000 + c)).collect())
            .collect();
        let hashed = Blake3VectorBackend::<FE>::hash_leaves(&rows);
        assert_eq!(hashed.len(), rows.len());
        for (i, row) in rows.iter().enumerate() {
            assert_eq!(
                hashed[i],
                Blake3VectorBackend::<FE>::hash_data(row),
                "row {i} width {width}"
            );
        }
    }
}

#[test]
fn parents_and_leaves_are_domain_separated() {
    let a = [7u8; 32];
    let b = [9u8; 32];
    let mut concat = [0u8; 64];
    concat[..32].copy_from_slice(&a);
    concat[32..].copy_from_slice(&b);
    assert_ne!(parent_cv(&a, &b), leaf_cv(&concat));
    assert_ne!(parent_cv(&a, &b), *blake3::hash(&concat).as_bytes());
}

#[test]
fn merkle_proofs_verify_with_both_backends() {
    let rows: Vec<Vec<FE>> = (0..1000u64)
        .map(|r| (0..12u64).map(|c| FE::from_u64(r * 12 + c)).collect())
        .collect();
    let tree = Tree::build::<Vec<FE>, Blake3VectorBackend<FE>>(&rows);
    for pos in [0usize, 1, 511, 999] {
        let proof = tree.path(pos);
        assert!(verify::<Vec<FE>, Blake3VectorBackend<FE>>(
            &proof,
            &tree.root(),
            pos,
            &rows[pos]
        ));
        assert!(!verify::<Vec<FE>, Blake3VectorBackend<FE>>(
            &proof,
            &tree.root(),
            pos,
            &rows[(pos + 1) % 1000]
        ));
    }
    let elements: Vec<FE> = (0..777u64).map(FE::from_u64).collect();
    let tree = Tree::build::<FE, Blake3ElementBackend<FE>>(&elements);
    let proof = tree.path(500);
    assert!(verify::<FE, Blake3ElementBackend<FE>>(&proof, &tree.root(), 500, &elements[500]));
    assert!(!verify::<FE, Blake3ElementBackend<FE>>(&proof, &tree.root(), 501, &elements[500]));
}

#[test]
fn leaf_values_are_blake3_chaining_values() {
    assert_eq!(
        hex(&leaf_cv(b"abc")),
        "e2a1217465965b70f66e35a1ffb483c4d73377ba8d887cd793cf4e7428a371eb"
    );
    assert_eq!(
        hex(&leaf_cv(&[7u8; 128])),
        "519c02245c261a6301ee3e2ad9059f555ec163dad8283a84166acf8ab62620dc"
    );
}

#[test]
fn parent_values_are_blake3_chaining_values() {
    let a = [7u8; 32];
    let b = [9u8; 32];
    assert_eq!(
        hex(&parent_cv(&a, &b)),
        "a9c94349c8adc163c02758768f474152a8af394fd297f61c29bb6426a3cb7c03"
    );
    assert_eq!(
        hex(&parent_cv(&b, &a)),
        "07aea1a95983b42122d2fd5932d01979299696f5b00ce8ee80d09243c0f16a51"
    );
    assert_eq!(hash_parents(&[a, b, b, a]), vec![parent_cv(&a, &b), parent_cv(&b, &a)]);
}

#[test]
fn batched_leaf_has_its_exact_value() {
    let mut out = [[0u8; 32]; 1];
    assert!(hash_leaves_batched(&[7u8; 128], 128, &mut out));
    assert_eq!(
        hex(&out[0]),
        "519c02245c261a6301ee3e2ad9059f555ec163dad8283a84166acf8ab62620dc"
    );
}

#[test]
fn row_leaves_have_their_exact_values() {
    let one_two = vec![FE::from_u64(1), FE::from_u64(2)];
    let one_two_three = vec![FE::from_u64(1), FE::from_u64(2), FE::from_u64(3)];
    assert_eq!(
        hex(&Blake3VectorBackend::<FE>::hash_data(&one_two)),
        "4323be68f941f8969d8a2fcb154fb52c6e41c4edde8e7dc8786f98435b31579f"
    );
    assert_eq!(
        hex(&Blake3VectorBackend::<FE>::hash_leaves(&[one_two])[0]),
        "4323be68f941f8969d8a2fcb154fb52c6e41c4edde8e7dc8786f98435b31579f"
    );
    assert_eq!(
        hex(&Blake3VectorBackend::<FE>::hash_leaves(&[one_two_three])[0]),
        "bfc7cfb9ddfdeb9f1a4325e0f04e83e7908071311c12d7fef00b477ddcbf1c4d"
    );
}

#[test]
fn element_leaves_have_their_exact_values() {
    let five = FE::from_u64(5);
    let expected = "423d8aced6585300794689018028ef31a4444283a684f8685a95643a07f7e785";
    assert_eq!(hex(&Blake3ElementBackend::<FE>::hash_data(&five)), expected);
    assert_eq!(hex(&Blake3ElementBackend::<FE>::hash_leaves(&[five])[0]), expected);
}

#[test]
fn refused_lengths_leave_the_output_alone() {
    for leaf_len in [0usize, 1, 32, 63, 65, 96, 1000, 1025, 1088, 2048] {
        let mut out = [[5u8; 32]; 2];
        assert!(!hash_leaves_batched(&[], leaf_len, &mut out), "len {leaf_len}");
        assert_eq!(out, [[5u8; 32]; 2]);
    }
}

#[test]
fn every_whole_block_length_up_to_a_chunk_is_batched() {
    for blocks in 1usize..=16 {
        let leaf_len = 64 * blocks;
        let data = pseudo_random_bytes(leaf_len * 2, leaf_len as u64);
        let mut out = [[0u8; 32]; 2];
        assert!(hash_leaves_batched(&data, leaf_len, &mut out));
        assert_eq!(out[0], leaf_cv(&data[..leaf_len]));
        assert_eq!(out[1], leaf_cv(&data[leaf_len..]));
    }
}

#[test]
fn nothing_hashes_to_nothing() {
    assert!(hash_parents(&[]).is_empty());
    assert!(hash_vector_leaves::<FE>(&[]).is_empty());
    assert!(Blake3ElementBackend::<FE>::hash_leaves(&[]).is_empty());
    assert!(hash_leaves_batched(&[], 64, &mut []));
}

#[test]
fn rows_of_different_widths_use_the_scalar_definition() {
    let rows: Vec<Vec<FE>> = [2u64, 4, 2, 3]
        .iter()
        .map(|&width| (0..width).map(FE::from_u64).collect())
        .collect();
    let hashed = hash_vector_leaves(&rows);
    for (i, row) in rows.iter().enumerate() {
        assert_eq!(hashed[i], leaf_cv(&leaf_bytes(row)));
    }
}

#[test]
fn tasks_put_together_give_the_whole() {
    let bytes = pseudo_random_bytes(64 * 40, 3);
    let children: Vec<Node> = bytes.chunks(32).map(|c| c.try_into().unwrap()).collect();
    let mut joined = hash_parents_task(&children[..30]);
    joined.extend(hash_parents_task(&children[30..]));
    assert_eq!(joined, hash_parents(&children));

    let rows: Vec<Vec<FE>> = (0..20u64)
        .map(|r| vec![FE::from_u64(r), FE::from_u64(r + 1)])
        .collect();
    let mut joined = hash_vector_leaves_task(&rows[..7]);
    joined.extend(hash_vector_leaves_task(&rows[7..]));
    assert_eq!(joined, hash_vector_leaves(&rows));
}

#[test]
fn leaf_bytes_are_the_elements_in_order() {
    let row = [FE::from_u64(1), FE::from_u64(2)];
    let mut expected = row[0].as_bytes();
    expected.extend(row[1].as_bytes());
    assert_eq!(leaf_bytes(&row), expected);
    assert!(leaf_bytes::<FE>(&[]).is_empty());
}

#[test]
fn commitments_are_nodes() {
    let root: Commitment = FriMerkleTreeBackend::<FE>::hash_data(&FE::from_u64(5));
    assert_eq!(root.len(), COMMITMENT_SIZE);
    let row = vec![FE::from_u64(5)];
    assert_eq!(root, BatchedMerkleTreeBackend::<FE>::hash_data(&row));
}

#[test]
fn backends_can_be_made_and_cloned() {
    let rows: Blake3VectorBackend<FE> = Default::default();
    let elements: Blake3ElementBackend<FE> = Default::default();
    let _ = (rows.clone(), elements.clone());
}

#[test]
fn batch_slots_depend_on_their_own_message_and_the_flags() {
    let count = BATCH + 3;
    let data = pseudo_random_bytes(128 * count, 11);
    let mut out = vec![[5u8; 32]; count];
    for (flags, start, end) in [(0u8, CHUNK_START, CHUNK_END), (PARENT, 0, 0), (0, 0, 0)] {
        hash_many_n::<128>(&data, &mut out, flags, start, end);
        for (i, message) in data.chunks(128).enumerate() {
            let mut one = [[0u8; 32]; 1];
            hash_many_n::<128>(message, &mut one, flags, start, end);
            assert_eq!(out[i], one[0]);
        }
    }
}

#[test]
fn batches_give_leaves_and_parents_by_their_flags() {
    let data = pseudo_random_bytes(64 * 20, 13);
    let mut leaves = [[0u8; 32]; 20];
    let mut parents = [[0u8; 32]; 20];
    hash_many_n::<64>(&data, &mut leaves, 0, CHUNK_START, CHUNK_END);
    hash_many_n::<64>(&data, &mut parents, PARENT, 0, 0);
    for (i, message) in data.chunks(64).enumerate() {
        let left: Node = message[..32].try_into().unwrap();
        let right: Node = message[32..].try_into().unwrap();
        assert_eq!(leaves[i], leaf_cv(message));
        assert_eq!(parents[i], parent_cv(&left, &right));
    }
}
