use chain_inspector::hashing::{hash_empty, hash_pair};
use chain_inspector::primitives::{B256, U256};
use chain_inspector::priority_transactions::{
    build_leaves, compute_merkle_tree, leaf_count, merkle_reduce, L2CanonicalTransaction,
    PriorityTransaction,
};

fn word(hex: &str) -> B256 {
    assert_eq!(hex.len(), 64);
    let mut bytes = [0u8; 32];
    for i in 0..32 {
        bytes[i] = u8::from_str_radix(&hex[2 * i..2 * i + 2], 16).unwrap();
    }
    B256 { bytes }
}

fn envelope() -> L2CanonicalTransaction {
    let z = U256 { bytes: [0u8; 32] };
    L2CanonicalTransaction {
        tx_type: z,
        from: z,
        to: z,
        gas_limit: z,
        gas_per_pubdata_byte_limit: z,
        max_fee_per_gas: z,
        max_priority_fee_per_gas: z,
        paymaster: z,
        nonce: z,
        value: z,
        reserved: [z; 4],
        data: Vec::new(),
        signature: Vec::new(),
        factory_deps: Vec::new(),
        paymaster_input: Vec::new(),
        reserved_dynamic: Vec::new(),
    }
}

fn message(index: u64, fill: u8) -> PriorityTransaction {
    PriorityTransaction {
        index,
        tx_id: B256 { bytes: [fill; 32] },
        expiration_timestamp: 0,
        l2_tx: envelope(),
    }
}

fn first_messages(n: u64) -> Vec<PriorityTransaction> {
    (0..n).map(|i| message(i, i as u8 + 1)).collect()
}

const EMPTY: &str = "c5d2460186f7233c927e7db2dcc703c0e500b653ca82273b7bfad8045d85a470";

#[test]
fn empty_digest_is_the_known_constant() {
    assert_eq!(hash_empty(), word(EMPTY));
}

#[test]
fn pair_digest_concatenates_without_framing() {
    let left = B256 { bytes: [1; 32] };
    let right = B256 { bytes: [2; 32] };
    assert_eq!(
        hash_pair(&left, &right),
        word("346d8c96a2454213fcc0daff3c96ad0398148181b9fa6488f7ae2c0af5b20aa0")
    );
    assert_ne!(hash_pair(&left, &right), hash_pair(&right, &left));
}

#[test]
fn empty_queue_has_one_padding_leaf() {
    let txs: Vec<PriorityTransaction> = Vec::new();
    assert_eq!(leaf_count(&txs), Some(1));
    let leaves = build_leaves(&txs, hash_empty());
    assert_eq!(leaves, vec![word(EMPTY)]);
    assert_eq!(compute_merkle_tree(&txs), word(EMPTY));
}

#[test]
fn single_message_is_its_own_root() {
    let txs = first_messages(1);
    assert_eq!(leaf_count(&txs), Some(1));
    assert_eq!(compute_merkle_tree(&txs), B256 { bytes: [1; 32] });
}

#[test]
fn three_messages_pad_to_four_leaves() {
    let txs = first_messages(3);
    assert_eq!(leaf_count(&txs), Some(4));
    let leaves = build_leaves(&txs, hash_empty());
    assert_eq!(leaves.len(), 4);
    assert_eq!(leaves[0], B256 { bytes: [1; 32] });
    assert_eq!(leaves[1], B256 { bytes: [2; 32] });
    assert_eq!(leaves[2], B256 { bytes: [3; 32] });
    assert_eq!(leaves[3], word(EMPTY));
    assert_eq!(
        compute_merkle_tree(&txs),
        word("4700ce9280700ecf222df04cebd7e561b34e7efc0d332ba1f11125c790f8f28a")
    );
}

#[test]
fn five_messages_match_the_golden_root() {
    let txs = first_messages(5);
    assert_eq!(leaf_count(&txs), Some(8));
    let leaves = build_leaves(&txs, hash_empty());
    assert_eq!(leaves.len(), 8);
    for k in 5..8 {
        assert_eq!(leaves[k], word(EMPTY));
    }
    assert_eq!(
        compute_merkle_tree(&txs),
        word("8c33a566e7a564c85042af24b893b6d4a2af410c66cbe3bab45471f635722f22")
    );
}

#[test]
fn root_does_not_depend_on_arrival_order() {
    let forward = first_messages(5);
    let mut backward = first_messages(5);
    backward.reverse();
    let mut shuffled = first_messages(5);
    shuffled.swap(0, 3);
    shuffled.swap(1, 4);
    let root = compute_merkle_tree(&forward);
    assert_eq!(compute_merkle_tree(&backward), root);
    assert_eq!(compute_merkle_tree(&shuffled), root);
}

#[test]
fn later_claim_of_an_index_wins() {
    let txs = vec![message(0, 1), message(1, 2), message(1, 9)];
    let leaves = build_leaves(&txs, hash_empty());
    assert_eq!(leaves, vec![B256 { bytes: [1; 32] }, B256 { bytes: [9; 32] }]);
}

#[test]
fn sparse_indices_leave_padding_between() {
    let txs = vec![message(2, 7)];
    assert_eq!(leaf_count(&txs), Some(4));
    let leaves = build_leaves(&txs, B256 { bytes: [0xee; 32] });
    assert_eq!(
        leaves,
        vec![
            B256 { bytes: [0xee; 32] },
            B256 { bytes: [0xee; 32] },
            B256 { bytes: [7; 32] },
            B256 { bytes: [0xee; 32] },
        ]
    );
}

#[test]
fn leaf_count_refuses_an_unaddressable_tree() {
    let txs = vec![message(u64::MAX, 1)];
    assert_eq!(leaf_count(&txs), None);
}

#[test]
fn reduce_hashes_neighbours_level_by_level() {
    let a = B256 { bytes: [1; 32] };
    let b = B256 { bytes: [2; 32] };
    let c = B256 { bytes: [3; 32] };
    let d = word(EMPTY);
    let expected = hash_pair(&hash_pair(&a, &b), &hash_pair(&c, &d));
    assert_eq!(merkle_reduce(vec![a, b, c, d]), expected);
    assert_eq!(merkle_reduce(vec![c]), c);
}
