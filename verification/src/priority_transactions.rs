//! Priority messages of one chain and the Merkle commitment over them.
//!
//! Every priority message has a zero-based index and a 32-byte transaction
//! id. The chain commits to the queue with a binary Merkle tree whose leaf
//! `i` is the id of message `i`; leaves past the last message hold the digest
//! of the empty byte string, and the number of leaves is a power of two.

use crate::addresses::{human_text, AddressBook};
use crate::amounts::{grouped, wei_as_string};
use crate::hashing::{hash_empty, hash_pair, keccak256_digest};
use crate::primitives::{B256, U256};
use crate::remote::MalformedEvent;
use crate::scanner::{planned_windows, EventScan, BLOCKS_PER_CALL};
use crate::sequencer::SequencerType;
use crate::text::{
    decimal_text, decimal_u64, format_b256, hex_encode, hex_text, is_bold, line, paint_bold,
    prefixed_hex, push_line, repeat_char, same_text, spaces,
};
use vstd::prelude::*;
use vstd::string::StringExecFns;

verus! {

/// The transaction envelope carried by a priority message. It is shown in
/// reports and plays no part in the commitment.
#[derive(Clone, Debug)]
pub struct L2CanonicalTransaction {
    pub tx_type: U256,
    pub from: U256,
    pub to: U256,
    pub gas_limit: U256,
    pub gas_per_pubdata_byte_limit: U256,
    pub max_fee_per_gas: U256,
    pub max_priority_fee_per_gas: U256,
    pub paymaster: U256,
    pub nonce: U256,
    pub value: U256,
    pub reserved: [U256; 4],
    pub data: Vec<u8>,
    pub signature: Vec<u8>,
    pub factory_deps: Vec<U256>,
    pub paymaster_input: Vec<u8>,
    pub reserved_dynamic: Vec<u8>,
}

/// The fields of one decoded "new priority request" event.
#[derive(Clone, Debug)]
pub struct NewPriorityRequest {
    pub tx_id: U256,
    pub tx_hash: B256,
    pub expiration_timestamp: u64,
    pub transaction: L2CanonicalTransaction,
}

/// One priority message.
#[derive(Clone, Debug)]
pub struct PriorityTransaction {
    pub index: u64,
    pub tx_id: B256,
    pub expiration_timestamp: u64,
    pub l2_tx: L2CanonicalTransaction,
}

impl PriorityTransaction {
    /// Reads a priority message out of a decoded event. The event is
    /// malformed exactly when its index does not fit in 64 bits.
    pub fn from_request(request: NewPriorityRequest) -> (r: Result<
        PriorityTransaction,
        MalformedEvent,
    >)
        ensures
            r is Ok <==> request.tx_id.value() <= u64::MAX,
            r matches Ok(tx) ==> tx.index == request.tx_id.value() && tx.tx_id
                == request.tx_hash && tx.expiration_timestamp == request.expiration_timestamp
                && tx.l2_tx == request.transaction,
            r matches Err(e) ==> e == MalformedEvent::NumberOutOfRange,
    {
        match request.tx_id.to_u64() {
            Some(index) => Ok(
                PriorityTransaction {
                    index,
                    tx_id: request.tx_hash,
                    expiration_timestamp: request.expiration_timestamp,
                    l2_tx: request.transaction,
                },
            ),
            None => Err(MalformedEvent::NumberOutOfRange),
        }
    }
}

/// One more than the largest index among `txs`; zero when there are none.
pub open spec fn leaf_span(txs: Seq<PriorityTransaction>) -> nat
    decreases txs.len(),
{
    if txs.len() == 0 {
        0
    } else {
        let rest = leaf_span(txs.drop_last());
        let here = txs.last().index as nat + 1;
        if here > rest {
            here
        } else {
            rest
        }
    }
}

/// Whether `p` is a power of two.
pub open spec fn is_power_of_two(p: nat) -> bool
    decreases p,
{
    p == 1 || (p > 1 && p % 2 == 0 && is_power_of_two(p / 2))
}

/// The smallest power of two that is at least `n`; one for `n` below two.
pub open spec fn next_power_of_two(n: nat) -> nat
    decreases n,
{
    if n <= 1 {
        1
    } else {
        2 * next_power_of_two((n + 1) / 2)
    }
}

/// `next_power_of_two(n)` is a power of two, is at least `n`, and no smaller
/// power of two is: half of it is below `n` whenever `n` is at least two.
pub proof fn lemma_next_power_of_two(n: nat)
    ensures
        is_power_of_two(next_power_of_two(n)),
        next_power_of_two(n) >= n,
        next_power_of_two(n) >= 1,
        n >= 2 ==> next_power_of_two(n) / 2 < n,
        n <= 1 ==> next_power_of_two(n) == 1,
    decreases n,
{
    if n > 1 {
        let h = (n + 1) / 2;
        lemma_next_power_of_two(h);
        let p = next_power_of_two(h);
        assert(next_power_of_two(n) == 2 * p);
        assert((2 * p) / 2 == p);
        assert((2 * p) % 2 == 0);
        if h >= 2 {
            assert(p / 2 < h);
            assert(p % 2 == 0) by {
                assert(is_power_of_two(p));
            }
        }
    }
}

/// The leaf at position `k`: the id of the last message in `txs` that claims
/// index `k`, or `pad` when none does.
pub open spec fn leaf_at(txs: Seq<PriorityTransaction>, k: int, pad: Seq<u8>) -> Seq<u8>
    decreases txs.len(),
{
    if txs.len() == 0 {
        pad
    } else if txs.last().index == k {
        txs.last().tx_id@
    } else {
        leaf_at(txs.drop_last(), k, pad)
    }
}

/// The leaves of the tree over `txs`, padded with `pad`.
pub open spec fn leaf_layout(txs: Seq<PriorityTransaction>, pad: Seq<u8>) -> Seq<Seq<u8>> {
    Seq::new(next_power_of_two(leaf_span(txs)), |k: int| leaf_at(txs, k, pad))
}

/// The level above `level`: node `i` is the digest of nodes `2i` and `2i + 1`
/// laid end to end.
pub open spec fn merkle_parents(level: Seq<Seq<u8>>) -> Seq<Seq<u8>> {
    Seq::new(level.len() / 2, |i: int| keccak256_digest(level[2 * i] + level[2 * i + 1]))
}

/// The root reached from `level` by halving until one node is left. A single
/// node is its own root.
pub open spec fn merkle_root(level: Seq<Seq<u8>>) -> Seq<u8>
    decreases level.len(),
{
    if level.len() <= 1 {
        level[0]
    } else {
        merkle_root(merkle_parents(level))
    }
}

/// The root of the priority tree over `txs`.
pub open spec fn priority_tree_root(txs: Seq<PriorityTransaction>) -> Seq<u8> {
    merkle_root(leaf_layout(txs, keccak256_digest(Seq::<u8>::empty())))
}

/// The byte strings held by a sequence of words.
pub open spec fn words(level: Seq<B256>) -> Seq<Seq<u8>> {
    Seq::new(level.len(), |i: int| level[i]@)
}

/// Every index in `txs` is below `leaf_span(txs)`.
pub proof fn lemma_leaf_span_bounds(txs: Seq<PriorityTransaction>, i: int)
    requires
        0 <= i < txs.len(),
    ensures
        txs[i].index < leaf_span(txs),
    decreases txs.len(),
{
    if i < txs.len() - 1 {
        lemma_leaf_span_bounds(txs.drop_last(), i);
    }
}

/// Without messages the tree is a single padding leaf, and that leaf is
/// the root.
pub proof fn lemma_empty_queue_root(pad: Seq<u8>)
    ensures
        leaf_layout(Seq::<PriorityTransaction>::empty(), pad) == seq![pad],
        merkle_root(leaf_layout(Seq::<PriorityTransaction>::empty(), pad)) == pad,
        priority_tree_root(Seq::<PriorityTransaction>::empty()) == keccak256_digest(
            Seq::<u8>::empty(),
        ),
{
    assert(leaf_layout(Seq::<PriorityTransaction>::empty(), pad) =~= seq![pad]);
    assert(leaf_layout(Seq::<PriorityTransaction>::empty(), keccak256_digest(Seq::<u8>::empty()))
        =~= seq![keccak256_digest(Seq::<u8>::empty())]);
}

/// A single message with index zero is the only leaf, and its id is the
/// root: nothing is hashed.
pub proof fn lemma_single_message_root(tx: PriorityTransaction, pad: Seq<u8>)
    requires
        tx.index == 0,
    ensures
        leaf_layout(seq![tx], pad) == seq![tx.tx_id@],
        merkle_root(leaf_layout(seq![tx], pad)) == tx.tx_id@,
        priority_tree_root(seq![tx]) == tx.tx_id@,
{
    let txs = seq![tx];
    assert(txs.drop_last().len() == 0);
    assert(leaf_span(txs.drop_last()) == 0);
    assert(txs.last() == tx);
    assert(leaf_span(txs) == 1);
    assert(leaf_layout(txs, pad) =~= seq![tx.tx_id@]);
    assert(leaf_layout(txs, keccak256_digest(Seq::<u8>::empty())) =~= seq![tx.tx_id@]);
}

/// The number of leaves the tree over `txs` has, if a leaf array of that
/// length can be addressed on this machine.
pub fn leaf_count(txs: &Vec<PriorityTransaction>) -> (r: Option<usize>)
    ensures
        r is Some <==> next_power_of_two(leaf_span(txs@)) <= usize::MAX,
        r matches Some(n) ==> n == next_power_of_two(leaf_span(txs@)),
{
    let mut span: u128 = 0;
    let mut i: usize = 0;
    while i < txs.len()
        invariant
            i <= txs.len(),
            span == leaf_span(txs@.take(i as int)),
            span <= u64::MAX + 1,
        decreases txs.len() - i,
    {
        proof {
            assert(txs@.take(i + 1).drop_last() =~= txs@.take(i as int));
        }
        let here: u128 = txs[i].index as u128 + 1;
        if here > span {
            span = here;
        }
        i += 1;
    }
    assert(txs@.take(txs.len() as int) =~= txs@);
    let ghost total = span as nat;
    let mut rest: u128 = span;
    let mut count: u128 = 1;
    while rest > 1
        invariant
            next_power_of_two(total) == count * next_power_of_two(rest as nat),
            total <= u64::MAX + 1,
            rest <= total,
            count >= 1,
        decreases rest,
    {
        proof {
            let upper = next_power_of_two(((rest + 1) / 2) as nat);
            lemma_next_power_of_two(((rest + 1) / 2) as nat);
            lemma_next_power_of_two(total);
            lemma_next_power_of_two_limit(total);
            assert(count * (2 * upper) == (count * 2) * upper) by (nonlinear_arith);
            assert(count * 2 <= (count * 2) * upper) by (nonlinear_arith)
                requires
                    upper >= 1,
                    count >= 1,
            ;
        }
        rest = (rest + 1) / 2;
        count = count * 2;
    }
    assert(count == next_power_of_two(total)) by (nonlinear_arith)
        requires
            next_power_of_two(total) == count * next_power_of_two(rest as nat),
            next_power_of_two(rest as nat) == 1,
    ;
    if count > usize::MAX as u128 {
        None
    } else {
        Some(count as usize)
    }
}

/// `next_power_of_two` of a number that fits in 65 bits fits in 66.
proof fn lemma_next_power_of_two_limit(n: nat)
    requires
        n <= u64::MAX + 1,
    ensures
        next_power_of_two(n) <= 2 * (u64::MAX + 1),
{
    lemma_next_power_of_two(n);
    if n >= 2 {
        let p = next_power_of_two(n);
        assert(p % 2 == 0);
    }
}

/// Lays out the leaves of the tree over `txs`: as many as `leaf_count` says,
/// each holding `pad` unless a message claims its position. Where two
/// messages claim one position, the later one in `txs` is kept.
pub fn build_leaves(txs: &Vec<PriorityTransaction>, pad: B256) -> (leaves: Vec<B256>)
    requires
        next_power_of_two(leaf_span(txs@)) <= usize::MAX,
    ensures
        words(leaves@) == leaf_layout(txs@, pad@),
        leaves.len() == next_power_of_two(leaf_span(txs@)),
{
    let size = match leaf_count(txs) {
        Some(n) => n,
        None => 0,
    };
    let mut leaves: Vec<B256> = Vec::new();
    let mut k: usize = 0;
    while k < size
        invariant
            k <= size,
            leaves.len() == k,
            forall|j: int| 0 <= j < k ==> leaves@[j] == pad,
        decreases size - k,
    {
        leaves.push(pad);
        k += 1;
    }
    let mut i: usize = 0;
    while i < txs.len()
        invariant
            i <= txs.len(),
            leaves.len() == size,
            size == next_power_of_two(leaf_span(txs@)),
            forall|j: int|
                0 <= j < size ==> (#[trigger] leaves@[j])@ == leaf_at(txs@.take(i as int), j, pad@),
        decreases txs.len() - i,
    {
        proof {
            lemma_leaf_span_bounds(txs@, i as int);
            lemma_next_power_of_two(leaf_span(txs@));
            assert(txs@.take(i + 1).drop_last() =~= txs@.take(i as int));
        }
        let at = txs[i].index as usize;
        leaves.set(at, txs[i].tx_id);
        i += 1;
    }
    assert(txs@.take(txs.len() as int) =~= txs@);
    assert(words(leaves@) =~= leaf_layout(txs@, pad@));
    leaves
}

/// Reduces one level of a tree to the level above it.
fn parents_of(level: &Vec<B256>) -> (parents: Vec<B256>)
    ensures
        words(parents@) == merkle_parents(words(level@)),
        parents.len() == level.len() / 2,
{
    let half = level.len() / 2;
    let mut parents: Vec<B256> = Vec::new();
    let mut i: usize = 0;
    while i < half
        invariant
            i <= half,
            half == level.len() / 2,
            parents.len() == i,
            forall|j: int|
                0 <= j < i ==> (#[trigger] parents@[j])@ == keccak256_digest(
                    level@[2 * j]@ + level@[2 * j + 1]@,
                ),
        decreases half - i,
    {
        let node = hash_pair(&level[2 * i], &level[2 * i + 1]);
        parents.push(node);
        i += 1;
    }
    assert(words(parents@) =~= merkle_parents(words(level@)));
    parents
}

/// The root over `leaves`: pairs of neighbours are hashed together, level by
/// level, until one node is left. A single leaf is returned as it is, with no
/// hashing.
pub fn merkle_reduce(leaves: Vec<B256>) -> (root: B256)
    requires
        leaves.len() >= 1,
    ensures
        root@ == merkle_root(words(leaves@)),
{
    let mut level = leaves;
    while level.len() > 1
        invariant
            level.len() >= 1,
            merkle_root(words(level@)) == merkle_root(words(leaves@)),
        decreases level.len(),
    {
        level = parents_of(&level);
    }
    level[0]
}

/// The root of the priority tree over `txs`.
///
/// The leaf array has `next_power_of_two(max index + 1)` entries, at least
/// one; it must be addressable, which `leaf_count` tests.
pub fn compute_merkle_tree(txs: &Vec<PriorityTransaction>) -> (root: B256)
    requires
        next_power_of_two(leaf_span(txs@)) <= usize::MAX,
    ensures
        root@ == priority_tree_root(txs@),
{
    let pad = hash_empty();
    let leaves = build_leaves(txs, pad);
    proof {
        lemma_next_power_of_two(leaf_span(txs@));
    }
    merkle_reduce(leaves)
}

/// No two messages in `txs` claim one index with different ids.
pub open spec fn indices_agree(txs: Seq<PriorityTransaction>) -> bool {
    forall|i: int, j: int|
        0 <= i < txs.len() && 0 <= j < txs.len() && txs[i].index == txs[j].index
            ==> txs[i].tx_id@ == txs[j].tx_id@
}

/// Where the messages agree, a leaf holds the id of any message that claims
/// it, and the padding when none does.
pub proof fn lemma_leaf_at_claimed(txs: Seq<PriorityTransaction>, k: int, pad: Seq<u8>)
    requires
        indices_agree(txs),
    ensures
        forall|i: int|
            0 <= i < txs.len() && #[trigger] txs[i].index == k ==> leaf_at(txs, k, pad)
                == txs[i].tx_id@,
        (forall|i: int| 0 <= i < txs.len() ==> #[trigger] txs[i].index != k) ==> leaf_at(
            txs,
            k,
            pad,
        ) == pad,
    decreases txs.len(),
{
    if txs.len() > 0 {
        let rest = txs.drop_last();
        assert forall|i: int, j: int|
            0 <= i < rest.len() && 0 <= j < rest.len() && rest[i].index
                == rest[j].index implies rest[i].tx_id@ == rest[j].tx_id@ by {
            assert(rest[i] == txs[i] && rest[j] == txs[j]);
        }
        lemma_leaf_at_claimed(rest, k, pad);
        assert forall|i: int| 0 <= i < txs.len() && #[trigger] txs[i].index == k implies leaf_at(
            txs,
            k,
            pad,
        ) == txs[i].tx_id@ by {
            if txs.last().index == k {
                assert(txs[txs.len() - 1].index == txs[i].index);
            } else {
                assert(rest[i] == txs[i]);
            }
        }
        if forall|i: int| 0 <= i < txs.len() ==> #[trigger] txs[i].index != k {
            assert(txs[txs.len() - 1].index != k);
            assert forall|i: int| 0 <= i < rest.len() implies #[trigger] rest[i].index != k by {
                assert(rest[i] == txs[i]);
            }
        }
    }
}

/// `leaf_span` is the least bound above every index: it is no larger than
/// any `bound` that every index is below.
proof fn lemma_leaf_span_least(txs: Seq<PriorityTransaction>, bound: nat)
    requires
        forall|i: int| 0 <= i < txs.len() ==> (#[trigger] txs[i]).index < bound,
    ensures
        leaf_span(txs) <= bound,
    decreases txs.len(),
{
    if txs.len() > 0 {
        let rest = txs.drop_last();
        assert forall|i: int| 0 <= i < rest.len() implies (#[trigger] rest[i]).index < bound by {
            assert(rest[i] == txs[i]);
        }
        lemma_leaf_span_least(rest, bound);
        assert(txs[txs.len() - 1].index < bound);
    }
}

/// Every message of `a` also occurs in `b` when the two hold the same
/// messages, each as often.
proof fn lemma_same_messages(a: Seq<PriorityTransaction>, b: Seq<PriorityTransaction>, i: int)
    requires
        a.to_multiset() == b.to_multiset(),
        0 <= i < a.len(),
    ensures
        exists|j: int| 0 <= j < b.len() && b[j] == a[i],
{
    vstd::seq_lib::to_multiset_contains(a, a[i]);
    vstd::seq_lib::to_multiset_contains(b, a[i]);
    assert(a.contains(a[i]));
    assert(b.contains(a[i]));
}

/// One half of order independence: what `a` decides about a leaf, `b`
/// decides too.
proof fn lemma_leaf_at_same(
    a: Seq<PriorityTransaction>,
    b: Seq<PriorityTransaction>,
    k: int,
    pad: Seq<u8>,
)
    requires
        a.to_multiset() == b.to_multiset(),
        indices_agree(a),
        indices_agree(b),
    ensures
        leaf_at(a, k, pad) == leaf_at(b, k, pad),
{
    lemma_leaf_at_claimed(a, k, pad);
    lemma_leaf_at_claimed(b, k, pad);
    if exists|i: int| 0 <= i < a.len() && #[trigger] a[i].index == k {
        let i = choose|i: int| 0 <= i < a.len() && #[trigger] a[i].index == k;
        lemma_same_messages(a, b, i);
        let j = choose|j: int| 0 <= j < b.len() && b[j] == a[i];
        assert(b[j].index == k);
    } else {
        assert forall|j: int| 0 <= j < b.len() implies #[trigger] b[j].index != k by {
            lemma_same_messages(b, a, j);
            let i = choose|i: int| 0 <= i < a.len() && a[i] == b[j];
            assert(a[i].index != k);
        }
    }
}

/// The root of the priority tree does not depend on the order in which the
/// messages arrived: two sequences that hold the same messages, each as
/// often, have the same root, provided no index is claimed with two
/// different ids (then the later claim would win, and order would matter).
pub proof fn lemma_root_ignores_order(a: Seq<PriorityTransaction>, b: Seq<PriorityTransaction>)
    requires
        a.to_multiset() == b.to_multiset(),
        indices_agree(a),
    ensures
        leaf_span(a) == leaf_span(b),
        forall|pad: Seq<u8>| leaf_layout(a, pad) == leaf_layout(b, pad),
        priority_tree_root(a) == priority_tree_root(b),
{
    assert forall|i: int, j: int|
        0 <= i < b.len() && 0 <= j < b.len() && b[i].index == b[j].index implies b[i].tx_id@
        == b[j].tx_id@ by {
        lemma_same_messages(b, a, i);
        lemma_same_messages(b, a, j);
        let x = choose|x: int| 0 <= x < a.len() && a[x] == b[i];
        let y = choose|y: int| 0 <= y < a.len() && a[y] == b[j];
        assert(a[x].index == a[y].index);
    }
    assert forall|i: int| 0 <= i < a.len() implies (#[trigger] a[i]).index < leaf_span(b) by {
        lemma_same_messages(a, b, i);
        let j = choose|j: int| 0 <= j < b.len() && b[j] == a[i];
        lemma_leaf_span_bounds(b, j);
    }
    lemma_leaf_span_least(a, leaf_span(b));
    assert forall|j: int| 0 <= j < b.len() implies (#[trigger] b[j]).index < leaf_span(a) by {
        lemma_same_messages(b, a, j);
        let i = choose|i: int| 0 <= i < a.len() && a[i] == b[j];
        lemma_leaf_span_bounds(a, i);
    }
    lemma_leaf_span_least(b, leaf_span(a));
    assert forall|pad: Seq<u8>| leaf_layout(a, pad) == leaf_layout(b, pad) by {
        assert forall|k: int| leaf_at(a, k, pad) == leaf_at(b, k, pad) by {
            lemma_leaf_at_same(a, b, k, pad);
        }
        assert(leaf_layout(a, pad) =~= leaf_layout(b, pad));
    }
}

/// How many of the newest blocks are searched for priority messages on a
/// local network.
pub const PRIORITY_SCAN_DEPTH: u64 = 5000;

/// Priority messages were asked of a layer that has none: they are queued
/// on the base layer only.
#[derive(Clone, Copy, Debug, PartialEq, Eq, Structural)]
pub struct NotOnBaseLayer;

/// Plans the scan for the priority messages of a chain whose base layer is
/// at height `head`. With `max_depth`, only about that many of the newest
/// blocks are searched. A rollup layer is refused.
pub fn fetch_all_priority_transactions(
    layer: &SequencerType,
    head: u64,
    max_depth: Option<u64>,
) -> (r: Result<EventScan, NotOnBaseLayer>)
    ensures
        r is Ok <==> *layer is L1,
        r matches Ok(scan) ==> scan.pending() == planned_windows(
            head,
            BLOCKS_PER_CALL,
            max_depth,
        ),
{
    match layer {
        SequencerType::L1 => Ok(EventScan::start(head, BLOCKS_PER_CALL, max_depth)),
        SequencerType::L2(_) => Err(NotOnBaseLayer),
    }
}

/// Whether every request in `requests` has an index that fits in 64 bits.
pub open spec fn all_well_formed(requests: Seq<NewPriorityRequest>) -> bool {
    forall|i: int| 0 <= i < requests.len() ==> (#[trigger] requests[i]).tx_id.value() <= u64::MAX
}

/// Reads the priority messages out of decoded events, in order. One
/// malformed event makes the whole list malformed.
pub fn decode_priority_transactions(requests: Vec<NewPriorityRequest>) -> (r: Result<
    Vec<PriorityTransaction>,
    MalformedEvent,
>)
    ensures
        r is Ok <==> all_well_formed(requests@),
        r matches Ok(txs) ==> txs@.len() == requests@.len() && forall|i: int|
            0 <= i < txs@.len() ==> (#[trigger] txs@[i]).index == requests@[i].tx_id.value()
                && txs@[i].tx_id == requests@[i].tx_hash && txs@[i].expiration_timestamp
                == requests@[i].expiration_timestamp && txs@[i].l2_tx == requests@[i].transaction,
        r matches Err(e) ==> e == MalformedEvent::NumberOutOfRange,
{
    let ghost all = requests@;
    let mut rest = requests;
    let mut reversed: Vec<PriorityTransaction> = Vec::new();
    while rest.len() > 0
        invariant
            all == requests@,
            rest@.len() <= all.len(),
            rest@ == all.take(rest@.len() as int),
            reversed@.len() == all.len() - rest@.len(),
            forall|k: int|
                0 <= k < reversed@.len() ==> (#[trigger] reversed@[k]).index == all[all.len() - 1
                    - k].tx_id.value() && reversed@[k].tx_id == all[all.len() - 1 - k].tx_hash
                    && reversed@[k].expiration_timestamp == all[all.len() - 1
                    - k].expiration_timestamp && reversed@[k].l2_tx == all[all.len() - 1
                    - k].transaction,
        decreases rest.len(),
    {
        let ghost before = rest@;
        let request = match rest.pop() {
            Some(request) => request,
            None => {
                return Err(MalformedEvent::NumberOutOfRange);
            },
        };
        assert(request == all[before.len() - 1]);
        assert(rest@ =~= all.take(rest@.len() as int));
        match PriorityTransaction::from_request(request) {
            Ok(tx) => {
                reversed.push(tx);
            },
            Err(e) => {
                assert(all[before.len() - 1].tx_id.value() > u64::MAX);
                return Err(e);
            },
        }
    }
    let mut txs: Vec<PriorityTransaction> = Vec::new();
    while reversed.len() > 0
        invariant
            txs@.len() + reversed@.len() == all.len(),
            forall|k: int|
                0 <= k < reversed@.len() ==> (#[trigger] reversed@[k]).index == all[all.len() - 1
                    - k].tx_id.value() && reversed@[k].tx_id == all[all.len() - 1 - k].tx_hash
                    && reversed@[k].expiration_timestamp == all[all.len() - 1
                    - k].expiration_timestamp && reversed@[k].l2_tx == all[all.len() - 1
                    - k].transaction,
            forall|i: int|
                0 <= i < txs@.len() ==> (#[trigger] txs@[i]).index == all[i].tx_id.value()
                    && txs@[i].tx_id == all[i].tx_hash && txs@[i].expiration_timestamp
                    == all[i].expiration_timestamp && txs@[i].l2_tx == all[i].transaction,
        decreases reversed.len(),
    {
        let ghost left = reversed@;
        match reversed.pop() {
            Some(tx) => {
                assert(tx == left[left.len() - 1]);
                txs.push(tx);
            },
            None => {},
        }
    }
    assert forall|i: int| 0 <= i < all.len() implies (#[trigger] all[i]).tx_id.value()
        <= u64::MAX by {
        assert(txs@[i].index == all[i].tx_id.value());
    }
    Ok(txs)
}

/// Whether the indices of `txs` never fall from one message to the next.
pub open spec fn ordered_by_index(txs: Seq<PriorityTransaction>) -> bool {
    forall|i: int, j: int| 0 <= i <= j < txs.len() ==> txs[i].index <= txs[j].index
}

/// The messages of `txs` that carry index `index`, in order.
pub open spec fn with_index(txs: Seq<PriorityTransaction>, index: u64) -> Seq<PriorityTransaction>
    decreases txs.len(),
{
    if txs.len() == 0 {
        Seq::empty()
    } else if txs.last().index == index {
        with_index(txs.drop_last(), index).push(txs.last())
    } else {
        with_index(txs.drop_last(), index)
    }
}

/// Picking by index goes through concatenation.
proof fn lemma_with_index_add(a: Seq<PriorityTransaction>, b: Seq<PriorityTransaction>, index: u64)
    ensures
        with_index(a + b, index) == with_index(a, index) + with_index(b, index),
    decreases b.len(),
{
    if b.len() == 0 {
        assert(a + b =~= a);
        assert(with_index(a, index) + with_index(b, index) =~= with_index(a, index));
    } else {
        lemma_with_index_add(a, b.drop_last(), index);
        assert((a + b).drop_last() =~= a + b.drop_last());
        assert((a + b).last() == b.last());
        if b.last().index == index {
            assert(with_index(a, index) + with_index(b.drop_last(), index).push(b.last())
                =~= (with_index(a, index) + with_index(b.drop_last(), index)).push(b.last()));
        }
    }
}

/// Where no message carries an index, picking by it gives nothing.
proof fn lemma_with_index_none(txs: Seq<PriorityTransaction>, index: u64)
    requires
        forall|i: int| 0 <= i < txs.len() ==> (#[trigger] txs[i]).index != index,
    ensures
        with_index(txs, index) == Seq::<PriorityTransaction>::empty(),
    decreases txs.len(),
{
    if txs.len() > 0 {
        let rest = txs.drop_last();
        assert forall|i: int| 0 <= i < rest.len() implies (#[trigger] rest[i]).index != index by {
            assert(rest[i] == txs[i]);
        }
        lemma_with_index_none(rest, index);
        assert(txs[txs.len() - 1].index != index);
    }
}

/// Taking out the first message of least index and putting it at the end
/// of what is sorted keeps, for every index, the messages that carry it in
/// their order.
proof fn lemma_move_least(
    sorted: Seq<PriorityTransaction>,
    rest: Seq<PriorityTransaction>,
    least: int,
    index: u64,
)
    requires
        0 <= least < rest.len(),
        forall|j: int| 0 <= j < least ==> (#[trigger] rest[j]).index > rest[least].index,
    ensures
        with_index(sorted.push(rest[least]), index) + with_index(rest.remove(least), index)
            == with_index(sorted, index) + with_index(rest, index),
{
    let x = rest[least];
    let head = rest.take(least);
    let tail = rest.skip(least + 1);
    assert(rest =~= head + seq![x] + tail);
    assert(rest.remove(least) =~= head + tail);
    lemma_with_index_add(head + seq![x], tail, index);
    lemma_with_index_add(head, seq![x], index);
    lemma_with_index_add(head, tail, index);
    lemma_with_index_add(sorted, seq![x], index);
    assert(sorted.push(x) =~= sorted + seq![x]);
    assert(seq![x].drop_last().len() == 0);
    assert(with_index(seq![x].drop_last(), index).len() == 0);
    assert(seq![x].last() == x);
    if x.index == index {
        assert forall|i: int| 0 <= i < head.len() implies (#[trigger] head[i]).index != index by {
            assert(head[i] == rest[i]);
        }
        lemma_with_index_none(head, index);
        assert(with_index(seq![x], index) =~= seq![x]);
        assert(with_index(sorted, index) + seq![x] + with_index(tail, index) =~= with_index(
            sorted,
            index,
        ) + (Seq::<PriorityTransaction>::empty() + seq![x] + with_index(tail, index)));
    } else {
        assert(with_index(seq![x], index) =~= Seq::<PriorityTransaction>::empty());
        assert(with_index(sorted, index) + Seq::<PriorityTransaction>::empty() + (with_index(
            head,
            index,
        ) + with_index(tail, index)) =~= with_index(sorted, index) + (with_index(head, index)
            + Seq::<PriorityTransaction>::empty() + with_index(tail, index)));
    }
}

/// The messages in ascending order of index. No message is lost or added,
/// and the messages that share an index keep their order.
pub fn sort_by_index(txs: Vec<PriorityTransaction>) -> (sorted: Vec<PriorityTransaction>)
    ensures
        ordered_by_index(sorted@),
        sorted@.to_multiset() == txs@.to_multiset(),
        sorted@.len() == txs@.len(),
        forall|index: u64| with_index(sorted@, index) == with_index(txs@, index),
{
    let ghost all = txs@;
    let mut rest = txs;
    let mut sorted: Vec<PriorityTransaction> = Vec::new();
    proof {
        vstd::seq_lib::to_multiset_len(sorted@);
        vstd::multiset::lemma_multiset_empty_len(sorted@.to_multiset());
        assert(sorted@.to_multiset().add(rest@.to_multiset()) =~= all.to_multiset());
        assert forall|index: u64|
            with_index(sorted@, index) + with_index(rest@, index) == with_index(all, index) by {
            assert(with_index(sorted@, index) + with_index(rest@, index) =~= with_index(
                all,
                index,
            ));
        }
    }
    while rest.len() > 0
        invariant
            sorted@.to_multiset().add(rest@.to_multiset()) == all.to_multiset(),
            sorted@.len() + rest@.len() == all.len(),
            ordered_by_index(sorted@),
            forall|i: int, j: int|
                0 <= i < sorted@.len() && 0 <= j < rest@.len() ==> sorted@[i].index
                    <= rest@[j].index,
            forall|index: u64|
                with_index(sorted@, index) + with_index(rest@, index) == with_index(all, index),
        decreases rest.len(),
    {
        let mut least: usize = 0;
        let mut k: usize = 1;
        while k < rest.len()
            invariant
                1 <= k <= rest.len(),
                least < k,
                forall|j: int| 0 <= j < k ==> rest@[least as int].index <= rest@[j].index,
                forall|j: int| 0 <= j < least ==> (#[trigger] rest@[j]).index > rest@[least as int].index,
            decreases rest.len() - k,
        {
            if rest[k].index < rest[least].index {
                least = k;
            }
            k += 1;
        }
        let ghost before = rest@;
        let ghost done = sorted@;
        let next = rest.remove(least);
        sorted.push(next);
        proof {
            vstd::seq_lib::to_multiset_remove(before, least as int);
            vstd::seq_lib::to_multiset_build(done, next);
            vstd::seq_lib::to_multiset_contains(before, next);
            assert(before.contains(next));
            assert(sorted@.to_multiset().add(rest@.to_multiset()) =~= done.to_multiset().add(
                before.to_multiset(),
            ));
            assert forall|i: int, j: int|
                0 <= i < sorted@.len() && 0 <= j < rest@.len() implies sorted@[i].index
                <= rest@[j].index by {
                if j < least {
                    assert(rest@[j] == before[j]);
                } else {
                    assert(rest@[j] == before[j + 1]);
                }
                if i < done.len() {
                    assert(sorted@[i] == done[i]);
                }
            }
            assert forall|i: int, j: int| 0 <= i <= j < sorted@.len() implies sorted@[i].index
                <= sorted@[j].index by {
                if j < done.len() {
                    assert(sorted@[i] == done[i] && sorted@[j] == done[j]);
                } else if i < done.len() {
                    assert(sorted@[i] == done[i]);
                    assert(sorted@[j] == before[least as int]);
                }
            }
            assert forall|index: u64|
                with_index(sorted@, index) + with_index(rest@, index) == with_index(
                    all,
                    index,
                ) by {
                lemma_move_least(done, before, least as int, index);
                assert(sorted@ == done.push(before[least as int]));
            }
        }
    }
    proof {
        vstd::seq_lib::to_multiset_len(rest@);
        vstd::multiset::lemma_multiset_empty_len(rest@.to_multiset());
        assert(sorted@.to_multiset() =~= all.to_multiset());
        assert forall|index: u64| with_index(sorted@, index) == with_index(all, index) by {
            assert(with_index(sorted@, index) + with_index(rest@, index) =~= with_index(
                sorted@,
                index,
            ));
        }
    }
    sorted
}

/// The signature the last entry for `selector` gives it, if any entry
/// does.
pub open spec fn signature_in(entries: Seq<(String, String)>, selector: Seq<char>) -> Option<
    Seq<char>,
>
    decreases entries.len(),
{
    if entries.len() == 0 {
        None
    } else if entries.last().0@ == selector {
        Some(entries.last().1@)
    } else {
        signature_in(entries.drop_last(), selector)
    }
}

/// Known method signatures by selector, the selector written as eight
/// hexadecimal digits. A later entry for a selector replaces an earlier one.
#[derive(Clone, Debug)]
pub struct SignatureBook {
    entries: Vec<(String, String)>,
}

impl SignatureBook {
    /// The signature recorded for `selector`, if any.
    pub closed spec fn signature_of(&self, selector: Seq<char>) -> Option<Seq<char>> {
        signature_in(self.entries@, selector)
    }

    /// A book without signatures.
    pub fn empty() -> (book: SignatureBook)
        ensures
            forall|selector: Seq<char>| book.signature_of(selector) is None,
    {
        SignatureBook { entries: Vec::new() }
    }

    /// Records `signature` for `selector`, replacing any earlier one.
    pub fn add(&mut self, selector: String, signature: String)
        ensures
            final(self).signature_of(selector@) == Some(signature@),
            forall|other: Seq<char>|
                other != selector@ ==> final(self).signature_of(other) == old(self).signature_of(
                    other,
                ),
    {
        let ghost before = self.entries@;
        self.entries.push((selector, signature));
        assert(self.entries@.drop_last() =~= before);
    }

    /// The signature recorded for `selector`, if any.
    pub fn lookup(&self, selector: &str) -> (r: Option<String>)
        ensures
            match r {
                Some(signature) => self.signature_of(selector@) == Some(signature@),
                None => self.signature_of(selector@) is None,
            },
    {
        let mut i: usize = self.entries.len();
        assert(self.entries@.take(i as int) =~= self.entries@);
        while i > 0
            invariant
                i <= self.entries.len(),
                signature_in(self.entries@, selector@) == signature_in(
                    self.entries@.take(i as int),
                    selector@,
                ),
            decreases i,
        {
            proof {
                assert(self.entries@.take(i as int).drop_last() =~= self.entries@.take(i - 1));
            }
            if same_text(self.entries[i - 1].0.as_str(), selector) {
                let signature = self.entries[i - 1].1.clone();
                return Some(signature);
            }
            i -= 1;
        }
        None
    }
}

/// The method that call data names: the signature the book has for its
/// first four bytes, or those bytes in hexadecimal where the book has none.
/// Call data of four bytes or fewer names no method.
pub open spec fn method_of(data: Seq<u8>, known: Option<Seq<char>>) -> Option<Seq<char>> {
    if data.len() > 4 {
        match known {
            Some(signature) => Some(signature),
            None => Some(hex_text(data.take(4))),
        }
    } else {
        None
    }
}

/// The method that `data` names, looked up in `book`.
pub fn method_label(data: &Vec<u8>, book: &SignatureBook) -> (r: Option<String>)
    ensures
        match r {
            Some(label) => method_of(data@, book.signature_of(hex_text(data@.take(4)))) == Some(
                label@,
            ),
            None => method_of(data@, book.signature_of(hex_text(data@.take(4)))) is None,
        },
{
    if data.len() > 4 {
        let mut head: Vec<u8> = Vec::new();
        head.push(data[0]);
        head.push(data[1]);
        head.push(data[2]);
        head.push(data[3]);
        assert(head@ =~= data@.take(4));
        let selector = hex_encode(head.as_slice());
        match book.lookup(selector.as_str()) {
            Some(signature) => Some(signature),
            None => Some(selector),
        }
    } else {
        None
    }
}

/// The first two lines that describe a priority message, each begun by
/// `pad`: its index and id, then its sender and receiver.
pub open spec fn message_heading(
    tx: PriorityTransaction,
    pad: Seq<char>,
    sender: Seq<char>,
    receiver: Seq<char>,
) -> Seq<char> {
    line(pad, "Tx: "@, decimal_text(tx.index as nat) + " - "@ + prefixed_hex(tx.tx_id@)) + line(
        pad,
        "    "@,
        sender + " -> "@ + receiver,
    )
}

/// The line that shows the value a priority message carries, begun by
/// `pad`; nothing for a message that carries none.
pub open spec fn value_line(tx: PriorityTransaction, pad: Seq<char>) -> Seq<char> {
    if tx.l2_tx.reserved@[0].value() > 0 {
        line(pad, "    Value (reserved) - "@, grouped(decimal_text(tx.l2_tx.reserved@[0].value())))
    } else {
        Seq::empty()
    }
}

/// The lines that describe a priority message, given the line that shows
/// its method.
pub open spec fn message_text(
    tx: PriorityTransaction,
    pad: Seq<char>,
    sender: Seq<char>,
    receiver: Seq<char>,
    method: Seq<char>,
) -> Seq<char> {
    message_heading(tx, pad, sender, receiver) + method + value_line(tx, pad)
}

/// Whether `out` is the line that shows `method`, begun by `pad`, with the
/// method in bold or plain; nothing where there is no method.
pub open spec fn shows_method(out: Seq<char>, method: Option<Seq<char>>, pad: Seq<char>) -> bool {
    match method {
        Some(label) => exists|shown: Seq<char>|
            is_bold(shown, label) && out == #[trigger] line(pad, "    Method           - "@, shown),
        None => out == Seq::<char>::empty(),
    }
}

impl PriorityTransaction {
    /// The lines that describe this message, each indented by `pad` spaces:
    /// index and id, sender and receiver as `names` knows them, the method
    /// its call data names as `signatures` knows it, and the value it
    /// carries, if any.
    pub fn detailed_fmt(&self, names: &AddressBook, signatures: &SignatureBook, pad: usize) -> (out:
        String)
        ensures
            exists|method: Seq<char>|
                shows_method(
                    method,
                    method_of(
                        self.l2_tx.data@,
                        signatures.signature_of(hex_text(self.l2_tx.data@.take(4))),
                    ),
                    spaces(pad as nat),
                ) && out@ == #[trigger] message_text(
                    *self,
                    spaces(pad as nat),
                    human_text(
                        self.l2_tx.from@.subrange(12, 32),
                        names.name_of(self.l2_tx.from@.subrange(12, 32)),
                    ),
                    human_text(
                        self.l2_tx.to@.subrange(12, 32),
                        names.name_of(self.l2_tx.to@.subrange(12, 32)),
                    ),
                    method,
                ),
    {
        let indent = repeat_char(' ', pad);
        let mut out = String::new();
        let mut title = decimal_u64(self.index);
        title.append(" - ");
        title.append(format_b256(&self.tx_id).as_str());
        push_line(&mut out, indent.as_str(), "Tx: ", title.as_str());
        let from = self.l2_tx.from.low_address();
        let to = self.l2_tx.to.low_address();
        let mut parties = names.address_to_human(&from);
        parties.append(" -> ");
        parties.append(names.address_to_human(&to).as_str());
        push_line(&mut out, indent.as_str(), "    ", parties.as_str());
        let ghost heading = out@;
        let method = match method_label(&self.l2_tx.data, signatures) {
            Some(label) => {
                let shown = paint_bold(label.as_str());
                let mut part = String::new();
                push_line(&mut part, indent.as_str(), "    Method           - ", shown.as_str());
                assert(part@ =~= line(spaces(pad as nat), "    Method           - "@, shown@));
                part
            },
            None => String::new(),
        };
        out.append(method.as_str());
        let value = &self.l2_tx.reserved[0];
        if !value.is_zero() {
            push_line(
                &mut out,
                indent.as_str(),
                "    Value (reserved) - ",
                wei_as_string(value).as_str(),
            );
        }
        assert(out@ =~= heading + method@ + value_line(*self, spaces(pad as nat)));
        assert(out@ == message_text(
            *self,
            spaces(pad as nat),
            human_text(
                self.l2_tx.from@.subrange(12, 32),
                names.name_of(self.l2_tx.from@.subrange(12, 32)),
            ),
            human_text(
                self.l2_tx.to@.subrange(12, 32),
                names.name_of(self.l2_tx.to@.subrange(12, 32)),
            ),
            method@,
        ));
        out
    }
}

} // verus!
