//! Pronounceable names for 32-byte identifiers.
//!
//! An asset id is hard to tell from another by eye, so reports show a pair
//! of words picked by the hash of the id: the same id always gets the same
//! name, and different ids rarely share one.

use crate::hashing::{keccak256, keccak256_digest};
use crate::primitives::be_value;
use crate::text::push_char;
use vstd::prelude::*;
use vstd::string::StringExecFns;

verus! {

/// The number of adjectives in the word list of the `names` crate.
pub const ADJECTIVE_COUNT: usize = 1124;

/// The number of nouns in the word list of the `names` crate.
pub const NOUN_COUNT: usize = 981;

/// The adjective at position `i` of the word list of the `names` crate.
pub uninterp spec fn adjective_text(i: int) -> Seq<char>;

/// The noun at position `i` of the word list of the `names` crate.
pub uninterp spec fn noun_text(i: int) -> Seq<char>;

/// Reads `names::ADJECTIVES` at position `i`.
///
/// Trusted: the list has `ADJECTIVE_COUNT` entries, so every such position
/// exists, and the entry at a position is always the same word.
#[verifier::external_body]
pub(crate) fn adjective(i: usize) -> (word: &'static str)
    requires
        i < ADJECTIVE_COUNT,
    ensures
        word@ == adjective_text(i as int),
{
    names::ADJECTIVES[i]
}

/// Reads `names::NOUNS` at position `i`.
///
/// Trusted: the list has `NOUN_COUNT` entries, so every such position
/// exists, and the entry at a position is always the same word.
#[verifier::external_body]
pub(crate) fn noun(i: usize) -> (word: &'static str)
    requires
        i < NOUN_COUNT,
    ensures
        word@ == noun_text(i as int),
{
    names::NOUNS[i]
}

/// The name made of the words that `position` picks: an adjective, an
/// underscore and a noun.
pub open spec fn name_at(position: nat) -> Seq<char> {
    adjective_text((position % ADJECTIVE_COUNT as nat) as int).push('_') + noun_text(
        (position % NOUN_COUNT as nat) as int,
    )
}

/// The name of `entry`: the words picked by the first eight bytes of its
/// digest, read as a big-endian number.
pub open spec fn human_name(entry: Seq<u8>) -> Seq<char> {
    name_at(be_value(keccak256_digest(entry).take(8)))
}

/// The name made of the words that `position` picks.
pub fn name_for_position(position: u64) -> (name: String)
    ensures
        name@ == name_at(position as nat),
{
    let first = adjective((position % (ADJECTIVE_COUNT as u64)) as usize);
    let second = noun((position % (NOUN_COUNT as u64)) as usize);
    let mut name = String::from_str(first);
    push_char(&mut name, '_');
    name.append(second);
    name
}

/// A pronounceable name for `entry`, the same for the same bytes.
pub fn get_human_name_for(entry: &[u8]) -> (name: String)
    ensures
        name@ == human_name(entry@),
{
    let digest = keccak256(entry);
    let mut position: u64 = 0;
    let mut i: usize = 0;
    while i < 8
        invariant
            i <= 8,
            position == be_value(digest@.take(i as int)),
        decreases 8 - i,
    {
        proof {
            assert(digest@.take(i + 1).drop_last() =~= digest@.take(i as int));
            lemma_be_value_bound(digest@.take(i as int));
            lemma_pow256_small(i as nat);
        }
        position = position * 256 + digest.bytes[i] as u64;
        i += 1;
    }
    name_for_position(position)
}

/// 256 to the power `n`.
pub open spec fn pow256(n: nat) -> nat
    decreases n,
{
    if n == 0 {
        1
    } else {
        256 * pow256((n - 1) as nat)
    }
}

/// Up to seven bytes stay below 2 to the power 56.
proof fn lemma_pow256_small(n: nat)
    requires
        n <= 7,
    ensures
        pow256(n) <= 0x1_00_0000_0000_0000,
{
    assert(pow256(0) == 1);
    assert(pow256(1) == 0x1_00);
    assert(pow256(2) == 0x1_00_00);
    assert(pow256(3) == 0x1_00_0000);
    assert(pow256(4) == 0x1_0000_0000);
    assert(pow256(5) == 0x1_00_0000_0000);
    assert(pow256(6) == 0x1_0000_0000_0000);
    assert(pow256(7) == 0x1_00_0000_0000_0000);
}

/// A big-endian number of `n` bytes is below 256 to the power `n`.
pub proof fn lemma_be_value_bound(bytes: Seq<u8>)
    ensures
        be_value(bytes) < pow256(bytes.len()),
    decreases bytes.len(),
{
    if bytes.len() > 0 {
        lemma_be_value_bound(bytes.drop_last());
    }
}

} // verus!
