//! What is exchanged with a remote endpoint: the logs it returns, the ways
//! in which it fails, and sets of ids read from it.

use crate::primitives::{Address, B256, U256};
use vstd::prelude::*;

verus! {

/// One log entry, as an endpoint returns it.
#[derive(Clone, Debug, PartialEq, Eq)]
pub struct Log {
    pub address: Address,
    pub topics: Vec<B256>,
    pub data: Vec<u8>,
}

/// The events this crate asks endpoints for.
#[derive(Clone, Copy, Debug, PartialEq, Eq, Structural)]
pub enum EventKind {
    /// A chain was created; emitted by the registry root.
    NewChain,
    /// A chain manager was added; emitted by the registry root.
    ChainTypeManagerAdded,
    /// An asset handler was registered; emitted by the asset router.
    AssetHandlerRegisteredInitial,
    /// A priority message was queued; emitted by a state-transition contract.
    NewPriorityRequest,
    /// A chain finished its migration; emitted by a chain manager.
    MigrationFinalized,
    /// A chain was created; emitted by a chain manager.
    NewHyperchain,
}

/// A decoded event whose fields do not have the expected shape.
#[derive(Clone, Copy, Debug, PartialEq, Eq, Structural)]
pub enum MalformedEvent {
    /// A number that should fit in 64 bits does not.
    NumberOutOfRange,
    /// A topic that should hold an address has non-zero padding.
    AddressPadding,
    /// The log has fewer topics than the event declares.
    MissingTopic,
}

/// A remote call that failed or timed out.
#[derive(Clone, Debug, PartialEq, Eq)]
pub struct TransportError {
    pub message: String,
}

/// Why a snapshot could not be built.
#[derive(Clone, Debug, PartialEq, Eq)]
pub enum ResolveError {
    /// A required read failed.
    Transport(TransportError),
    /// A log did not decode into its expected shape.
    Malformed(MalformedEvent),
    /// There is no contract at the address of the registry root.
    EmptyCode,
    /// The reply handed in does not answer the read that was asked for.
    UnexpectedReply,
}

/// `items` with every value kept once, at its first position.
pub open spec fn first_occurrences<T>(items: Seq<T>) -> Seq<T>
    decreases items.len(),
{
    if items.len() == 0 {
        Seq::empty()
    } else {
        let rest = first_occurrences(items.drop_last());
        if rest.contains(items.last()) {
            rest
        } else {
            rest.push(items.last())
        }
    }
}

/// `first_occurrences` holds no value twice and holds exactly the values of
/// its argument.
pub proof fn lemma_first_occurrences<T>(items: Seq<T>)
    ensures
        first_occurrences(items).no_duplicates(),
        forall|x: T| first_occurrences(items).contains(x) <==> items.contains(x),
        first_occurrences(items).len() <= items.len(),
    decreases items.len(),
{
    if items.len() > 0 {
        let rest = first_occurrences(items.drop_last());
        lemma_first_occurrences(items.drop_last());
        let out = first_occurrences(items);
        assert forall|x: T| out.contains(x) <==> items.contains(x) by {
            if items.contains(x) {
                let i = choose|i: int| 0 <= i < items.len() && items[i] == x;
                if i < items.len() - 1 {
                    assert(items.drop_last()[i] == x);
                    assert(items.drop_last().contains(x));
                    assert(rest.contains(x));
                    let j = choose|j: int| 0 <= j < rest.len() && rest[j] == x;
                    assert(out[j] == x);
                } else if !rest.contains(x) {
                    assert(out[out.len() - 1] == x);
                }
            }
            if out.contains(x) {
                let j = choose|j: int| 0 <= j < out.len() && out[j] == x;
                if j < rest.len() {
                    assert(rest[j] == x);
                    assert(rest.contains(x));
                    assert(items.drop_last().contains(x));
                    let i = choose|i: int|
                        0 <= i < items.drop_last().len() && items.drop_last()[i] == x;
                    assert(items[i] == x);
                } else {
                    assert(items[items.len() - 1] == x);
                }
            }
        }
    }
}

/// The numbers in `ids`, each once and in the order of its first
/// occurrence.
pub fn distinct_numbers(ids: &Vec<u64>) -> (out: Vec<u64>)
    ensures
        out@ == first_occurrences(ids@),
{
    let mut out: Vec<u64> = Vec::new();
    let mut i: usize = 0;
    while i < ids.len()
        invariant
            i <= ids.len(),
            out@ == first_occurrences(ids@.take(i as int)),
        decreases ids.len() - i,
    {
        proof {
            assert(ids@.take(i + 1).drop_last() =~= ids@.take(i as int));
        }
        let mut found = false;
        let mut k: usize = 0;
        while k < out.len()
            invariant
                k <= out.len(),
                i < ids.len(),
                found == exists|j: int| 0 <= j < k && out@[j] == ids@[i as int],
            decreases out.len() - k,
        {
            if out[k] == ids[i] {
                found = true;
            }
            k += 1;
        }
        if !found {
            out.push(ids[i]);
        }
        i += 1;
    }
    assert(ids@.take(ids.len() as int) =~= ids@);
    out
}

/// The addresses in `items`, each once and in the order of its first
/// occurrence.
pub fn distinct_addresses(items: &Vec<Address>) -> (out: Vec<Address>)
    ensures
        out@ == first_occurrences(items@),
{
    let mut out: Vec<Address> = Vec::new();
    let mut i: usize = 0;
    while i < items.len()
        invariant
            i <= items.len(),
            out@ == first_occurrences(items@.take(i as int)),
        decreases items.len() - i,
    {
        proof {
            assert(items@.take(i + 1).drop_last() =~= items@.take(i as int));
        }
        let mut found = false;
        let mut k: usize = 0;
        while k < out.len()
            invariant
                k <= out.len(),
                i < items.len(),
                found == exists|j: int| 0 <= j < k && out@[j] == items@[i as int],
            decreases out.len() - k,
        {
            if out[k].same(&items[i]) {
                found = true;
            }
            k += 1;
        }
        if !found {
            out.push(items[i]);
        }
        i += 1;
    }
    assert(items@.take(items.len() as int) =~= items@);
    out
}

/// The numbers that `values` stand for, if every one of them fits in 64
/// bits.
pub open spec fn as_numbers(values: Seq<U256>) -> Option<Seq<u64>>
    decreases values.len(),
{
    if values.len() == 0 {
        Some(Seq::empty())
    } else {
        match as_numbers(values.drop_last()) {
            Some(rest) => if values.last().value() <= u64::MAX {
                Some(rest.push(values.last().value() as u64))
            } else {
                None
            },
            None => None,
        }
    }
}

/// Reads a list of 256-bit values as 64-bit numbers. A value that does not
/// fit makes the whole list malformed.
pub fn to_numbers(values: &Vec<U256>) -> (r: Result<Vec<u64>, MalformedEvent>)
    ensures
        match r {
            Ok(numbers) => as_numbers(values@) == Some(numbers@),
            Err(e) => as_numbers(values@) is None && e == MalformedEvent::NumberOutOfRange,
        },
{
    let mut out: Vec<u64> = Vec::new();
    let mut i: usize = 0;
    while i < values.len()
        invariant
            i <= values.len(),
            as_numbers(values@.take(i as int)) == Some(out@),
        decreases values.len() - i,
    {
        proof {
            assert(values@.take(i + 1).drop_last() =~= values@.take(i as int));
        }
        match values[i].to_u64() {
            Some(n) => {
                out.push(n);
            },
            None => {
                proof {
                    lemma_as_numbers_fails(values@, i + 1);
                }
                return Err(MalformedEvent::NumberOutOfRange);
            },
        }
        i += 1;
    }
    assert(values@.take(values.len() as int) =~= values@);
    Ok(out)
}

/// A list whose beginning holds a value that does not fit has none as a
/// whole.
proof fn lemma_as_numbers_fails(values: Seq<U256>, upto: int)
    requires
        0 <= upto <= values.len(),
        as_numbers(values.take(upto)) is None,
    ensures
        as_numbers(values) is None,
    decreases values.len() - upto,
{
    if upto < values.len() {
        assert(values.take(upto + 1).drop_last() =~= values.take(upto));
        lemma_as_numbers_fails(values, upto + 1);
    } else {
        assert(values.take(upto) =~= values);
    }
}

/// The second topic of every log, which for the events of this crate is the
/// first indexed argument. `None` when a log has no second topic.
pub open spec fn first_arguments(logs: Seq<Log>) -> Option<Seq<B256>>
    decreases logs.len(),
{
    if logs.len() == 0 {
        Some(Seq::empty())
    } else {
        match first_arguments(logs.drop_last()) {
            Some(rest) => if logs.last().topics@.len() >= 2 {
                Some(rest.push(logs.last().topics@[1]))
            } else {
                None
            },
            None => None,
        }
    }
}

/// A list of logs whose beginning holds a log without a second topic has
/// no first arguments as a whole.
proof fn lemma_first_arguments_fails(logs: Seq<Log>, upto: int)
    requires
        0 <= upto <= logs.len(),
        first_arguments(logs.take(upto)) is None,
    ensures
        first_arguments(logs) is None,
    decreases logs.len() - upto,
{
    if upto < logs.len() {
        assert(logs.take(upto + 1).drop_last() =~= logs.take(upto));
        lemma_first_arguments_fails(logs, upto + 1);
    } else {
        assert(logs.take(upto) =~= logs);
    }
}

/// Collects the first indexed argument of every log.
pub fn indexed_arguments(logs: &Vec<Log>) -> (r: Result<Vec<B256>, MalformedEvent>)
    ensures
        match r {
            Ok(words) => first_arguments(logs@) == Some(words@),
            Err(e) => first_arguments(logs@) is None && e == MalformedEvent::MissingTopic,
        },
{
    let mut out: Vec<B256> = Vec::new();
    let mut i: usize = 0;
    while i < logs.len()
        invariant
            i <= logs.len(),
            first_arguments(logs@.take(i as int)) == Some(out@),
        decreases logs.len() - i,
    {
        proof {
            assert(logs@.take(i + 1).drop_last() =~= logs@.take(i as int));
        }
        if logs[i].topics.len() < 2 {
            proof {
                lemma_first_arguments_fails(logs@, i + 1);
            }
            return Err(MalformedEvent::MissingTopic);
        }
        out.push(logs[i].topics[1]);
        i += 1;
    }
    assert(logs@.take(logs.len() as int) =~= logs@);
    Ok(out)
}

} // verus!
