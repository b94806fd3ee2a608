//! What is known about one RPC endpoint.

use crate::primitives::Address;
use crate::text::{decimal_text, decimal_u64};
use vstd::prelude::*;
use vstd::string::StringExecFns;

verus! {

/// What a rollup-layer endpoint reports about the layer below it.
#[derive(Clone, Copy, Debug, PartialEq, Eq)]
pub struct L2SequencerInfo {
    pub l1_chain_id: u64,
    pub bridgehub_address: Address,
}

/// Whether an endpoint serves the base layer or a rollup layer.
#[derive(Clone, Copy, Debug, PartialEq, Eq)]
pub enum SequencerType {
    L1,
    L2(L2SequencerInfo),
}

impl SequencerType {
    /// The layer kind that follows from probing an endpoint for its registry
    /// root: an endpoint that does not answer the probe serves the base
    /// layer, one that does serves a rollup layer.
    pub fn from_probe(probe: Option<L2SequencerInfo>) -> (kind: SequencerType)
        ensures
            kind == match probe {
                Some(info) => SequencerType::L2(info),
                None => SequencerType::L1,
            },
    {
        match probe {
            Some(info) => SequencerType::L2(info),
            None => SequencerType::L1,
        }
    }

    /// Whether this is the base layer.
    pub fn is_base_layer(&self) -> (r: bool)
        ensures
            r == (*self is L1),
    {
        match self {
            SequencerType::L1 => true,
            SequencerType::L2(_) => false,
        }
    }
}

/// One endpoint: where it is, which chain it serves and how far that chain
/// has come.
#[derive(Clone, Debug)]
pub struct Sequencer {
    pub rpc_url: String,
    pub chain_id: u64,
    pub latest_block: u64,
    pub sequencer_type: SequencerType,
}

/// The short name of a layer kind: `L1`, or `L2 -> ` and the chain id of the
/// layer below.
pub open spec fn layer_text(kind: SequencerType) -> Seq<char> {
    match kind {
        SequencerType::L1 => "L1"@,
        SequencerType::L2(info) => "L2 -> "@ + decimal_text(info.l1_chain_id as nat),
    }
}

/// The one line that describes an endpoint.
pub open spec fn sequencer_text(sequencer: Sequencer) -> Seq<char> {
    "Sequencer at "@ + sequencer.rpc_url@ + " (Chain: "@ + decimal_text(sequencer.chain_id as nat)
        + ", Last Block: "@ + decimal_text(sequencer.latest_block as nat) + "), "@ + layer_text(
        sequencer.sequencer_type,
    )
}

impl Sequencer {
    /// The one line that describes this endpoint.
    pub fn to_text(&self) -> (out: String)
        ensures
            out@ == sequencer_text(*self),
    {
        let mut out = String::from_str("Sequencer at ");
        out.append(self.rpc_url.as_str());
        out.append(" (Chain: ");
        out.append(decimal_u64(self.chain_id).as_str());
        out.append(", Last Block: ");
        out.append(decimal_u64(self.latest_block).as_str());
        out.append("), ");
        match &self.sequencer_type {
            SequencerType::L1 => {
                out.append("L1");
            },
            SequencerType::L2(info) => {
                out.append("L2 -> ");
                out.append(decimal_u64(info.l1_chain_id).as_str());
            },
        }
        assert(out@ =~= sequencer_text(*self));
        out
    }
}

/// Why no registry root could be picked from the rollup endpoints.
#[derive(Clone, Copy, Debug, PartialEq, Eq, Structural)]
pub enum DiscoveryError {
    /// The endpoint that was reached serves the base layer.
    NotARollup,
    /// Neither rollup endpoint was reached.
    NoRollupEndpoint,
}

/// The registry root that the rollup endpoints name: the one the gateway
/// names where the gateway was reached, else the one the client chain
/// names. An endpoint that was reached but serves the base layer names
/// none.
pub fn pick_bridgehub(gateway: Option<&Sequencer>, client: Option<&Sequencer>) -> (r: Result<
    Address,
    DiscoveryError,
>)
    ensures
        r == match gateway {
            Some(reached) => match reached.sequencer_type {
                SequencerType::L2(info) => Ok::<Address, DiscoveryError>(info.bridgehub_address),
                SequencerType::L1 => Err::<Address, DiscoveryError>(DiscoveryError::NotARollup),
            },
            None => match client {
                Some(reached) => match reached.sequencer_type {
                    SequencerType::L2(info) => Ok::<Address, DiscoveryError>(
                        info.bridgehub_address,
                    ),
                    SequencerType::L1 => Err::<Address, DiscoveryError>(
                        DiscoveryError::NotARollup,
                    ),
                },
                None => Err::<Address, DiscoveryError>(DiscoveryError::NoRollupEndpoint),
            },
        },
{
    let reached = match gateway {
        Some(reached) => reached,
        None => match client {
            Some(reached) => reached,
            None => {
                return Err(DiscoveryError::NoRollupEndpoint);
            },
        },
    };
    match &reached.sequencer_type {
        SequencerType::L2(info) => Ok(info.bridgehub_address),
        SequencerType::L1 => Err(DiscoveryError::NotARollup),
    }
}

/// The value of a hexadecimal digit, in either case.
pub open spec fn hex_digit(c: char) -> Option<nat> {
    if '0' <= c <= '9' {
        Some((c as nat - '0' as nat) as nat)
    } else if 'a' <= c <= 'f' {
        Some((c as nat - 'a' as nat + 10) as nat)
    } else if 'A' <= c <= 'F' {
        Some((c as nat - 'A' as nat + 10) as nat)
    } else {
        None
    }
}

/// The number that a string of hexadecimal digits stands for; `None` when a
/// character is no digit. The empty string stands for zero.
pub open spec fn hex_value(digits: Seq<char>) -> Option<nat>
    decreases digits.len(),
{
    if digits.len() == 0 {
        Some(0)
    } else {
        match (hex_value(digits.drop_last()), hex_digit(digits.last())) {
            (Some(high), Some(low)) => Some(high * 16 + low),
            _ => None,
        }
    }
}

/// `text` without any `0x` at its beginning, however often it is repeated.
pub open spec fn without_0x(text: Seq<char>) -> Seq<char>
    decreases text.len(),
{
    if text.len() >= 2 && text[0] == '0' && text[1] == 'x' {
        without_0x(text.skip(2))
    } else {
        text
    }
}

/// `text` without a plus sign at its beginning.
pub open spec fn without_plus(text: Seq<char>) -> Seq<char> {
    if text.len() > 0 && text[0] == '+' {
        text.skip(1)
    } else {
        text
    }
}

/// The chain id that an endpoint reports as text: hexadecimal digits after
/// any `0x` prefixes and an optional plus sign. There must be a digit, and
/// the number must fit in 64 bits.
pub open spec fn chain_id_in(text: Seq<char>) -> Option<u64> {
    let digits = without_plus(without_0x(text));
    if digits.len() == 0 {
        None
    } else {
        match hex_value(digits) {
            Some(n) => if n <= u64::MAX {
                Some(n as u64)
            } else {
                None
            },
            None => None,
        }
    }
}

/// Reading more digits never gives a smaller number, and one bad digit
/// spoils the whole.
proof fn lemma_hex_value_grows(digits: Seq<char>, i: int)
    requires
        0 <= i <= digits.len(),
    ensures
        hex_value(digits.take(i)) is None ==> hex_value(digits) is None,
        hex_value(digits) matches Some(all) ==> hex_value(digits.take(i)) matches Some(part)
            && part <= all,
    decreases digits.len() - i,
{
    if i < digits.len() {
        lemma_hex_value_grows(digits, i + 1);
        assert(digits.take(i + 1).drop_last() =~= digits.take(i));
    } else {
        assert(digits.take(i) =~= digits);
    }
}

/// The value of one hexadecimal digit.
fn digit_value(c: char) -> (r: Option<u64>)
    ensures
        match r {
            Some(d) => hex_digit(c) == Some(d as nat) && d < 16,
            None => hex_digit(c) is None,
        },
{
    let code: u32 = c as u32;
    if code >= 0x30 && code <= 0x39 {
        Some((code - 0x30) as u64)
    } else if code >= 0x61 && code <= 0x66 {
        Some((code - 0x61 + 10) as u64)
    } else if code >= 0x41 && code <= 0x46 {
        Some((code - 0x41 + 10) as u64)
    } else {
        None
    }
}

/// Reads the chain id that an endpoint reports as text.
pub fn parse_chain_id(text: &str) -> (r: Option<u64>)
    ensures
        r == chain_id_in(text@),
{
    let n: usize = text.unicode_len();
    let mut start: usize = 0;
    assert(text@.skip(0) =~= text@);
    while n - start >= 2 && text.get_char(start) == '0' && text.get_char(start + 1) == 'x'
        invariant
            start <= n,
            n == text@.len(),
            without_0x(text@) == without_0x(text@.skip(start as int)),
        decreases n - start,
    {
        proof {
            assert(text@.skip(start as int).skip(2) =~= text@.skip(start + 2));
        }
        start += 2;
    }
    assert(without_0x(text@) == text@.skip(start as int));
    if start < n && text.get_char(start) == '+' {
        proof {
            assert(text@.skip(start as int).skip(1) =~= text@.skip(start + 1));
        }
        start += 1;
    }
    let ghost digits = text@.skip(start as int);
    assert(digits == without_plus(without_0x(text@)));
    if start == n {
        return None;
    }
    let mut acc: u64 = 0;
    let mut i: usize = start;
    while i < n
        invariant
            start <= i <= n,
            start < n,
            n == text@.len(),
            digits == text@.skip(start as int),
            digits == without_plus(without_0x(text@)),
            hex_value(digits.take(i - start)) == Some(acc as nat),
        decreases n - i,
    {
        proof {
            assert(digits.take(i - start + 1).drop_last() =~= digits.take(i - start));
            assert(digits.take(i - start + 1).last() == text@[i as int]);
            lemma_hex_value_grows(digits, i - start + 1);
        }
        let d = match digit_value(text.get_char(i)) {
            Some(d) => d,
            None => {
                return None;
            },
        };
        if acc > (u64::MAX - d) / 16 {
            return None;
        }
        acc = acc * 16 + d;
        i += 1;
    }
    assert(digits.take(n - start) =~= digits);
    Some(acc)
}

} // verus!
