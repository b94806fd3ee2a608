//! The records a diagnostic run leaves behind, one per endpoint and chain.

use crate::amounts::{format_wei_amount, with_18_decimals};
use crate::balances::TokenBalance;
use crate::bridgehub::ChainBalances;
use crate::priority_transactions::PriorityTransaction;
use crate::sequencer::Sequencer;
use crate::statetransition::StateTransitionReport;
use crate::text::{decimal_text, format_b256, prefixed_hex, u256_decimal};
use vstd::prelude::*;
use vstd::string::StringExecFns;

verus! {

/// Whether an endpoint could be reached, and what was found there.
#[derive(Clone, Debug)]
pub struct SequencerStatus {
    pub status: String,
    pub sequencer: Option<Sequencer>,
    pub error: Option<String>,
}

impl SequencerStatus {
    /// The status of an endpoint that answered.
    pub fn ok(sequencer: Sequencer) -> (s: SequencerStatus)
        ensures
            s.status@ == "ok"@,
            s.sequencer == Some(sequencer),
            s.error is None,
    {
        SequencerStatus {
            status: String::from_str("ok"),
            sequencer: Some(sequencer),
            error: None,
        }
    }

    /// The status of an endpoint that could not be reached, with the reason.
    pub fn err(error: &str) -> (s: SequencerStatus)
        ensures
            s.status@ == "error"@,
            s.sequencer is None,
            s.error matches Some(text) && text@ == error@,
    {
        SequencerStatus {
            status: String::from_str("error"),
            sequencer: None,
            error: Some(String::from_str(error)),
        }
    }
}

/// One priority message as it appears in a report.
#[derive(Clone, Debug)]
pub struct PriorityTransactionReport {
    pub index: u64,
    pub tx_id: String,
    pub expiration_timestamp: u64,
}

/// Everything found out about one chain.
#[derive(Debug)]
pub struct ChainDiagnostics {
    pub chain_id: u64,
    pub state_transition: Option<StateTransitionReport>,
    pub state_transition_error: Option<String>,
    pub priority_tree_verified: Option<bool>,
    pub priority_tree_note: Option<String>,
    pub priority_transactions: Vec<PriorityTransactionReport>,
    pub priority_tx_error: Option<String>,
}

impl ChainDiagnostics {
    /// The record of a chain about which nothing is known yet.
    pub fn new(chain_id: u64) -> (d: ChainDiagnostics)
        ensures
            d.chain_id == chain_id,
            d.state_transition is None,
            d.state_transition_error is None,
            d.priority_tree_verified is None,
            d.priority_tree_note is None,
            d.priority_transactions@.len() == 0,
            d.priority_tx_error is None,
    {
        ChainDiagnostics {
            chain_id,
            state_transition: None,
            state_transition_error: None,
            priority_tree_verified: None,
            priority_tree_note: None,
            priority_transactions: Vec::new(),
            priority_tx_error: None,
        }
    }
}

impl PriorityTransactionReport {
    /// The report entry of a priority message, with its id in hexadecimal.
    pub fn new(tx: &PriorityTransaction) -> (entry: PriorityTransactionReport)
        ensures
            entry.index == tx.index,
            entry.tx_id@ == prefixed_hex(tx.tx_id@),
            entry.expiration_timestamp == tx.expiration_timestamp,
    {
        PriorityTransactionReport {
            index: tx.index,
            tx_id: format_b256(&tx.tx_id),
            expiration_timestamp: tx.expiration_timestamp,
        }
    }
}

/// The balance of one token as it appears in a report: the raw amount in
/// decimal, and the same amount in whole tokens of 18 decimals.
#[derive(Clone, Debug, PartialEq, Eq)]
pub struct TokenBalanceReport {
    pub token: String,
    pub raw_wei: String,
    pub formatted: String,
}

/// The balances of one chain as they appear in a report.
#[derive(Clone, Debug, PartialEq, Eq)]
pub struct ChainBalanceReport {
    pub chain_id: u64,
    pub tokens: Vec<TokenBalanceReport>,
}

impl TokenBalanceReport {
    /// The report entry of one balance.
    pub fn new(balance: &TokenBalance) -> (entry: TokenBalanceReport)
        ensures
            entry.token@ == balance.token@,
            entry.raw_wei@ == decimal_text(balance.amount.value()),
            entry.formatted@ == with_18_decimals(decimal_text(balance.amount.value())),
    {
        TokenBalanceReport {
            token: balance.token.clone(),
            raw_wei: u256_decimal(&balance.amount),
            formatted: format_wei_amount(&balance.amount),
        }
    }
}

impl ChainBalanceReport {
    /// The report of one chain's balances, entry by entry in the order of
    /// the table.
    pub fn new(balances: &ChainBalances) -> (report: ChainBalanceReport)
        ensures
            report.chain_id == balances.chain_id,
            report.tokens@.len() == balances.tokens.entries@.len(),
            forall|i: int|
                0 <= i < report.tokens@.len() ==> (#[trigger] report.tokens@[i]).token@
                    == balances.tokens.entries@[i].token@ && report.tokens@[i].raw_wei@
                    == decimal_text(balances.tokens.entries@[i].amount.value())
                    && report.tokens@[i].formatted@ == with_18_decimals(
                    decimal_text(balances.tokens.entries@[i].amount.value()),
                ),
    {
        let mut tokens: Vec<TokenBalanceReport> = Vec::new();
        let mut i: usize = 0;
        while i < balances.tokens.entries.len()
            invariant
                i <= balances.tokens.entries.len(),
                tokens@.len() == i,
                forall|k: int|
                    0 <= k < i ==> (#[trigger] tokens@[k]).token@
                        == balances.tokens.entries@[k].token@ && tokens@[k].raw_wei@
                        == decimal_text(balances.tokens.entries@[k].amount.value())
                        && tokens@[k].formatted@ == with_18_decimals(
                        decimal_text(balances.tokens.entries@[k].amount.value()),
                    ),
            decreases balances.tokens.entries.len() - i,
        {
            tokens.push(TokenBalanceReport::new(&balances.tokens.entries[i]));
            i += 1;
        }
        ChainBalanceReport { chain_id: balances.chain_id, tokens }
    }
}

} // verus!
