//! Verified core of a diagnostic tool for multi-chain rollup registries.
//!
//! The crate holds the decisions of the tool as functions on plain values:
//! which block windows an event scan asks for, how registered assets are
//! classified, which balances are reported, and how the Merkle commitment of a
//! priority queue is rebuilt and compared with the root a chain reports.
//! Talking to a remote endpoint is left to the caller.

pub mod addresses;
pub mod amounts;
pub mod balances;
pub mod bridgehub;
pub mod hashing;
pub mod l1_asset_router;
pub mod l2_asset_router;
pub mod primitives;
pub mod priority_transactions;
pub mod remote;
pub mod report;
pub mod scanner;
pub mod sequencer;
pub mod statetransition;
pub mod stm;
pub mod text;
pub mod utils;
