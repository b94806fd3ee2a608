//! The registry root of one layer and how its snapshot is put together.
//!
//! A snapshot is built from a series of reads, each of which depends on
//! what the reads before it returned. `BridgehubResolver` holds what is
//! known so far and says which read comes next; the caller performs the
//! read and hands back what it returned.

use crate::addresses::{address_checksum, checksum_text};
use crate::balances::{
    balance_table, table_of, token_names, vault_backed_ids, vault_count, vault_ids, vault_names,
    BalanceTable,
};
use crate::l1_asset_router::{describes_router, L1AssetRouter};
use crate::l2_asset_router::{l2_router_text, L2AssetRouter};
use crate::primitives::{padded_address, zero_bytes, Address, B256, U256};
use crate::remote::{
    as_numbers, distinct_addresses, distinct_numbers, first_arguments, first_occurrences,
    indexed_arguments, lemma_first_occurrences, to_numbers, EventKind, Log, MalformedEvent,
    ResolveError, TransportError,
};
use crate::sequencer::SequencerType;
use crate::stm::{describes_manager, ChainTypeManager};
use crate::text::{
    decimal_text, decimal_u64, is_bold, joined, line, paint_bold, push_line, repeat_char, spaces,
};
use crate::utils::{get_human_name_for, human_name};
use vstd::prelude::*;
use vstd::string::StringExecFns;

verus! {

/// One chain as the registry root knows it. The chain id is meant to be
/// unique across layers. The entry may be passive, when the chain has moved
/// to another settlement layer.
#[derive(Clone, Copy, Debug, PartialEq, Eq)]
pub struct BridgehubChainDetails {
    pub stm_address: Address,
    pub st_address: Address,
    pub base_token_address: Address,
    pub validator_timelock_address: Address,
    pub stm_asset_id: B256,
}

/// The asset router of a layer: in full on the base layer, by address only
/// on a rollup layer.
#[derive(Clone, Debug)]
pub enum AssetRouter {
    L1(L1AssetRouter),
    L2(L2AssetRouter),
}

/// The registry root of one layer, as read at one point in time. Other
/// entities are referred to by address.
#[derive(Clone, Debug)]
pub struct Bridgehub {
    pub address: Address,
    pub shared_bridge: Address,
    /// The ids of the known chains, each once.
    pub known_chains: Vec<u64>,
    /// The chain managers; `None` on a rollup layer, where they are not
    /// enumerated.
    pub ctms: Option<Vec<ChainTypeManager>>,
    pub ctm_deployer: Address,
    pub asset_router: AssetRouter,
}

/// Why balances could not be given.
#[derive(Clone, Copy, Debug, PartialEq, Eq, Structural)]
pub enum BalanceError {
    /// Balances are read from the base layer's vault only.
    NotImplemented,
    /// The amounts handed in are not one for each vault-backed asset.
    AmountCount,
}

/// A read the resolver asks for.
#[derive(Clone, Debug, PartialEq, Eq)]
pub enum Request {
    /// The code stored at `address`.
    Code { address: Address },
    /// The shared asset router of registry root `hub`.
    SharedBridge { hub: Address },
    /// The deployer of chain managers of registry root `hub`.
    CtmDeployer { hub: Address },
    /// The ids of all chains of registry root `hub`, by direct enumeration.
    AllChainIds { hub: Address },
    /// All logs of `event` emitted by `address`, over the full history.
    Scan { address: Address, event: EventKind },
    /// All "migration finalized" and "chain created" logs emitted by each of
    /// `managers`, over the full history.
    ScanManagers { managers: Vec<Address> },
    /// The details of each of `managers`, in any order of reading, answered
    /// in the order asked.
    ResolveManagers { managers: Vec<Address> },
    /// The base-layer asset router at `address`, in full.
    ResolveL1Router { address: Address },
}

/// What a read returned.
#[derive(Clone, Debug)]
pub enum Response {
    Code { length: usize },
    Address(Address),
    ChainIds(Vec<U256>),
    Logs(Vec<Log>),
    Managers(Vec<ChainTypeManager>),
    L1Router(L1AssetRouter),
    Failed(TransportError),
}

/// The read that is outstanding.
#[derive(Clone, Copy, Debug, PartialEq, Eq, Structural)]
pub enum Stage {
    Code,
    SharedBridge,
    CtmDeployer,
    ChainIds,
    ChainEvents,
    ManagerEvents,
    Managers,
    Router,
}

/// What is known of a registry root while its snapshot is being built.
#[derive(Clone, Debug)]
pub struct BridgehubResolver {
    pub layer: SequencerType,
    pub address: Address,
    /// Chain managers known beforehand, whose events tell the chain ids of
    /// a rollup layer that cannot enumerate them.
    pub known_managers: Vec<Address>,
    pub stage: Stage,
    pub shared_bridge: Address,
    pub ctm_deployer: Address,
    pub known_chains: Vec<u64>,
    pub ctms: Option<Vec<ChainTypeManager>>,
}

/// How one step of the resolver ends.
#[derive(Clone, Debug)]
pub enum Outcome {
    /// Another read is needed.
    Ask(BridgehubResolver, Request),
    /// The snapshot is complete.
    Done(Bridgehub),
    /// The resolve is abandoned.
    Failed(ResolveError),
}

/// The 256-bit numbers that a list of words holds.
pub open spec fn as_values(words: Seq<B256>) -> Seq<U256> {
    Seq::new(words.len(), |i: int| U256 { bytes: words[i].bytes })
}

/// The chain ids named by the first indexed argument of every log, each
/// once. The logs are malformed when one lacks the argument, or else when an
/// id does not fit in 64 bits.
pub open spec fn chain_ids_in(logs: Seq<Log>) -> Result<Seq<u64>, MalformedEvent> {
    match first_arguments(logs) {
        Some(words) => match as_numbers(as_values(words)) {
            Some(ids) => Ok(first_occurrences(ids)),
            None => Err(MalformedEvent::NumberOutOfRange),
        },
        None => Err(MalformedEvent::MissingTopic),
    }
}

/// The chain ids named in `logs`.
pub fn chain_ids_from_logs(logs: &Vec<Log>) -> (r: Result<Vec<u64>, MalformedEvent>)
    ensures
        match r {
            Ok(ids) => chain_ids_in(logs@) == Ok::<Seq<u64>, MalformedEvent>(ids@),
            Err(e) => chain_ids_in(logs@) == Err::<Seq<u64>, MalformedEvent>(e),
        },
{
    let words = match indexed_arguments(logs) {
        Ok(words) => words,
        Err(e) => {
            return Err(e);
        },
    };
    let mut values: Vec<U256> = Vec::new();
    let mut i: usize = 0;
    while i < words.len()
        invariant
            i <= words.len(),
            values@ == as_values(words@.take(i as int)),
        decreases words.len() - i,
    {
        values.push(U256 { bytes: words[i].bytes });
        assert(values@ =~= as_values(words@.take(i + 1)));
        i += 1;
    }
    assert(words@.take(words.len() as int) =~= words@);
    match to_numbers(&values) {
        Ok(ids) => Ok(distinct_numbers(&ids)),
        Err(e) => Err(e),
    }
}

/// The addresses that a list of words holds; `None` when one of the words
/// is not an address padded with zeros.
pub open spec fn addresses_in(words: Seq<B256>) -> Option<Seq<Address>>
    decreases words.len(),
{
    if words.len() == 0 {
        Some(Seq::empty())
    } else {
        match addresses_in(words.drop_last()) {
            Some(rest) => if words.last()@.subrange(0, 12) == zero_bytes(12) {
                Some(rest.push(padded_address(words.last())))
            } else {
                None
            },
            None => None,
        }
    }
}

/// A list of words whose beginning holds one that is no padded address has
/// no addresses as a whole.
proof fn lemma_addresses_fail(words: Seq<B256>, upto: int)
    requires
        0 <= upto <= words.len(),
        addresses_in(words.take(upto)) is None,
    ensures
        addresses_in(words) is None,
    decreases words.len() - upto,
{
    if upto < words.len() {
        assert(words.take(upto + 1).drop_last() =~= words.take(upto));
        lemma_addresses_fail(words, upto + 1);
    } else {
        assert(words.take(upto) =~= words);
    }
}

/// The manager addresses named by the first indexed argument of every log,
/// each once. The logs are malformed when one lacks the argument, or else
/// when an argument is not an address padded with zeros.
pub open spec fn managers_in(logs: Seq<Log>) -> Result<Seq<Address>, MalformedEvent> {
    match first_arguments(logs) {
        Some(words) => match addresses_in(words) {
            Some(all) => Ok(first_occurrences(all)),
            None => Err(MalformedEvent::AddressPadding),
        },
        None => Err(MalformedEvent::MissingTopic),
    }
}

/// The manager addresses named in `logs`.
pub fn managers_from_logs(logs: &Vec<Log>) -> (r: Result<Vec<Address>, MalformedEvent>)
    ensures
        match r {
            Ok(managers) => managers_in(logs@) == Ok::<Seq<Address>, MalformedEvent>(managers@),
            Err(e) => managers_in(logs@) == Err::<Seq<Address>, MalformedEvent>(e),
        },
{
    let words = match indexed_arguments(logs) {
        Ok(words) => words,
        Err(e) => {
            return Err(e);
        },
    };
    let mut all: Vec<Address> = Vec::new();
    let mut i: usize = 0;
    while i < words.len()
        invariant
            i <= words.len(),
            first_arguments(logs@) == Some(words@),
            addresses_in(words@.take(i as int)) == Some(all@),
        decreases words.len() - i,
    {
        proof {
            assert(words@.take(i + 1).drop_last() =~= words@.take(i as int));
        }
        match words[i].to_address() {
            Some(a) => {
                all.push(a);
            },
            None => {
                proof {
                    lemma_addresses_fail(words@, i + 1);
                }
                return Err(MalformedEvent::AddressPadding);
            },
        }
        i += 1;
    }
    assert(words@.take(words.len() as int) =~= words@);
    Ok(distinct_addresses(&all))
}

/// Whether `next` is `before` moved on to `stage`, with nothing else
/// changed.
pub open spec fn moved_to(before: BridgehubResolver, next: BridgehubResolver, stage: Stage) -> bool {
    &&& next.stage == stage
    &&& next.layer == before.layer
    &&& next.address == before.address
    &&& next.known_managers == before.known_managers
    &&& next.shared_bridge == before.shared_bridge
    &&& next.ctm_deployer == before.ctm_deployer
    &&& next.known_chains == before.known_chains
    &&& next.ctms == before.ctms
}

/// What follows once the chain ids are known to be `ids`. On the base layer
/// the chain managers are looked for next, by their "manager added" events.
/// On a rollup layer the managers are not enumerated and the asset router
/// is known by address only, so the snapshot is complete.
pub open spec fn follows_chain_ids(before: BridgehubResolver, ids: Seq<u64>, out: Outcome) -> bool {
    match before.layer {
        SequencerType::L1 => out matches Outcome::Ask(next, request) && request == (Request::Scan {
            address: before.address,
            event: EventKind::ChainTypeManagerAdded,
        }) && next.stage == Stage::ManagerEvents && next.known_chains@ == ids && next.layer
            == before.layer && next.address == before.address && next.known_managers
            == before.known_managers && next.shared_bridge == before.shared_bridge
            && next.ctm_deployer == before.ctm_deployer && next.ctms == before.ctms,
        SequencerType::L2(_) => out matches Outcome::Done(hub) && hub.address == before.address
            && hub.shared_bridge == before.shared_bridge && hub.known_chains@ == ids && hub.ctms
            is None && hub.ctm_deployer == before.ctm_deployer && (hub.asset_router
            matches AssetRouter::L2(router) && router.address == before.shared_bridge),
    }
}

/// The step of the resolver: what `out` must be when `response` answers the
/// read that `before` is waiting for.
///
/// A failed read ends the resolve, with one exception: where the registry
/// root cannot enumerate its chains, the chain ids are rebuilt from events,
/// of the registry root on the base layer and of the known chain managers on
/// a rollup layer. A reply of the wrong kind ends the resolve as well.
pub open spec fn follows(before: BridgehubResolver, response: Response, out: Outcome) -> bool {
    match response {
        Response::Failed(e) => if before.stage == Stage::ChainIds {
            match before.layer {
                SequencerType::L1 => out matches Outcome::Ask(next, request) && request == (
                Request::Scan { address: before.address, event: EventKind::NewChain })
                    && moved_to(before, next, Stage::ChainEvents),
                SequencerType::L2(_) => out matches Outcome::Ask(next, request) && (request
                    matches Request::ScanManagers { managers } && managers@
                    == before.known_managers@) && moved_to(before, next, Stage::ChainEvents),
            }
        } else {
            out matches Outcome::Failed(error) && error == ResolveError::Transport(e)
        },
        Response::Code { length } => if before.stage != Stage::Code {
            out matches Outcome::Failed(error) && error == ResolveError::UnexpectedReply
        } else if length == 0 {
            out matches Outcome::Failed(error) && error == ResolveError::EmptyCode
        } else {
            out matches Outcome::Ask(next, request) && request == (Request::SharedBridge {
                hub: before.address,
            }) && moved_to(before, next, Stage::SharedBridge)
        },
        Response::Address(a) => if before.stage == Stage::SharedBridge {
            out matches Outcome::Ask(next, request) && request == (Request::CtmDeployer {
                hub: before.address,
            }) && next.shared_bridge == a && moved_to(
                BridgehubResolver { shared_bridge: a, ..before },
                next,
                Stage::CtmDeployer,
            )
        } else if before.stage == Stage::CtmDeployer {
            out matches Outcome::Ask(next, request) && request == (Request::AllChainIds {
                hub: before.address,
            }) && next.ctm_deployer == a && moved_to(
                BridgehubResolver { ctm_deployer: a, ..before },
                next,
                Stage::ChainIds,
            )
        } else {
            out matches Outcome::Failed(error) && error == ResolveError::UnexpectedReply
        },
        Response::ChainIds(values) => if before.stage != Stage::ChainIds {
            out matches Outcome::Failed(error) && error == ResolveError::UnexpectedReply
        } else {
            match as_numbers(values@) {
                Some(ids) => follows_chain_ids(before, first_occurrences(ids), out),
                None => out matches Outcome::Failed(error) && error == ResolveError::Malformed(
                    MalformedEvent::NumberOutOfRange,
                ),
            }
        },
        Response::Logs(logs) => if before.stage == Stage::ChainEvents {
            match chain_ids_in(logs@) {
                Ok(ids) => follows_chain_ids(before, ids, out),
                Err(e) => out matches Outcome::Failed(error) && error == ResolveError::Malformed(
                    e,
                ),
            }
        } else if before.stage == Stage::ManagerEvents {
            match managers_in(logs@) {
                Ok(found) => out matches Outcome::Ask(next, request) && (request
                    matches Request::ResolveManagers { managers } && managers@ == found)
                    && moved_to(before, next, Stage::Managers),
                Err(e) => out matches Outcome::Failed(error) && error == ResolveError::Malformed(
                    e,
                ),
            }
        } else {
            out matches Outcome::Failed(error) && error == ResolveError::UnexpectedReply
        },
        Response::Managers(managers) => if before.stage == Stage::Managers {
            out matches Outcome::Ask(next, request) && request == (Request::ResolveL1Router {
                address: before.shared_bridge,
            }) && next.ctms == Some(managers) && moved_to(
                BridgehubResolver { ctms: Some(managers), ..before },
                next,
                Stage::Router,
            )
        } else {
            out matches Outcome::Failed(error) && error == ResolveError::UnexpectedReply
        },
        Response::L1Router(router) => if before.stage == Stage::Router {
            out matches Outcome::Done(hub) && hub.address == before.address && hub.shared_bridge
                == before.shared_bridge && hub.known_chains == before.known_chains && hub.ctms
                == before.ctms && hub.ctm_deployer == before.ctm_deployer && hub.asset_router
                == AssetRouter::L1(router)
        } else {
            out matches Outcome::Failed(error) && error == ResolveError::UnexpectedReply
        },
    }
}

/// Whether what `out` holds is well formed: no chain id twice.
pub open spec fn outcome_wf(out: Outcome) -> bool {
    match out {
        Outcome::Ask(next, _) => next.wf(),
        Outcome::Done(hub) => hub.known_chains@.no_duplicates(),
        Outcome::Failed(_) => true,
    }
}

impl Bridgehub {
    /// No chain id is held twice, and neither is an asset id.
    pub open spec fn wf(&self) -> bool {
        &&& self.known_chains@.no_duplicates()
        &&& self.asset_router matches AssetRouter::L1(router) ==> router.wf()
    }
}

impl BridgehubResolver {
    /// No chain id is held twice.
    pub open spec fn wf(&self) -> bool {
        self.known_chains@.no_duplicates()
    }

    /// Begins the resolve of the registry root at `address` on a layer of
    /// kind `layer`. The first read asks whether there is a contract at all.
    pub fn start(layer: SequencerType, address: Address, known_managers: Vec<Address>) -> (r: (
        BridgehubResolver,
        Request,
    ))
        ensures
            r.1 == (Request::Code { address }),
            r.0.stage == Stage::Code,
            r.0.layer == layer,
            r.0.address == address,
            r.0.known_managers == known_managers,
            r.0.known_chains@.len() == 0,
            r.0.ctms is None,
            r.0.wf(),
    {
        (
            BridgehubResolver {
                layer,
                address,
                known_managers,
                stage: Stage::Code,
                shared_bridge: Address::zero(),
                ctm_deployer: Address::zero(),
                known_chains: Vec::new(),
                ctms: None,
            },
            Request::Code { address },
        )
    }

    /// Goes on once the chain ids are known.
    fn with_chain_ids(self, ids: Vec<u64>) -> (out: Outcome)
        ensures
            follows_chain_ids(self, ids@, out),
    {
        match self.layer {
            SequencerType::L1 => {
                let request = Request::Scan {
                    address: self.address,
                    event: EventKind::ChainTypeManagerAdded,
                };
                Outcome::Ask(
                    BridgehubResolver {
                        layer: self.layer,
                        address: self.address,
                        known_managers: self.known_managers,
                        stage: Stage::ManagerEvents,
                        shared_bridge: self.shared_bridge,
                        ctm_deployer: self.ctm_deployer,
                        known_chains: ids,
                        ctms: self.ctms,
                    },
                    request,
                )
            },
            SequencerType::L2(_) => Outcome::Done(
                Bridgehub {
                    address: self.address,
                    shared_bridge: self.shared_bridge,
                    known_chains: ids,
                    ctms: None,
                    ctm_deployer: self.ctm_deployer,
                    asset_router: AssetRouter::L2(L2AssetRouter::new(self.shared_bridge)),
                },
            ),
        }
    }

    /// The same state, waiting for another read.
    fn at(self, stage: Stage) -> (next: BridgehubResolver)
        ensures
            moved_to(self, next, stage),
    {
        BridgehubResolver {
            layer: self.layer,
            address: self.address,
            known_managers: self.known_managers,
            stage,
            shared_bridge: self.shared_bridge,
            ctm_deployer: self.ctm_deployer,
            known_chains: self.known_chains,
            ctms: self.ctms,
        }
    }

    /// Takes the answer to the outstanding read and says what comes next:
    /// another read, the finished snapshot, or the end of the resolve.
    pub fn step(self, response: Response) -> (out: Outcome)
        ensures
            follows(self, response, out),
            self.wf() ==> outcome_wf(out),
    {
        proof {
            if response is ChainIds {
                let ids = as_numbers(response->ChainIds_0@);
                if ids is Some {
                    lemma_first_occurrences(ids->Some_0);
                }
            }
            if response is Logs {
                let words = first_arguments(response->Logs_0@);
                if words is Some {
                    let ids = as_numbers(as_values(words->Some_0));
                    if ids is Some {
                        lemma_first_occurrences(ids->Some_0);
                    }
                }
            }
        }
        match response {
            Response::Failed(e) => {
                match self.stage {
                    Stage::ChainIds => match self.layer {
                        SequencerType::L1 => {
                            let request = Request::Scan {
                                address: self.address,
                                event: EventKind::NewChain,
                            };
                            Outcome::Ask(self.at(Stage::ChainEvents), request)
                        },
                        SequencerType::L2(_) => {
                            let request = Request::ScanManagers {
                                managers: self.known_managers.clone(),
                            };
                            Outcome::Ask(self.at(Stage::ChainEvents), request)
                        },
                    },
                    _ => Outcome::Failed(ResolveError::Transport(e)),
                }
            },
            Response::Code { length } => {
                match self.stage {
                    Stage::Code => {
                        if length == 0 {
                            Outcome::Failed(ResolveError::EmptyCode)
                        } else {
                            let request = Request::SharedBridge { hub: self.address };
                            Outcome::Ask(self.at(Stage::SharedBridge), request)
                        }
                    },
                    _ => Outcome::Failed(ResolveError::UnexpectedReply),
                }
            },
            Response::Address(a) => {
                match self.stage {
                    Stage::SharedBridge => {
                        let request = Request::CtmDeployer { hub: self.address };
                        let mut next = self.at(Stage::CtmDeployer);
                        next.shared_bridge = a;
                        Outcome::Ask(next, request)
                    },
                    Stage::CtmDeployer => {
                        let request = Request::AllChainIds { hub: self.address };
                        let mut next = self.at(Stage::ChainIds);
                        next.ctm_deployer = a;
                        Outcome::Ask(next, request)
                    },
                    _ => Outcome::Failed(ResolveError::UnexpectedReply),
                }
            },
            Response::ChainIds(values) => {
                match self.stage {
                    Stage::ChainIds => match to_numbers(&values) {
                        Ok(ids) => self.with_chain_ids(distinct_numbers(&ids)),
                        Err(e) => Outcome::Failed(ResolveError::Malformed(e)),
                    },
                    _ => Outcome::Failed(ResolveError::UnexpectedReply),
                }
            },
            Response::Logs(logs) => {
                match self.stage {
                    Stage::ChainEvents => match chain_ids_from_logs(&logs) {
                        Ok(ids) => self.with_chain_ids(ids),
                        Err(e) => Outcome::Failed(ResolveError::Malformed(e)),
                    },
                    Stage::ManagerEvents => match managers_from_logs(&logs) {
                        Ok(managers) => {
                            let request = Request::ResolveManagers { managers };
                            Outcome::Ask(self.at(Stage::Managers), request)
                        },
                        Err(e) => Outcome::Failed(ResolveError::Malformed(e)),
                    },
                    _ => Outcome::Failed(ResolveError::UnexpectedReply),
                }
            },
            Response::Managers(managers) => {
                match self.stage {
                    Stage::Managers => {
                        let request = Request::ResolveL1Router { address: self.shared_bridge };
                        let mut next = self.at(Stage::Router);
                        next.ctms = Some(managers);
                        Outcome::Ask(next, request)
                    },
                    _ => Outcome::Failed(ResolveError::UnexpectedReply),
                }
            },
            Response::L1Router(router) => {
                match self.stage {
                    Stage::Router => Outcome::Done(
                        Bridgehub {
                            address: self.address,
                            shared_bridge: self.shared_bridge,
                            known_chains: self.known_chains,
                            ctms: self.ctms,
                            ctm_deployer: self.ctm_deployer,
                            asset_router: AssetRouter::L1(router),
                        },
                    ),
                    _ => Outcome::Failed(ResolveError::UnexpectedReply),
                }
            },
        }
    }
}

/// The balances of one chain.
#[derive(Clone, Debug, PartialEq, Eq)]
pub struct ChainBalances {
    pub chain_id: u64,
    pub tokens: BalanceTable,
}

impl Bridgehub {
    /// The details of one chain from what was read about it. The base token
    /// may be unset after a migration: where its read failed, the zero
    /// address stands in and the details are still given.
    pub fn get_chain_details(
        stm_address: Address,
        base_token: Option<Address>,
        st_address: Address,
        validator_timelock_address: Address,
        stm_asset_id: B256,
    ) -> (details: BridgehubChainDetails)
        ensures
            details.stm_address == stm_address,
            details.st_address == st_address,
            details.validator_timelock_address == validator_timelock_address,
            details.stm_asset_id == stm_asset_id,
            match base_token {
                Some(token) => details.base_token_address == token,
                None => details.base_token_address@ == zero_bytes(20),
            },
    {
        let base_token_address = match base_token {
            Some(token) => token,
            None => Address::zero(),
        };
        BridgehubChainDetails {
            stm_address,
            st_address,
            base_token_address,
            validator_timelock_address,
            stm_asset_id,
        }
    }

    /// Whether `chain_id` is among the known chains.
    pub fn knows_chain(&self, chain_id: u64) -> (r: bool)
        ensures
            r == self.known_chains@.contains(chain_id),
    {
        let mut i: usize = 0;
        while i < self.known_chains.len()
            invariant
                i <= self.known_chains.len(),
                forall|k: int| 0 <= k < i ==> self.known_chains@[k] != chain_id,
            decreases self.known_chains.len() - i,
        {
            if self.known_chains[i] == chain_id {
                return true;
            }
            i += 1;
        }
        false
    }

    /// The assets whose balance is to be read for a chain: the vault-backed
    /// ones, in the order of their registration. A rollup layer has no
    /// vault to ask.
    pub fn balance_queries(&self) -> (r: Result<Vec<B256>, BalanceError>)
        ensures
            match self.asset_router {
                AssetRouter::L1(router) => r matches Ok(ids) && ids@ == vault_ids(
                    router.registered_assets@,
                ),
                AssetRouter::L2(_) => r == Err::<Vec<B256>, BalanceError>(
                    BalanceError::NotImplemented,
                ),
            },
    {
        match &self.asset_router {
            AssetRouter::L1(router) => Ok(vault_backed_ids(&router.registered_assets)),
            AssetRouter::L2(_) => Err(BalanceError::NotImplemented),
        }
    }

    /// The balance table of one chain, from the amounts read for the assets
    /// that `balance_queries` names, in that order. Only vault-backed assets
    /// appear in the table.
    pub fn get_chain_balances(&self, amounts: &Vec<U256>) -> (r: Result<
        BalanceTable,
        BalanceError,
    >)
        ensures
            match self.asset_router {
                AssetRouter::L1(router) => if amounts@.len() == vault_count(
                    router.registered_assets@,
                ) {
                    r matches Ok(table) && table.wf() && table@ == table_of(
                        router.registered_assets@,
                        amounts@,
                    ) && token_names(table.entries@) == first_occurrences(
                        vault_names(router.registered_assets@),
                    )
                } else {
                    r == Err::<BalanceTable, BalanceError>(BalanceError::AmountCount)
                },
                AssetRouter::L2(_) => r == Err::<BalanceTable, BalanceError>(
                    BalanceError::NotImplemented,
                ),
            },
    {
        match &self.asset_router {
            AssetRouter::L1(router) => {
                let ids = vault_backed_ids(&router.registered_assets);
                if ids.len() != amounts.len() {
                    Err(BalanceError::AmountCount)
                } else {
                    Ok(balance_table(&router.registered_assets, amounts))
                }
            },
            AssetRouter::L2(_) => Err(BalanceError::NotImplemented),
        }
    }

    /// The balance tables of all known chains, from the amounts read for
    /// each: one list of amounts per known chain, in the order of
    /// `known_chains`. Each chain's table is built on its own.
    pub fn get_all_chains_balances(&self, amounts: &Vec<Vec<U256>>) -> (r: Result<
        Vec<ChainBalances>,
        BalanceError,
    >)
        ensures
            match r {
                Ok(all) => amounts@.len() == self.known_chains@.len() && all@.len()
                    == self.known_chains@.len() && (all@.len() > 0 ==> self.asset_router is L1)
                    && (self.asset_router matches AssetRouter::L1(router) ==> forall|i: int|
                    0 <= i < all@.len() ==> (#[trigger] all@[i]).chain_id == self.known_chains@[i]
                        && all@[i].tokens@ == table_of(router.registered_assets@, amounts@[i]@)
                        && token_names(all@[i].tokens.entries@) == first_occurrences(
                        vault_names(router.registered_assets@),
                    ) && amounts@[i]@.len() == vault_count(router.registered_assets@)),
                Err(BalanceError::NotImplemented) => self.asset_router is L2 && amounts@.len()
                    == self.known_chains@.len() && amounts@.len() > 0,
                Err(BalanceError::AmountCount) => amounts@.len() != self.known_chains@.len() || (
                self.asset_router matches AssetRouter::L1(router) && exists|i: int|
                    0 <= i < amounts@.len() && (#[trigger] amounts@[i])@.len() != vault_count(
                        router.registered_assets@,
                    )),
            },
    {
        if amounts.len() != self.known_chains.len() {
            return Err(BalanceError::AmountCount);
        }
        let mut all: Vec<ChainBalances> = Vec::new();
        let mut i: usize = 0;
        while i < self.known_chains.len()
            invariant
                i <= self.known_chains.len(),
                amounts@.len() == self.known_chains@.len(),
                all@.len() == i,
                i > 0 ==> self.asset_router is L1,
                self.asset_router matches AssetRouter::L1(router) ==> forall|k: int|
                    0 <= k < i ==> (#[trigger] all@[k]).chain_id == self.known_chains@[k]
                        && all@[k].tokens@ == table_of(router.registered_assets@, amounts@[k]@)
                        && token_names(all@[k].tokens.entries@) == first_occurrences(
                        vault_names(router.registered_assets@),
                    ) && amounts@[k]@.len() == vault_count(router.registered_assets@),
            decreases self.known_chains.len() - i,
        {
            match self.get_chain_balances(&amounts[i]) {
                Ok(tokens) => {
                    all.push(ChainBalances { chain_id: self.known_chains[i], tokens });
                },
                Err(e) => {
                    return Err(e);
                },
            }
            i += 1;
        }
        Ok(all)
    }
}

/// The lines that describe one chain, with `shown_name` in place of the
/// name of its manager.
pub open spec fn chain_details_text(details: BridgehubChainDetails, shown_name: Seq<char>) -> Seq<
    char,
> {
    line(Seq::empty(), "    CTM:      "@, shown_name) + line(
        Seq::empty(),
        "    CTM:                "@,
        checksum_text(details.stm_address@),
    ) + line(Seq::empty(), "    ST:                 "@, checksum_text(details.st_address@)) + line(
        Seq::empty(),
        "    Base Token:         "@,
        checksum_text(details.base_token_address@),
    ) + line(
        Seq::empty(),
        "    Validator timelock: "@,
        checksum_text(details.validator_timelock_address@),
    )
}

impl BridgehubChainDetails {
    /// Whether the base token is missing: the zero address stands where it
    /// could not be read.
    pub fn base_token_unset(&self) -> (r: bool)
        ensures
            r == (self.base_token_address@ == zero_bytes(20)),
    {
        self.base_token_address.is_zero()
    }

    /// The lines that describe this chain, with `shown_name` in place of the
    /// name of its manager.
    pub fn layout(&self, shown_name: &str) -> (out: String)
        ensures
            out@ == chain_details_text(*self, shown_name@),
    {
        let none = String::new();
        let mut out = String::new();
        push_line(&mut out, none.as_str(), "    CTM:      ", shown_name);
        push_line(
            &mut out,
            none.as_str(),
            "    CTM:                ",
            address_checksum(&self.stm_address).as_str(),
        );
        push_line(
            &mut out,
            none.as_str(),
            "    ST:                 ",
            address_checksum(&self.st_address).as_str(),
        );
        push_line(
            &mut out,
            none.as_str(),
            "    Base Token:         ",
            address_checksum(&self.base_token_address).as_str(),
        );
        push_line(
            &mut out,
            none.as_str(),
            "    Validator timelock: ",
            address_checksum(&self.validator_timelock_address).as_str(),
        );
        assert(out@ =~= chain_details_text(*self, shown_name@));
        out
    }

    /// The lines that describe this chain. The manager is named after its
    /// asset id, in bold where the terminal takes it.
    pub fn to_text(&self) -> (out: String)
        ensures
            exists|shown_name: Seq<char>|
                is_bold(shown_name, human_name(self.stm_asset_id@)) && out@
                    == #[trigger] chain_details_text(*self, shown_name),
    {
        let name = get_human_name_for(self.stm_asset_id.bytes.as_slice());
        let shown = paint_bold(name.as_str());
        let out = self.layout(shown.as_str());
        assert(out@ == chain_details_text(*self, shown@));
        out
    }
}

/// The line that names the base layer, begun by `pad`, and then `body`.
pub open spec fn l1_router_section(pad: Seq<char>, body: Seq<char>) -> Seq<char> {
    line(pad, "L1 asset router"@, Seq::empty()) + body
}

/// The lines that describe a registry root, given the lines that list its
/// managers and those that describe its asset router.
pub open spec fn bridgehub_text(hub: Bridgehub, managers: Seq<char>, router: Seq<char>) -> Seq<
    char,
> {
    bridgehub_heading(hub) + managers + line(Seq::empty(), "   === Asset router"@, Seq::empty())
        + router
}

/// Whether `out` describes `router`, indented by `pad` spaces: a line that
/// names the layer, then the router itself, indented by three more.
pub open spec fn describes_asset_router(out: Seq<char>, router: AssetRouter, pad: nat) -> bool {
    match router {
        AssetRouter::L1(inner) => exists|body: Seq<char>|
            describes_router(body, inner, pad + 3) && out == #[trigger] l1_router_section(
                spaces(pad),
                body,
            ),
        AssetRouter::L2(inner) => out == line(spaces(pad), "L2 asset router"@, Seq::empty())
            + l2_router_text(inner, spaces(pad + 3)),
    }
}

impl AssetRouter {
    /// The lines that describe this router, each indented by `pad` spaces
    /// or more.
    pub fn detailed_fmt(&self, pad: usize) -> (out: String)
        requires
            pad + 6 <= usize::MAX,
        ensures
            describes_asset_router(out@, *self, pad as nat),
    {
        let indent = repeat_char(' ', pad);
        let none = String::new();
        let mut out = String::new();
        match self {
            AssetRouter::L1(router) => {
                push_line(&mut out, indent.as_str(), "L1 asset router", none.as_str());
                let body = router.detailed_fmt(pad + 3);
                out.append(body.as_str());
                assert(out@ == l1_router_section(spaces(pad as nat), body@));
            },
            AssetRouter::L2(router) => {
                push_line(&mut out, indent.as_str(), "L2 asset router", none.as_str());
                let body = router.detailed_fmt(pad + 3);
                out.append(body.as_str());
            },
        }
        out
    }
}

/// The first lines that describe a registry root.
pub open spec fn bridgehub_heading(hub: Bridgehub) -> Seq<char> {
    line(Seq::empty(), "   Bridgehub at          "@, checksum_text(hub.address@)) + line(
        Seq::empty(),
        "   Shared bridge:        "@,
        checksum_text(hub.shared_bridge@),
    ) + line(Seq::empty(), "   CTM deployer (on L1): "@, checksum_text(hub.ctm_deployer@))
}

/// Whether `out` lists `managers`: their number, then each of them in
/// order, indented by three spaces.
pub open spec fn lists_managers(out: Seq<char>, managers: Seq<crate::stm::ChainTypeManager>) -> bool {
    exists|parts: Seq<Seq<char>>|
        parts.len() == managers.len() && (forall|i: int|
            0 <= i < parts.len() ==> describes_manager(#[trigger] parts[i], managers[i], 3)) && out
            == line(Seq::empty(), "   CTMS: "@, decimal_text(managers.len())) + #[trigger] joined(
            parts,
        )
}

/// Whether `out` describes `hub`: the heading, the chain managers where
/// they are known, and the asset router.
pub open spec fn describes_bridgehub(out: Seq<char>, hub: Bridgehub) -> bool {
    exists|managers: Seq<char>, router: Seq<char>|
        (match hub.ctms {
            Some(list) => lists_managers(managers, list@),
            None => managers == Seq::<char>::empty(),
        }) && describes_asset_router(router, hub.asset_router, 3) && out
            == #[trigger] bridgehub_text(hub, managers, router)
}

impl Bridgehub {
    /// The lines that list the chain managers.
    fn managers_text(managers: &Vec<ChainTypeManager>) -> (out: String)
        ensures
            lists_managers(out@, managers@),
    {
        let none = String::new();
        let mut out = String::new();
        push_line(&mut out, none.as_str(), "   CTMS: ", decimal_u64(managers.len() as u64).as_str());
        let ghost heading = out@;
        let ghost mut parts: Seq<Seq<char>> = Seq::empty();
        let mut i: usize = 0;
        while i < managers.len()
            invariant
                i <= managers.len(),
                parts.len() == i,
                heading == line(Seq::empty(), "   CTMS: "@, decimal_text(managers@.len())),
                forall|k: int|
                    0 <= k < parts.len() ==> describes_manager(#[trigger] parts[k], managers@[k], 3),
                out@ == heading + joined(parts),
            decreases managers.len() - i,
        {
            let part = managers[i].detailed_fmt(3);
            let ghost before = parts;
            proof {
                parts = before.push(part@);
                assert(parts.drop_last() =~= before);
            }
            out.append(part.as_str());
            assert(out@ =~= heading + joined(parts));
            i += 1;
        }
        assert(out@ == heading + joined(parts));
        out
    }

    /// The lines that describe this registry root, its chain managers and
    /// its asset router.
    pub fn to_text(&self) -> (out: String)
        ensures
            describes_bridgehub(out@, *self),
    {
        let none = String::new();
        let mut out = String::new();
        push_line(
            &mut out,
            none.as_str(),
            "   Bridgehub at          ",
            address_checksum(&self.address).as_str(),
        );
        push_line(
            &mut out,
            none.as_str(),
            "   Shared bridge:        ",
            address_checksum(&self.shared_bridge).as_str(),
        );
        push_line(
            &mut out,
            none.as_str(),
            "   CTM deployer (on L1): ",
            address_checksum(&self.ctm_deployer).as_str(),
        );
        assert(out@ =~= bridgehub_heading(*self));
        let managers = match &self.ctms {
            Some(list) => Bridgehub::managers_text(list),
            None => String::new(),
        };
        out.append(managers.as_str());
        push_line(&mut out, none.as_str(), "   === Asset router", none.as_str());
        let router = self.asset_router.detailed_fmt(3);
        out.append(router.as_str());
        assert(out@ =~= bridgehub_text(*self, managers@, router@));
        out
    }
}

} // verus!
