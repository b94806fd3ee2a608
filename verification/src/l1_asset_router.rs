//! The asset router of the base layer and the assets registered with it.
//!
//! Every registered asset is handled by one of three parties, told apart by
//! the address that tracks its deployment: the native token vault, the
//! registry root, or something this crate does not know.

use crate::addresses::{address_checksum, checksum_text, system_address, system_address_bytes};
use crate::primitives::{padded_address, zero_bytes, Address, B256};
use crate::remote::{
    first_occurrences, EventKind, Log, MalformedEvent, ResolveError, TransportError,
};
use crate::text::{
    format_b256, is_bold, joined, line, paint_bold, prefixed_hex, push_char, push_line,
    repeat_char, spaces,
};
use crate::utils::{get_human_name_for, human_name};
use vstd::prelude::*;
use vstd::string::StringExecFns;

verus! {

/// A token held by the native token vault.
#[derive(Clone, Debug, PartialEq, Eq)]
pub struct NativeTokenVaultAsset {
    pub address: Address,
    pub token_name: String,
}

/// Who handles a registered asset.
#[derive(Clone, Debug, PartialEq, Eq)]
pub enum AssetHandler {
    /// The registry root: the asset stands for a chain manager.
    Bridgehub,
    /// The native token vault: the asset is a token.
    NativeTokenVault(NativeTokenVaultAsset),
    /// Neither; the deployment tracker is kept.
    Other(Address),
}

/// The three kinds of handler, without their details.
#[derive(Clone, Copy, Debug, PartialEq, Eq, Structural)]
pub enum HandlerKind {
    NativeTokenVault,
    Bridgehub,
    Other,
}

/// An asset registered with the asset router.
#[derive(Clone, Debug, PartialEq, Eq)]
pub struct RegisteredAsset {
    pub asset_id: B256,
    pub handler: AssetHandler,
}

/// What is still to be read before a registered asset is known in full.
#[derive(Clone, Debug, PartialEq, Eq)]
pub enum AssetResolution {
    /// The vault must be asked for the token address of the asset.
    AskTokenAddress { asset_id: B256 },
    /// The token must be asked for its name.
    AskTokenName { asset_id: B256, token_address: Address },
    /// Nothing: the asset is known.
    Done(RegisteredAsset),
}

/// The kind of handler that follows from the deployment tracker of an asset:
/// vault-backed when the tracker is the vault, registry-backed when it is the
/// registry root, unknown otherwise. The vault is tested first.
pub open spec fn handler_kind(
    deployment_tracker: Seq<u8>,
    native_token_vault: Seq<u8>,
    bridgehub: Seq<u8>,
) -> HandlerKind {
    if deployment_tracker == native_token_vault {
        HandlerKind::NativeTokenVault
    } else if deployment_tracker == bridgehub {
        HandlerKind::Bridgehub
    } else {
        HandlerKind::Other
    }
}

/// Classifies a registered asset by its deployment tracker.
pub fn classify_handler(
    deployment_tracker: &Address,
    native_token_vault: &Address,
    bridgehub: &Address,
) -> (kind: HandlerKind)
    ensures
        kind == handler_kind(deployment_tracker@, native_token_vault@, bridgehub@),
{
    if deployment_tracker.same(native_token_vault) {
        HandlerKind::NativeTokenVault
    } else if deployment_tracker.same(bridgehub) {
        HandlerKind::Bridgehub
    } else {
        HandlerKind::Other
    }
}

/// The classification of an asset depends on nothing but the three
/// addresses: equal trackers, vaults and registry roots give equal kinds.
pub proof fn lemma_classification_is_a_function(
    tracker_a: Address,
    vault_a: Address,
    hub_a: Address,
    tracker_b: Address,
    vault_b: Address,
    hub_b: Address,
)
    requires
        tracker_a@ == tracker_b@,
        vault_a@ == vault_b@,
        hub_a@ == hub_b@,
    ensures
        handler_kind(tracker_a@, vault_a@, hub_a@) == handler_kind(tracker_b@, vault_b@, hub_b@),
{
}

/// Where the resolution of a registered asset begins: a vault-backed asset
/// needs its token looked up, the other two kinds are known at once.
pub open spec fn first_step(
    asset_id: B256,
    deployment_tracker: Address,
    native_token_vault: Seq<u8>,
    bridgehub: Seq<u8>,
) -> AssetResolution {
    match handler_kind(deployment_tracker@, native_token_vault, bridgehub) {
        HandlerKind::NativeTokenVault => AssetResolution::AskTokenAddress { asset_id },
        HandlerKind::Bridgehub => AssetResolution::Done(
            RegisteredAsset { asset_id, handler: AssetHandler::Bridgehub },
        ),
        HandlerKind::Other => AssetResolution::Done(
            RegisteredAsset { asset_id, handler: AssetHandler::Other(deployment_tracker) },
        ),
    }
}

/// The address that stands for the native currency in the vault.
pub open spec fn eth_token_bytes() -> Seq<u8> {
    system_address_bytes(0, 0, 1)
}

/// The name under which an asset appears in reports.
pub open spec fn asset_name(asset: RegisteredAsset) -> Seq<char> {
    match asset.handler {
        AssetHandler::NativeTokenVault(token) => token.token_name@.push('-') + human_name(
            asset.asset_id@,
        ),
        _ => human_name(asset.asset_id@),
    }
}

/// The one-line description of a handler.
pub open spec fn handler_text(handler: AssetHandler) -> Seq<char> {
    match handler {
        AssetHandler::Bridgehub => "Bridgehub (STM)"@,
        AssetHandler::NativeTokenVault(token) => "Token "@ + token.token_name@.push(' ')
            + checksum_text(token.address@),
        AssetHandler::Other(address) => "Uknown "@ + checksum_text(address@),
    }
}

impl AssetHandler {
    /// The kind of this handler.
    pub open spec fn kind(&self) -> HandlerKind {
        match self {
            AssetHandler::Bridgehub => HandlerKind::Bridgehub,
            AssetHandler::NativeTokenVault(_) => HandlerKind::NativeTokenVault,
            AssetHandler::Other(_) => HandlerKind::Other,
        }
    }

    /// Whether the asset is a token held by the native token vault.
    pub fn is_vault_backed(&self) -> (r: bool)
        ensures
            r == (*self is NativeTokenVault),
    {
        match self {
            AssetHandler::NativeTokenVault(_) => true,
            _ => false,
        }
    }

    /// A one-line description of the handler.
    pub fn short_fmt(&self) -> (s: String)
        ensures
            s@ == handler_text(*self),
    {
        match self {
            AssetHandler::Bridgehub => String::from_str("Bridgehub (STM)"),
            AssetHandler::NativeTokenVault(token) => {
                let mut s = String::from_str("Token ");
                s.append(token.token_name.as_str());
                push_char(&mut s, ' ');
                let address = address_checksum(&token.address);
                s.append(address.as_str());
                assert(s@ =~= handler_text(*self));
                s
            },
            AssetHandler::Other(tracker) => {
                let mut s = String::from_str("Uknown ");
                let address = address_checksum(tracker);
                s.append(address.as_str());
                s
            },
        }
    }
}

impl RegisteredAsset {
    /// Begins the resolution of a registered asset from its registration.
    /// A vault-backed asset needs its token looked up; the other two kinds
    /// are known at once.
    pub fn new(
        asset_id: B256,
        deployment_tracker: Address,
        native_token_vault: &Address,
        bridgehub: &Address,
    ) -> (step: AssetResolution)
        ensures
            step == first_step(asset_id, deployment_tracker, native_token_vault@, bridgehub@),
    {
        match classify_handler(&deployment_tracker, native_token_vault, bridgehub) {
            HandlerKind::NativeTokenVault => AssetResolution::AskTokenAddress { asset_id },
            HandlerKind::Bridgehub => AssetResolution::Done(
                RegisteredAsset { asset_id, handler: AssetHandler::Bridgehub },
            ),
            HandlerKind::Other => AssetResolution::Done(
                RegisteredAsset { asset_id, handler: AssetHandler::Other(deployment_tracker) },
            ),
        }
    }

    /// Continues the resolution of a vault-backed asset once the vault has
    /// named its token. The native currency is called `ETH` without asking;
    /// any other token is asked for its name.
    pub fn with_token_address(asset_id: B256, token_address: Address) -> (step: AssetResolution)
        ensures
            token_address@ == eth_token_bytes() ==> (step matches AssetResolution::Done(asset)
                && asset.asset_id == asset_id && (asset.handler
                matches AssetHandler::NativeTokenVault(token) && token.address == token_address
                && token.token_name@ == "ETH"@)),
            token_address@ != eth_token_bytes() ==> step == (AssetResolution::AskTokenName {
                asset_id,
                token_address,
            }),
    {
        let eth = system_address(0, 0, 1);
        if token_address.same(&eth) {
            AssetResolution::Done(
                RegisteredAsset {
                    asset_id,
                    handler: AssetHandler::NativeTokenVault(
                        NativeTokenVaultAsset {
                            address: token_address,
                            token_name: String::from_str("ETH"),
                        },
                    ),
                },
            )
        } else {
            AssetResolution::AskTokenName { asset_id, token_address }
        }
    }

    /// Ends the resolution of a vault-backed asset with the name its token
    /// gave.
    pub fn with_token_name(asset_id: B256, token_address: Address, token_name: String) -> (asset:
        RegisteredAsset)
        ensures
            asset == (RegisteredAsset {
                asset_id,
                handler: AssetHandler::NativeTokenVault(
                    NativeTokenVaultAsset { address: token_address, token_name },
                ),
            }),
    {
        RegisteredAsset {
            asset_id,
            handler: AssetHandler::NativeTokenVault(
                NativeTokenVaultAsset { address: token_address, token_name },
            ),
        }
    }

    /// The name under which the asset appears in reports: the pronounceable
    /// name of its id, after the token name and a hyphen for a token.
    pub fn name(&self) -> (s: String)
        ensures
            s@ == asset_name(*self),
    {
        let words = get_human_name_for(self.asset_id.bytes.as_slice());
        match &self.handler {
            AssetHandler::NativeTokenVault(token) => {
                let mut s = token.token_name.clone();
                push_char(&mut s, '-');
                s.append(words.as_str());
                s
            },
            _ => words,
        }
    }

    /// A copy of this asset.
    pub fn duplicate(&self) -> (copy: RegisteredAsset)
        ensures
            copy == *self,
    {
        let handler = match &self.handler {
            AssetHandler::Bridgehub => AssetHandler::Bridgehub,
            AssetHandler::NativeTokenVault(token) => AssetHandler::NativeTokenVault(
                NativeTokenVaultAsset {
                    address: token.address,
                    token_name: token.token_name.clone(),
                },
            ),
            AssetHandler::Other(tracker) => AssetHandler::Other(*tracker),
        };
        RegisteredAsset { asset_id: self.asset_id, handler }
    }
}

/// The asset id and the deployment tracker named by the topics of an
/// "asset handler registered" event: the second and the third topic. The
/// event is malformed when a topic is missing, or else when the tracker is
/// not an address padded with zeros.
pub open spec fn registration_in(topics: Seq<B256>) -> Result<(B256, Address), MalformedEvent> {
    if topics.len() < 3 {
        Err(MalformedEvent::MissingTopic)
    } else if topics[2]@.subrange(0, 12) != zero_bytes(12) {
        Err(MalformedEvent::AddressPadding)
    } else {
        Ok((topics[1], padded_address(topics[2])))
    }
}

/// Reads the asset id and the deployment tracker out of the topics of an
/// "asset handler registered" event.
pub fn asset_registration(topics: &Vec<B256>) -> (r: Result<(B256, Address), MalformedEvent>)
    ensures
        r == registration_in(topics@),
{
    if topics.len() < 3 {
        return Err(MalformedEvent::MissingTopic);
    }
    match topics[2].to_address() {
        Some(tracker) => Ok((topics[1], tracker)),
        None => Err(MalformedEvent::AddressPadding),
    }
}

/// Where the resolution of the asset registered by `log` begins.
pub open spec fn resolution_in(log: Log, native_token_vault: Seq<u8>, bridgehub: Seq<u8>) -> Result<
    AssetResolution,
    MalformedEvent,
> {
    match registration_in(log.topics@) {
        Ok((asset_id, tracker)) => Ok(first_step(asset_id, tracker, native_token_vault, bridgehub)),
        Err(e) => Err(e),
    }
}

/// Begins the resolution of every asset registered in `logs`, in order.
/// The resolutions are independent of each other and may be carried on in
/// any order. The first malformed log ends the whole scan.
pub fn plan_assets(logs: &Vec<Log>, native_token_vault: &Address, bridgehub: &Address) -> (r: Result<
    Vec<AssetResolution>,
    MalformedEvent,
>)
    ensures
        match r {
            Ok(steps) => steps@.len() == logs@.len() && forall|i: int|
                0 <= i < logs@.len() ==> resolution_in(
                    #[trigger] logs@[i],
                    native_token_vault@,
                    bridgehub@,
                ) == Ok::<AssetResolution, MalformedEvent>(steps@[i]),
            Err(e) => exists|i: int|
                0 <= i < logs@.len() && resolution_in(
                    #[trigger] logs@[i],
                    native_token_vault@,
                    bridgehub@,
                ) == Err::<AssetResolution, MalformedEvent>(e) && forall|k: int|
                    0 <= k < i ==> resolution_in(
                        #[trigger] logs@[k],
                        native_token_vault@,
                        bridgehub@,
                    ) is Ok,
        },
{
    let mut steps: Vec<AssetResolution> = Vec::new();
    let mut i: usize = 0;
    while i < logs.len()
        invariant
            i <= logs.len(),
            steps@.len() == i,
            forall|k: int|
                0 <= k < i ==> resolution_in(
                    #[trigger] logs@[k],
                    native_token_vault@,
                    bridgehub@,
                ) == Ok::<AssetResolution, MalformedEvent>(steps@[k]),
        decreases logs.len() - i,
    {
        match asset_registration(&logs[i].topics) {
            Ok((asset_id, tracker)) => {
                steps.push(RegisteredAsset::new(asset_id, tracker, native_token_vault, bridgehub));
            },
            Err(e) => {
                assert(resolution_in(logs@[i as int], native_token_vault@, bridgehub@) == Err::<
                    AssetResolution,
                    MalformedEvent,
                >(e));
                return Err(e);
            },
        }
        i += 1;
    }
    Ok(steps)
}

/// The last asset in `assets` registered under `id`, if there is one.
pub open spec fn last_with_id(assets: Seq<RegisteredAsset>, id: Seq<u8>) -> Option<
    RegisteredAsset,
>
    decreases assets.len(),
{
    if assets.len() == 0 {
        None
    } else if assets.last().asset_id@ == id {
        Some(assets.last())
    } else {
        last_with_id(assets.drop_last(), id)
    }
}

/// The ids of `assets`, in order.
pub open spec fn asset_ids(assets: Seq<RegisteredAsset>) -> Seq<Seq<u8>> {
    Seq::new(assets.len(), |i: int| assets[i].asset_id@)
}

/// No asset id occurs twice in `assets`.
pub open spec fn distinct_ids(assets: Seq<RegisteredAsset>) -> bool {
    forall|i: int, j: int|
        0 <= i < assets.len() && 0 <= j < assets.len() && assets[i].asset_id@
            == assets[j].asset_id@ ==> i == j
}

/// Replacing an asset by one of the same id changes what is found under
/// that id and nothing else.
proof fn lemma_replace_keeps_others(
    assets: Seq<RegisteredAsset>,
    at: int,
    asset: RegisteredAsset,
    id: Seq<u8>,
)
    requires
        distinct_ids(assets),
        0 <= at < assets.len(),
        assets[at].asset_id@ == asset.asset_id@,
    ensures
        last_with_id(assets.update(at, asset), id) == if id == asset.asset_id@ {
            Some(asset)
        } else {
            last_with_id(assets, id)
        },
        distinct_ids(assets.update(at, asset)),
    decreases assets.len(),
{
    let changed = assets.update(at, asset);
    assert forall|i: int, j: int|
        0 <= i < changed.len() && 0 <= j < changed.len() && changed[i].asset_id@
            == changed[j].asset_id@ implies i == j by {
        assert(changed[i].asset_id@ == assets[i].asset_id@);
        assert(changed[j].asset_id@ == assets[j].asset_id@);
    }
    if at == assets.len() - 1 {
        assert(changed.drop_last() =~= assets.drop_last());
    } else {
        let rest = assets.drop_last();
        assert forall|i: int, j: int|
            0 <= i < rest.len() && 0 <= j < rest.len() && rest[i].asset_id@
                == rest[j].asset_id@ implies i == j by {
            assert(rest[i] == assets[i] && rest[j] == assets[j]);
        }
        assert(rest[at] == assets[at]);
        lemma_replace_keeps_others(rest, at, asset, id);
        assert(changed.drop_last() =~= rest.update(at, asset));
        assert(changed.last() == assets.last());
        assert(assets[assets.len() - 1].asset_id@ != assets[at].asset_id@);
    }
}

/// An id that no asset carries is not found.
proof fn lemma_absent_id(assets: Seq<RegisteredAsset>, id: Seq<u8>)
    requires
        forall|i: int| 0 <= i < assets.len() ==> (#[trigger] assets[i]).asset_id@ != id,
    ensures
        last_with_id(assets, id) is None,
    decreases assets.len(),
{
    if assets.len() > 0 {
        let rest = assets.drop_last();
        assert forall|i: int| 0 <= i < rest.len() implies (#[trigger] rest[i]).asset_id@ != id by {
            assert(rest[i] == assets[i]);
        }
        lemma_absent_id(rest, id);
        assert(assets[assets.len() - 1].asset_id@ != id);
    }
}

/// The asset router of the base layer, also known as the shared bridge.
#[derive(Clone, Debug)]
pub struct L1AssetRouter {
    pub address: Address,
    pub native_token_vault: Address,
    /// The registered assets, each id once, in the order in which the ids
    /// were first registered.
    pub registered_assets: Vec<RegisteredAsset>,
}

impl L1AssetRouter {
    /// No asset id is held twice.
    pub open spec fn wf(&self) -> bool {
        distinct_ids(self.registered_assets@)
    }

    /// The asset registered under `id`, if there is one.
    pub open spec fn asset(&self, id: Seq<u8>) -> Option<RegisteredAsset> {
        last_with_id(self.registered_assets@, id)
    }

    /// The position of the asset registered under `id`.
    pub fn position(&self, id: &B256) -> (r: Option<usize>)
        ensures
            match r {
                Some(at) => at < self.registered_assets@.len()
                    && self.registered_assets@[at as int].asset_id@ == id@,
                None => forall|i: int|
                    0 <= i < self.registered_assets@.len() ==> (
                    #[trigger] self.registered_assets@[i]).asset_id@ != id@,
            },
    {
        let mut i: usize = 0;
        while i < self.registered_assets.len()
            invariant
                i <= self.registered_assets.len(),
                forall|k: int|
                    0 <= k < i ==> (#[trigger] self.registered_assets@[k]).asset_id@ != id@,
            decreases self.registered_assets.len() - i,
        {
            if self.registered_assets[i].asset_id.same(id) {
                return Some(i);
            }
            i += 1;
        }
        None
    }

    /// Records `asset`, replacing an earlier asset of the same id.
    pub fn register(&mut self, asset: RegisteredAsset)
        requires
            old(self).wf(),
        ensures
            final(self).wf(),
            final(self).address == old(self).address,
            final(self).native_token_vault == old(self).native_token_vault,
            final(self).asset(asset.asset_id@) == Some(asset),
            forall|id: Seq<u8>|
                id != asset.asset_id@ ==> final(self).asset(id) == old(self).asset(id),
            asset_ids(final(self).registered_assets@) == if asset_ids(
                old(self).registered_assets@,
            ).contains(asset.asset_id@) {
                asset_ids(old(self).registered_assets@)
            } else {
                asset_ids(old(self).registered_assets@).push(asset.asset_id@)
            },
    {
        let ghost before = self.registered_assets@;
        match self.position(&asset.asset_id) {
            Some(at) => {
                proof {
                    assert(asset_ids(before)[at as int] == asset.asset_id@);
                    assert(asset_ids(before.update(at as int, asset)) =~= asset_ids(before));
                    assert forall|id: Seq<u8>|
                        last_with_id(before.update(at as int, asset), id) == if id
                            == asset.asset_id@ {
                            Some(asset)
                        } else {
                            last_with_id(before, id)
                        } by {
                        lemma_replace_keeps_others(before, at as int, asset, id);
                    }
                    lemma_replace_keeps_others(before, at as int, asset, asset.asset_id@);
                }
                self.registered_assets.set(at, asset);
            },
            None => {
                self.registered_assets.push(asset);
                proof {
                    assert(self.registered_assets@.drop_last() =~= before);
                    assert(asset_ids(self.registered_assets@) =~= asset_ids(before).push(
                        asset.asset_id@,
                    ));
                    assert forall|k: int| 0 <= k < asset_ids(before).len() implies asset_ids(
                        before,
                    )[k] != asset.asset_id@ by {
                        assert(before[k].asset_id@ != asset.asset_id@);
                    }
                }
            },
        }
    }

    /// The router at `address` with the assets that were registered with it.
    /// Where an id was registered more than once, the last registration is
    /// kept, at the place of the first.
    pub fn new(address: Address, native_token_vault: Address, assets: &Vec<RegisteredAsset>) -> (router:
        L1AssetRouter)
        ensures
            router.wf(),
            router.address == address,
            router.native_token_vault == native_token_vault,
            forall|id: Seq<u8>| router.asset(id) == last_with_id(assets@, id),
            asset_ids(router.registered_assets@) == first_occurrences(asset_ids(assets@)),
    {
        let mut router = L1AssetRouter {
            address,
            native_token_vault,
            registered_assets: Vec::new(),
        };
        let mut i: usize = 0;
        while i < assets.len()
            invariant
                i <= assets.len(),
                router.wf(),
                router.address == address,
                router.native_token_vault == native_token_vault,
                forall|id: Seq<u8>|
                    router.asset(id) == last_with_id(assets@.take(i as int), id),
                asset_ids(router.registered_assets@) == first_occurrences(
                    asset_ids(assets@.take(i as int)),
                ),
            decreases assets.len() - i,
        {
            proof {
                assert(assets@.take(i + 1).drop_last() =~= assets@.take(i as int));
                assert(asset_ids(assets@.take(i + 1)).drop_last() =~= asset_ids(
                    assets@.take(i as int),
                ));
                assert(asset_ids(assets@.take(i + 1)).last() == assets@[i as int].asset_id@);
            }
            router.register(assets[i].duplicate());
            i += 1;
        }
        assert(assets@.take(assets.len() as int) =~= assets@);
        router
    }

    /// The asset registered under `id`.
    pub fn get(&self, id: &B256) -> (r: Option<&RegisteredAsset>)
        requires
            self.wf(),
        ensures
            match r {
                Some(asset) => self.asset(id@) == Some(*asset),
                None => self.asset(id@) is None,
            },
    {
        match self.position(id) {
            Some(at) => {
                proof {
                    lemma_found_at(self.registered_assets@, at as int);
                }
                Some(&self.registered_assets[at])
            },
            None => {
                proof {
                    lemma_absent_id(self.registered_assets@, id@);
                }
                None
            },
        }
    }
}

/// Where ids are distinct, an asset is found under its own id.
proof fn lemma_found_at(assets: Seq<RegisteredAsset>, at: int)
    requires
        distinct_ids(assets),
        0 <= at < assets.len(),
    ensures
        last_with_id(assets, assets[at].asset_id@) == Some(assets[at]),
    decreases assets.len(),
{
    if at < assets.len() - 1 {
        let rest = assets.drop_last();
        assert forall|i: int, j: int|
            0 <= i < rest.len() && 0 <= j < rest.len() && rest[i].asset_id@
                == rest[j].asset_id@ implies i == j by {
            assert(rest[i] == assets[i] && rest[j] == assets[j]);
        }
        assert(rest[at] == assets[at]);
        lemma_found_at(rest, at);
        assert(assets[assets.len() - 1].asset_id@ != assets[at].asset_id@);
    }
}

/// A read the resolver of the asset router asks for.
#[derive(Clone, Debug, PartialEq, Eq)]
pub enum RouterRequest {
    /// The native token vault of the router at `router`.
    NativeTokenVault { router: Address },
    /// The registry root the router at `router` refers back to.
    BridgeHub { router: Address },
    /// All logs of `event` emitted by `address`, over the full history.
    Scan { address: Address, event: EventKind },
    /// The completion of each of `steps`, in any order of reading, answered
    /// in the order asked.
    ResolveAssets { steps: Vec<AssetResolution> },
}

/// What a read returned.
#[derive(Clone, Debug)]
pub enum RouterResponse {
    Address(Address),
    Logs(Vec<Log>),
    Assets(Vec<RegisteredAsset>),
    Failed(TransportError),
}

/// The read that is outstanding.
#[derive(Clone, Copy, Debug, PartialEq, Eq, Structural)]
pub enum RouterStage {
    Vault,
    BridgeHub,
    Events,
    Assets,
}

/// What is known of the asset router while its snapshot is being built.
#[derive(Clone, Copy, Debug, PartialEq, Eq)]
pub struct L1RouterResolver {
    pub address: Address,
    pub stage: RouterStage,
    pub native_token_vault: Address,
    pub bridgehub: Address,
}

/// How one step of the resolver ends.
#[derive(Clone, Debug)]
pub enum RouterOutcome {
    /// Another read is needed.
    Ask(L1RouterResolver, RouterRequest),
    /// The snapshot is complete.
    Done(L1AssetRouter),
    /// The resolve is abandoned.
    Failed(ResolveError),
}

/// The resolutions that the registrations in `logs` begin, in order, or the
/// fault of the first malformed log.
pub open spec fn resolutions_in(logs: Seq<Log>, native_token_vault: Seq<u8>, bridgehub: Seq<u8>) -> Result<
    Seq<AssetResolution>,
    MalformedEvent,
>
    decreases logs.len(),
{
    if logs.len() == 0 {
        Ok(Seq::empty())
    } else {
        match resolutions_in(logs.drop_last(), native_token_vault, bridgehub) {
            Ok(rest) => match resolution_in(logs.last(), native_token_vault, bridgehub) {
                Ok(step) => Ok(rest.push(step)),
                Err(e) => Err(e),
            },
            Err(e) => Err(e),
        }
    }
}

/// `plan_assets` computes `resolutions_in`.
proof fn lemma_plan_matches(
    logs: Seq<Log>,
    native_token_vault: Seq<u8>,
    bridgehub: Seq<u8>,
    upto: int,
)
    requires
        0 <= upto <= logs.len(),
        forall|k: int|
            0 <= k < upto ==> resolution_in(#[trigger] logs[k], native_token_vault, bridgehub)
                is Ok,
    ensures
        resolutions_in(logs.take(upto), native_token_vault, bridgehub) matches Ok(steps)
            && steps.len() == upto && forall|k: int|
            0 <= k < upto ==> resolution_in(#[trigger] logs[k], native_token_vault, bridgehub)
                == Ok::<AssetResolution, MalformedEvent>(steps[k]),
        upto < logs.len() ==> (resolution_in(logs[upto], native_token_vault, bridgehub)
            matches Err(e) ==> resolutions_in(logs, native_token_vault, bridgehub) == Err::<
            Seq<AssetResolution>,
            MalformedEvent,
        >(e)),
    decreases upto, logs.len() - upto,
{
    if upto > 0 {
        lemma_plan_matches(logs, native_token_vault, bridgehub, upto - 1);
        assert(logs.take(upto).drop_last() =~= logs.take(upto - 1));
        assert(logs.take(upto).last() == logs[upto - 1]);
    }
    if upto < logs.len() {
        if resolution_in(logs[upto], native_token_vault, bridgehub) is Err {
            lemma_fault_stays(logs, native_token_vault, bridgehub, upto + 1);
            assert(logs.take(upto + 1).drop_last() =~= logs.take(upto));
        }
    }
}

/// Once a beginning of `logs` is malformed, so is the whole, with the same
/// fault.
proof fn lemma_fault_stays(
    logs: Seq<Log>,
    native_token_vault: Seq<u8>,
    bridgehub: Seq<u8>,
    upto: int,
)
    requires
        0 <= upto <= logs.len(),
        resolutions_in(logs.take(upto), native_token_vault, bridgehub) is Err,
    ensures
        resolutions_in(logs, native_token_vault, bridgehub) == resolutions_in(
            logs.take(upto),
            native_token_vault,
            bridgehub,
        ),
    decreases logs.len() - upto,
{
    if upto < logs.len() {
        assert(logs.take(upto + 1).drop_last() =~= logs.take(upto));
        lemma_fault_stays(logs, native_token_vault, bridgehub, upto + 1);
    } else {
        assert(logs.take(upto) =~= logs);
    }
}

/// The step of the resolver: what `out` must be when `response` answers the
/// read that `before` is waiting for. Every read is required: a failed one
/// ends the resolve, and so does a malformed log or a reply of the wrong
/// kind.
pub open spec fn router_follows(before: L1RouterResolver, response: RouterResponse, out: RouterOutcome) -> bool {
    match response {
        RouterResponse::Failed(e) => out matches RouterOutcome::Failed(error) && error
            == ResolveError::Transport(e),
        RouterResponse::Address(a) => if before.stage == RouterStage::Vault {
            out matches RouterOutcome::Ask(next, request) && request == (RouterRequest::BridgeHub {
                router: before.address,
            }) && next == (L1RouterResolver {
                stage: RouterStage::BridgeHub,
                native_token_vault: a,
                ..before
            })
        } else if before.stage == RouterStage::BridgeHub {
            out matches RouterOutcome::Ask(next, request) && request == (RouterRequest::Scan {
                address: before.address,
                event: EventKind::AssetHandlerRegisteredInitial,
            }) && next == (L1RouterResolver { stage: RouterStage::Events, bridgehub: a, ..before })
        } else {
            out matches RouterOutcome::Failed(error) && error == ResolveError::UnexpectedReply
        },
        RouterResponse::Logs(logs) => if before.stage == RouterStage::Events {
            match resolutions_in(logs@, before.native_token_vault@, before.bridgehub@) {
                Ok(planned) => out matches RouterOutcome::Ask(next, request) && (request
                    matches RouterRequest::ResolveAssets { steps } && steps@ == planned) && next
                    == (L1RouterResolver { stage: RouterStage::Assets, ..before }),
                Err(e) => out matches RouterOutcome::Failed(error) && error
                    == ResolveError::Malformed(e),
            }
        } else {
            out matches RouterOutcome::Failed(error) && error == ResolveError::UnexpectedReply
        },
        RouterResponse::Assets(assets) => if before.stage == RouterStage::Assets {
            out matches RouterOutcome::Done(router) && router.wf() && router.address
                == before.address && router.native_token_vault == before.native_token_vault
                && asset_ids(router.registered_assets@) == first_occurrences(asset_ids(assets@))
                && forall|id: Seq<u8>| router.asset(id) == last_with_id(assets@, id)
        } else {
            out matches RouterOutcome::Failed(error) && error == ResolveError::UnexpectedReply
        },
    }
}

impl L1RouterResolver {
    /// Begins the resolve of the asset router at `address`. The first read
    /// asks for its native token vault.
    pub fn start(address: Address) -> (r: (L1RouterResolver, RouterRequest))
        ensures
            r.1 == (RouterRequest::NativeTokenVault { router: address }),
            r.0.address == address,
            r.0.stage == RouterStage::Vault,
    {
        (
            L1RouterResolver {
                address,
                stage: RouterStage::Vault,
                native_token_vault: Address::zero(),
                bridgehub: Address::zero(),
            },
            RouterRequest::NativeTokenVault { router: address },
        )
    }

    /// Takes the answer to the outstanding read and says what comes next.
    pub fn step(self, response: RouterResponse) -> (out: RouterOutcome)
        ensures
            router_follows(self, response, out),
    {
        match response {
            RouterResponse::Failed(e) => RouterOutcome::Failed(ResolveError::Transport(e)),
            RouterResponse::Address(a) => match self.stage {
                RouterStage::Vault => RouterOutcome::Ask(
                    L1RouterResolver {
                        address: self.address,
                        stage: RouterStage::BridgeHub,
                        native_token_vault: a,
                        bridgehub: self.bridgehub,
                    },
                    RouterRequest::BridgeHub { router: self.address },
                ),
                RouterStage::BridgeHub => RouterOutcome::Ask(
                    L1RouterResolver {
                        address: self.address,
                        stage: RouterStage::Events,
                        native_token_vault: self.native_token_vault,
                        bridgehub: a,
                    },
                    RouterRequest::Scan {
                        address: self.address,
                        event: EventKind::AssetHandlerRegisteredInitial,
                    },
                ),
                _ => RouterOutcome::Failed(ResolveError::UnexpectedReply),
            },
            RouterResponse::Logs(logs) => match self.stage {
                RouterStage::Events => {
                    match plan_assets(&logs, &self.native_token_vault, &self.bridgehub) {
                        Ok(steps) => {
                            proof {
                                lemma_plan_matches(
                                    logs@,
                                    self.native_token_vault@,
                                    self.bridgehub@,
                                    logs@.len() as int,
                                );
                                assert(logs@.take(logs@.len() as int) =~= logs@);
                                let planned = resolutions_in(
                                    logs@,
                                    self.native_token_vault@,
                                    self.bridgehub@,
                                )->Ok_0;
                                assert forall|k: int| 0 <= k < steps@.len() implies steps@[k]
                                    == planned[k] by {
                                    let log = logs@[k];
                                    assert(resolution_in(
                                        log,
                                        self.native_token_vault@,
                                        self.bridgehub@,
                                    ) is Ok);
                                }
                                assert(steps@ =~= planned);
                            }
                            RouterOutcome::Ask(
                                L1RouterResolver {
                                    address: self.address,
                                    stage: RouterStage::Assets,
                                    native_token_vault: self.native_token_vault,
                                    bridgehub: self.bridgehub,
                                },
                                RouterRequest::ResolveAssets { steps },
                            )
                        },
                        Err(e) => {
                            proof {
                                let at = choose|i: int|
                                    0 <= i < logs@.len() && resolution_in(
                                        #[trigger] logs@[i],
                                        self.native_token_vault@,
                                        self.bridgehub@,
                                    ) == Err::<AssetResolution, MalformedEvent>(e) && forall|k: int|
                                        0 <= k < i ==> resolution_in(
                                            #[trigger] logs@[k],
                                            self.native_token_vault@,
                                            self.bridgehub@,
                                        ) is Ok;
                                lemma_plan_matches(
                                    logs@,
                                    self.native_token_vault@,
                                    self.bridgehub@,
                                    at,
                                );
                            }
                            RouterOutcome::Failed(ResolveError::Malformed(e))
                        },
                    }
                },
                _ => RouterOutcome::Failed(ResolveError::UnexpectedReply),
            },
            RouterResponse::Assets(assets) => match self.stage {
                RouterStage::Assets => RouterOutcome::Done(
                    L1AssetRouter::new(self.address, self.native_token_vault, &assets),
                ),
                _ => RouterOutcome::Failed(ResolveError::UnexpectedReply),
            },
        }
    }
}

/// The lines that describe a registered asset, each begun by `pad`, with
/// `shown_name` in place of its name.
pub open spec fn asset_text(asset: RegisteredAsset, pad: Seq<char>, shown_name: Seq<char>) -> Seq<
    char,
> {
    line(pad, "Asset:     "@, shown_name) + line(pad, "  id:      "@, prefixed_hex(asset.asset_id@))
        + line(pad, "  tracker: "@, handler_text(asset.handler))
}

/// Whether `out` describes `asset`, indented by `pad` spaces, with the name
/// in bold or plain.
pub open spec fn describes_asset(out: Seq<char>, asset: RegisteredAsset, pad: nat) -> bool {
    exists|shown_name: Seq<char>|
        is_bold(shown_name, asset_name(asset)) && out == #[trigger] asset_text(
            asset,
            spaces(pad),
            shown_name,
        )
}

/// The first lines that describe an asset router, each begun by `pad`.
pub open spec fn router_heading(router: L1AssetRouter, pad: Seq<char>) -> Seq<char> {
    line(pad, "=== L1 Asset Router -  "@, checksum_text(router.address@) + "  "@) + line(
        pad,
        "Native vault:          "@,
        checksum_text(router.native_token_vault@),
    ) + line(pad, "Assets: "@, Seq::empty())
}

/// Whether `out` describes `router`, indented by `pad` spaces: the heading
/// and then every registered asset in order, indented by three more.
pub open spec fn describes_router(out: Seq<char>, router: L1AssetRouter, pad: nat) -> bool {
    exists|parts: Seq<Seq<char>>|
        parts.len() == router.registered_assets@.len() && (forall|i: int|
            0 <= i < parts.len() ==> describes_asset(
                #[trigger] parts[i],
                router.registered_assets@[i],
                pad + 3,
            )) && out == router_heading(router, spaces(pad)) + #[trigger] joined(parts)
}

impl RegisteredAsset {
    /// The lines that describe this asset, each indented by `pad` spaces,
    /// with `shown_name` in place of its name.
    pub fn layout(&self, pad: usize, shown_name: &str) -> (out: String)
        ensures
            out@ == asset_text(*self, spaces(pad as nat), shown_name@),
    {
        let indent = repeat_char(' ', pad);
        let mut out = String::new();
        push_line(&mut out, indent.as_str(), "Asset:     ", shown_name);
        push_line(&mut out, indent.as_str(), "  id:      ", format_b256(&self.asset_id).as_str());
        push_line(&mut out, indent.as_str(), "  tracker: ", self.handler.short_fmt().as_str());
        assert(out@ =~= asset_text(*self, spaces(pad as nat), shown_name@));
        out
    }

    /// The lines that describe this asset, each indented by `pad` spaces.
    /// The name is set in bold where the terminal takes it.
    pub fn detailed_fmt(&self, pad: usize) -> (out: String)
        ensures
            describes_asset(out@, *self, pad as nat),
    {
        let name = self.name();
        let shown = paint_bold(name.as_str());
        let out = self.layout(pad, shown.as_str());
        assert(out@ == asset_text(*self, spaces(pad as nat), shown@));
        out
    }
}

impl L1AssetRouter {
    /// The lines that describe this router and its assets, each indented by
    /// `pad` spaces and the assets by three more.
    pub fn detailed_fmt(&self, pad: usize) -> (out: String)
        requires
            pad + 3 <= usize::MAX,
        ensures
            describes_router(out@, *self, pad as nat),
    {
        let indent = repeat_char(' ', pad);
        let mut out = String::new();
        let mut address = address_checksum(&self.address);
        address.append("  ");
        push_line(&mut out, indent.as_str(), "=== L1 Asset Router -  ", address.as_str());
        push_line(
            &mut out,
            indent.as_str(),
            "Native vault:          ",
            address_checksum(&self.native_token_vault).as_str(),
        );
        let nothing = String::new();
        push_line(&mut out, indent.as_str(), "Assets: ", nothing.as_str());
        assert(out@ =~= router_heading(*self, spaces(pad as nat)));
        let ghost mut parts: Seq<Seq<char>> = Seq::empty();
        let mut i: usize = 0;
        while i < self.registered_assets.len()
            invariant
                i <= self.registered_assets.len(),
                pad + 3 <= usize::MAX,
                parts.len() == i,
                forall|k: int|
                    0 <= k < parts.len() ==> describes_asset(
                        #[trigger] parts[k],
                        self.registered_assets@[k],
                        (pad + 3) as nat,
                    ),
                out@ == router_heading(*self, spaces(pad as nat)) + joined(parts),
            decreases self.registered_assets.len() - i,
        {
            let part = self.registered_assets[i].detailed_fmt(pad + 3);
            let ghost before = parts;
            proof {
                parts = before.push(part@);
                assert(parts.drop_last() =~= before);
            }
            out.append(part.as_str());
            assert(out@ =~= router_heading(*self, spaces(pad as nat)) + joined(parts));
            i += 1;
        }
        assert(out@ == router_heading(*self, spaces(pad as nat)) + joined(parts));
        out
    }
}

} // verus!
