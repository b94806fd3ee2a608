use chain_inspector::bridgehub::{
    chain_ids_from_logs, managers_from_logs, AssetRouter, BridgehubResolver, Outcome, Request,
    Response, Stage,
};
use chain_inspector::l1_asset_router::L1AssetRouter;
use chain_inspector::primitives::{Address, B256, U256};
use chain_inspector::remote::{
    distinct_addresses, distinct_numbers, to_numbers, EventKind, Log, MalformedEvent,
    ResolveError, TransportError,
};
use chain_inspector::sequencer::{L2SequencerInfo, SequencerType};
use chain_inspector::stm::ChainTypeManager;

fn address(fill: u8) -> Address {
    Address { bytes: [fill; 20] }
}

fn number(value: u64) -> U256 {
    let mut bytes = [0u8; 32];
    bytes[24..].copy_from_slice(&value.to_be_bytes());
    U256 { bytes }
}

fn number_topic(value: u64) -> B256 {
    B256 { bytes: number(value).bytes }
}

fn address_topic(a: Address) -> B256 {
    let mut bytes = [0u8; 32];
    bytes[12..].copy_from_slice(&a.bytes);
    B256 { bytes }
}

fn log(first: B256) -> Log {
    Log { address: address(0xb0), topics: vec![B256 { bytes: [0xee; 32] }, first], data: vec![] }
}

fn failure() -> TransportError {
    TransportError { message: "timed out".to_string() }
}

fn rollup() -> SequencerType {
    SequencerType::L2(L2SequencerInfo { l1_chain_id: 9, bridgehub_address: address(0xb0) })
}

fn ask(outcome: Outcome) -> (BridgehubResolver, Request) {
    match outcome {
        Outcome::Ask(next, request) => (next, request),
        other => panic!("expected another read, got {:?}", other),
    }
}

fn failed(outcome: Outcome) -> ResolveError {
    match outcome {
        Outcome::Failed(error) => error,
        other => panic!("expected a failure, got {:?}", other),
    }
}

fn up_to_chain_ids(layer: SequencerType, known_managers: Vec<Address>) -> BridgehubResolver {
    let (state, request) = BridgehubResolver::start(layer, address(0xb0), known_managers);
    assert_eq!(request, Request::Code { address: address(0xb0) });
    let (state, request) = ask(state.step(Response::Code { length: 100 }));
    assert_eq!(request, Request::SharedBridge { hub: address(0xb0) });
    let (state, request) = ask(state.step(Response::Address(address(0xb1))));
    assert_eq!(request, Request::CtmDeployer { hub: address(0xb0) });
    let (state, request) = ask(state.step(Response::Address(address(0xb2))));
    assert_eq!(request, Request::AllChainIds { hub: address(0xb0) });
    assert_eq!(state.stage, Stage::ChainIds);
    state
}

#[test]
fn base_layer_snapshot_is_built_read_by_read() {
    let state = up_to_chain_ids(SequencerType::L1, vec![]);
    let ids = vec![number(270), number(271), number(270)];
    let (state, request) = ask(state.step(Response::ChainIds(ids)));
    assert_eq!(
        request,
        Request::Scan { address: address(0xb0), event: EventKind::ChainTypeManagerAdded }
    );
    let logs = vec![
        log(address_topic(address(0xc1))),
        log(address_topic(address(0xc2))),
        log(address_topic(address(0xc1))),
    ];
    let (state, request) = ask(state.step(Response::Logs(logs)));
    assert_eq!(
        request,
        Request::ResolveManagers { managers: vec![address(0xc1), address(0xc2)] }
    );
    let managers = vec![
        ChainTypeManager::new(address(0xc1), address(0xb0), address(1), address(2), number_topic(5)),
        ChainTypeManager::new(address(0xc2), address(0xb0), address(3), address(4), number_topic(6)),
    ];
    let (state, request) = ask(state.step(Response::Managers(managers.clone())));
    assert_eq!(request, Request::ResolveL1Router { address: address(0xb1) });
    let router = L1AssetRouter::new(address(0xb1), address(0xb3), &vec![]);
    match state.step(Response::L1Router(router)) {
        Outcome::Done(hub) => {
            assert_eq!(hub.address, address(0xb0));
            assert_eq!(hub.shared_bridge, address(0xb1));
            assert_eq!(hub.ctm_deployer, address(0xb2));
            assert_eq!(hub.known_chains, vec![270, 271]);
            assert_eq!(hub.ctms, Some(managers));
            match hub.asset_router {
                AssetRouter::L1(router) => {
                    assert_eq!(router.address, address(0xb1));
                    assert_eq!(router.native_token_vault, address(0xb3));
                }
                AssetRouter::L2(_) => panic!("base layer must have a full router"),
            }
        }
        other => panic!("expected the snapshot, got {:?}", other),
    }
}

#[test]
fn rollup_layer_snapshot_ends_with_a_router_stub() {
    let state = up_to_chain_ids(rollup(), vec![]);
    match state.step(Response::ChainIds(vec![number(300)])) {
        Outcome::Done(hub) => {
            assert_eq!(hub.known_chains, vec![300]);
            assert_eq!(hub.ctms, None);
            assert_eq!(hub.shared_bridge, address(0xb1));
            match hub.asset_router {
                AssetRouter::L2(router) => assert_eq!(router.address, address(0xb1)),
                AssetRouter::L1(_) => panic!("rollup layer must have a stub"),
            }
        }
        other => panic!("expected the snapshot, got {:?}", other),
    }
}

#[test]
fn missing_contract_code_ends_the_resolve() {
    let (state, _) = BridgehubResolver::start(SequencerType::L1, address(0xb0), vec![]);
    assert_eq!(failed(state.step(Response::Code { length: 0 })), ResolveError::EmptyCode);
}

#[test]
fn failed_required_read_ends_the_resolve() {
    let (state, _) = BridgehubResolver::start(SequencerType::L1, address(0xb0), vec![]);
    assert_eq!(
        failed(state.clone().step(Response::Failed(failure()))),
        ResolveError::Transport(failure())
    );
    let (state, _) = ask(state.step(Response::Code { length: 1 }));
    assert_eq!(
        failed(state.clone().step(Response::Failed(failure()))),
        ResolveError::Transport(failure())
    );
    let (state, _) = ask(state.step(Response::Address(address(0xb1))));
    assert_eq!(
        failed(state.step(Response::Failed(failure()))),
        ResolveError::Transport(failure())
    );
}

#[test]
fn base_layer_without_enumeration_scans_creation_events() {
    let state = up_to_chain_ids(SequencerType::L1, vec![]);
    let (state, request) = ask(state.step(Response::Failed(failure())));
    assert_eq!(request, Request::Scan { address: address(0xb0), event: EventKind::NewChain });
    assert_eq!(state.stage, Stage::ChainEvents);
    let logs = vec![log(number_topic(9)), log(number_topic(270)), log(number_topic(9))];
    let (state, request) = ask(state.step(Response::Logs(logs)));
    assert_eq!(state.known_chains, vec![9, 270]);
    assert_eq!(
        request,
        Request::Scan { address: address(0xb0), event: EventKind::ChainTypeManagerAdded }
    );
}

#[test]
fn rollup_layer_without_enumeration_scans_manager_events() {
    let managers = vec![address(0xc1), address(0xc2)];
    let state = up_to_chain_ids(rollup(), managers.clone());
    let (state, request) = ask(state.step(Response::Failed(failure())));
    assert_eq!(request, Request::ScanManagers { managers });
    match state.step(Response::Logs(vec![log(number_topic(300))])) {
        Outcome::Done(hub) => assert_eq!(hub.known_chains, vec![300]),
        other => panic!("expected the snapshot, got {:?}", other),
    }
}

#[test]
fn failed_fallback_scan_ends_the_resolve() {
    let state = up_to_chain_ids(SequencerType::L1, vec![]);
    let (state, _) = ask(state.step(Response::Failed(failure())));
    assert_eq!(
        failed(state.step(Response::Failed(failure()))),
        ResolveError::Transport(failure())
    );
}

#[test]
fn malformed_replies_end_the_resolve() {
    let state = up_to_chain_ids(SequencerType::L1, vec![]);
    let too_large = U256 { bytes: [0xff; 32] };
    assert_eq!(
        failed(state.clone().step(Response::ChainIds(vec![number(1), too_large]))),
        ResolveError::Malformed(MalformedEvent::NumberOutOfRange)
    );
    let (state, _) = ask(state.step(Response::ChainIds(vec![number(1)])));
    assert_eq!(
        failed(state.clone().step(Response::Logs(vec![log(B256 { bytes: [1; 32] })]))),
        ResolveError::Malformed(MalformedEvent::AddressPadding)
    );
    let mut short = log(address_topic(address(1)));
    short.topics.pop();
    assert_eq!(
        failed(state.step(Response::Logs(vec![short]))),
        ResolveError::Malformed(MalformedEvent::MissingTopic)
    );
}

#[test]
fn reply_of_the_wrong_kind_ends_the_resolve() {
    let (state, _) = BridgehubResolver::start(SequencerType::L1, address(0xb0), vec![]);
    assert_eq!(
        failed(state.clone().step(Response::Address(address(1)))),
        ResolveError::UnexpectedReply
    );
    assert_eq!(
        failed(state.clone().step(Response::Logs(vec![]))),
        ResolveError::UnexpectedReply
    );
    assert_eq!(
        failed(state.clone().step(Response::ChainIds(vec![]))),
        ResolveError::UnexpectedReply
    );
    assert_eq!(
        failed(state.clone().step(Response::Managers(vec![]))),
        ResolveError::UnexpectedReply
    );
    let router = L1AssetRouter::new(address(0xb1), address(0xb3), &vec![]);
    assert_eq!(failed(state.step(Response::L1Router(router))), ResolveError::UnexpectedReply);
    let state = up_to_chain_ids(SequencerType::L1, vec![]);
    assert_eq!(
        failed(state.step(Response::Code { length: 4 })),
        ResolveError::UnexpectedReply
    );
}

#[test]
fn ids_are_kept_once_in_order_of_first_occurrence() {
    assert_eq!(distinct_numbers(&vec![3, 1, 3, 2, 1]), vec![3, 1, 2]);
    assert_eq!(distinct_numbers(&vec![]), Vec::<u64>::new());
    assert_eq!(
        distinct_addresses(&vec![address(2), address(1), address(2)]),
        vec![address(2), address(1)]
    );
    assert_eq!(to_numbers(&vec![number(1), number(u64::MAX)]), Ok(vec![1, u64::MAX]));
    assert_eq!(
        to_numbers(&vec![U256 { bytes: [1; 32] }]),
        Err(MalformedEvent::NumberOutOfRange)
    );
}

#[test]
fn chain_ids_and_managers_are_read_from_logs() {
    assert_eq!(
        chain_ids_from_logs(&vec![log(number_topic(5)), log(number_topic(5)), log(number_topic(4))]),
        Ok(vec![5, 4])
    );
    assert_eq!(
        chain_ids_from_logs(&vec![log(B256 { bytes: [1; 32] })]),
        Err(MalformedEvent::NumberOutOfRange)
    );
    assert_eq!(
        managers_from_logs(&vec![log(address_topic(address(7)))]),
        Ok(vec![address(7)])
    );
    assert_eq!(managers_from_logs(&vec![]), Ok(vec![]));
}
