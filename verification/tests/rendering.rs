use chain_inspector::addresses::AddressBook;
use chain_inspector::balances::{BalanceTable, TokenBalance};
use chain_inspector::bridgehub::{AssetRouter, Bridgehub, BridgehubChainDetails, ChainBalances};
use chain_inspector::l1_asset_router::{
    AssetHandler, AssetResolution, L1AssetRouter, L1RouterResolver, NativeTokenVaultAsset,
    RegisteredAsset, RouterOutcome, RouterRequest, RouterResponse, RouterStage,
};
use chain_inspector::l2_asset_router::L2AssetRouter;
use chain_inspector::primitives::{Address, B256, U256};
use chain_inspector::priority_transactions::{
    compute_merkle_tree, decode_priority_transactions, method_label, sort_by_index,
    L2CanonicalTransaction, NewPriorityRequest, PriorityTransaction, SignatureBook,
};
use chain_inspector::remote::{EventKind, Log, MalformedEvent, ResolveError, TransportError};
use chain_inspector::report::{
    ChainBalanceReport, ChainDiagnostics, PriorityTransactionReport, SequencerStatus,
    TokenBalanceReport,
};
use chain_inspector::sequencer::{L2SequencerInfo, Sequencer, SequencerType};
use chain_inspector::statetransition::{IntegrityMismatch, StateTransition};
use chain_inspector::stm::ChainTypeManager;
use chain_inspector::text::decimal_u64;

fn address(fill: u8) -> Address {
    Address { bytes: [fill; 20] }
}

fn word(fill: u8) -> B256 {
    B256 { bytes: [fill; 32] }
}

fn number(value: u128) -> U256 {
    let mut bytes = [0u8; 32];
    bytes[16..].copy_from_slice(&value.to_be_bytes());
    U256 { bytes }
}

fn address_number(a: Address) -> U256 {
    let mut bytes = [0u8; 32];
    bytes[12..].copy_from_slice(&a.bytes);
    U256 { bytes }
}

fn envelope() -> L2CanonicalTransaction {
    let z = number(0);
    L2CanonicalTransaction {
        tx_type: z,
        from: address_number(address(0x11)),
        to: address_number(address(0x22)),
        gas_limit: z,
        gas_per_pubdata_byte_limit: z,
        max_fee_per_gas: z,
        max_priority_fee_per_gas: z,
        paymaster: z,
        nonce: z,
        value: z,
        reserved: [z; 4],
        data: Vec::new(),
        signature: Vec::new(),
        factory_deps: Vec::new(),
        paymaster_input: Vec::new(),
        reserved_dynamic: Vec::new(),
    }
}

fn message(index: u64, fill: u8) -> PriorityTransaction {
    PriorityTransaction {
        index,
        tx_id: word(fill),
        expiration_timestamp: 1_700_000_000,
        l2_tx: envelope(),
    }
}

fn state_transition() -> StateTransition {
    StateTransition {
        verifier: address(0x01),
        total_batches_executed: number(10),
        total_batches_verified: number(11),
        total_batches_committed: number(12),
        bootloader_hash: word(0x0b),
        default_account_hash: word(0x0a),
        protocol_version: (0, 26, 3),
        system_upgrade_tx_hash: word(0),
        admin: address(0x02),
        chain_id: number(270),
        settlement_layer: address(0),
        unprocessed_queue_size: number(2),
        total_queue_size: number(5),
        priority_tree_root: word(0x0c),
        hyperchain: address(0x03),
    }
}

fn hex32(fill: &str) -> String {
    format!("0x{}", fill.repeat(32))
}

fn hex20(fill: &str) -> String {
    format!("0x{}", fill.repeat(20))
}

#[test]
fn numbers_are_written_in_decimal() {
    assert_eq!(decimal_u64(0), "0");
    assert_eq!(decimal_u64(7), "7");
    assert_eq!(decimal_u64(10), "10");
    assert_eq!(decimal_u64(1234567890), "1234567890");
    assert_eq!(decimal_u64(u64::MAX), "18446744073709551615");
}

#[test]
fn state_transition_report_writes_every_value_as_text() {
    let report = state_transition().to_report();
    assert_eq!(report.chain_id, "270");
    assert_eq!(report.hyperchain, hex20("03"));
    assert_eq!(report.verifier, hex20("01"));
    assert_eq!(report.total_batches_executed, "10");
    assert_eq!(report.total_batches_verified, "11");
    assert_eq!(report.total_batches_committed, "12");
    assert_eq!(report.bootloader_hash, hex32("0b"));
    assert_eq!(report.default_account_hash, hex32("0a"));
    assert_eq!(report.protocol_version, (0, 26, 3));
    assert_eq!(report.system_upgrade_tx_hash, hex32("00"));
    assert_eq!(report.admin, hex20("02"));
    assert_eq!(report.settlement_layer, hex20("00"));
    assert_eq!(report.queue.unprocessed, "2");
    assert_eq!(report.queue.total, "5");
    assert_eq!(report.priority_tree_root, hex32("0c"));
}

#[test]
fn state_transition_is_described_line_by_line() {
    colored::control::set_override(false);
    let expected = [
        "  Chain id: 270".to_string(),
        "    Protocol version: 0.26.3".to_string(),
        "    Batches (C,V,E):  12 11 10".to_string(),
        format!("    System upgrade:   {}", hex32("00")),
        format!("    AA hash:          {}", hex32("0a")),
        format!("    Verifier:         {}", hex20("01")),
        format!("    Admin:            {}", hex20("02")),
        format!("    Bootloader hash:  {}", hex32("0b")),
        format!("    Settlement layer: {}", hex20("00")),
        "    Queue unprocessed / total: 2 / 5".to_string(),
    ]
    .join("\n")
        + "\n";
    assert_eq!(state_transition().detailed_fmt(2), expected);
}

#[test]
fn pending_upgrade_and_migration_are_marked_red() {
    colored::control::set_override(true);
    let mut st = state_transition();
    st.system_upgrade_tx_hash = word(0x01);
    st.settlement_layer = address(0x04);
    let text = st.detailed_fmt(0);
    assert!(text.contains(&format!(
        "  System upgrade:   \u{1b}[31m{}\u{1b}[0m\n",
        hex32("01")
    )));
    assert!(text.contains(&format!(
        "  Settlement layer: \u{1b}[31m{}\u{1b}[0m\n",
        hex20("04")
    )));
    assert!(st.is_passive());
    assert!(!state_transition().is_passive());
    colored::control::unset_override();
}

#[test]
fn admin_is_named_after_the_chain() {
    let mut book = AddressBook::empty();
    state_transition().register_admin_name(&mut book);
    assert_eq!(book.lookup(&address(0x02)), Some("Admin 270".to_string()));
    assert_eq!(book.lookup(&address(0x01)), None);
}

#[test]
fn matching_root_passes_and_corrupted_id_is_reported() {
    let txs: Vec<PriorityTransaction> = (0..5).map(|i| message(i, i as u8 + 1)).collect();
    let mut st = state_transition();
    st.priority_tree_root = compute_merkle_tree(&txs);
    assert_eq!(st.verify_priority_root_hash(&txs), Ok(()));
    let mut corrupted = txs.clone();
    corrupted[2].tx_id = word(0xff);
    let mismatch = st.verify_priority_root_hash(&corrupted).unwrap_err();
    assert_eq!(
        mismatch,
        IntegrityMismatch {
            on_chain_root: st.priority_tree_root,
            computed_root: compute_merkle_tree(&corrupted),
        }
    );
    assert_ne!(mismatch.on_chain_root, mismatch.computed_root);
    let expected = "eddb40ca36966164c7a67ada9ebf48bdf88b57b1c93e340146c310438ecd3b27";
    let mut bytes = [0u8; 32];
    for i in 0..32 {
        bytes[i] = u8::from_str_radix(&expected[2 * i..2 * i + 2], 16).unwrap();
    }
    assert_eq!(mismatch.computed_root, B256 { bytes });
}

#[test]
fn messages_are_sorted_by_index() {
    let txs = vec![message(3, 1), message(0, 2), message(2, 3), message(0, 4), message(1, 5)];
    let sorted = sort_by_index(txs);
    let order: Vec<(u64, u8)> = sorted.iter().map(|tx| (tx.index, tx.tx_id.bytes[0])).collect();
    assert_eq!(order, vec![(0, 2), (0, 4), (1, 5), (2, 3), (3, 1)]);
    assert_eq!(sort_by_index(Vec::new()).len(), 0);
}

#[test]
fn events_are_decoded_in_order() {
    let request = |index: u128, fill: u8| NewPriorityRequest {
        tx_id: number(index),
        tx_hash: word(fill),
        expiration_timestamp: 99,
        transaction: envelope(),
    };
    let txs = decode_priority_transactions(vec![request(0, 1), request(1, 2)]).unwrap();
    assert_eq!(txs.len(), 2);
    assert_eq!((txs[0].index, txs[0].tx_id), (0, word(1)));
    assert_eq!((txs[1].index, txs[1].tx_id), (1, word(2)));
    assert_eq!(txs[1].expiration_timestamp, 99);
    let tx = PriorityTransaction::from_request(request(u64::MAX as u128, 3)).unwrap();
    assert_eq!(tx.index, u64::MAX);
    assert_eq!(
        decode_priority_transactions(vec![request(0, 1), request(u64::MAX as u128 + 1, 2)])
            .map(|txs| txs.len()),
        Err(MalformedEvent::NumberOutOfRange)
    );
}

#[test]
fn method_is_named_by_its_selector() {
    let mut book = SignatureBook::empty();
    book.add("a9059cbb".to_string(), "transfer(address,uint256)".to_string());
    let data = vec![0xa9, 0x05, 0x9c, 0xbb, 0x00];
    assert_eq!(method_label(&data, &book), Some("transfer(address,uint256)".to_string()));
    assert_eq!(method_label(&vec![0x01, 0x02, 0x03, 0x04, 0x05], &book), Some("01020304".to_string()));
    assert_eq!(method_label(&vec![0xa9, 0x05, 0x9c, 0xbb], &book), None);
    assert_eq!(method_label(&vec![], &book), None);
    book.add("a9059cbb".to_string(), "other()".to_string());
    assert_eq!(book.lookup("a9059cbb"), Some("other()".to_string()));
    assert_eq!(book.lookup("00000000"), None);
}

#[test]
fn message_is_described_with_method_and_value() {
    colored::control::set_override(false);
    let mut names = AddressBook::empty();
    names.add_address_name(address(0x22), "Vault".to_string());
    let signatures = SignatureBook::empty();
    let mut tx = message(7, 0x0d);
    assert_eq!(
        tx.detailed_fmt(&names, &signatures, 1),
        format!(
            " Tx: 7 - {}\n     {} -> 0x222...22222 ({:^26})\n",
            hex32("0d"),
            hex20("11"),
            "Vault"
        )
    );
    tx.l2_tx.data = vec![0xde, 0xad, 0xbe, 0xef, 0x00];
    tx.l2_tx.reserved[0] = number(1_000_000);
    assert_eq!(
        tx.detailed_fmt(&names, &signatures, 0),
        format!(
            "Tx: 7 - {}\n    {} -> 0x222...22222 ({:^26})\n    Method           - deadbeef\n    Value (reserved) - 1_000_000\n",
            hex32("0d"),
            hex20("11"),
            "Vault"
        )
    );
}

#[test]
fn manager_and_assets_are_described() {
    colored::control::set_override(false);
    let manager = ChainTypeManager::new(address(1), address(2), address(3), address(4), word(7));
    assert_eq!(
        manager.detailed_fmt(1),
        format!(
            " === CTM -     abrasive_middle\n    Address:   {}\n    Asset id:  {}\n    Bridgehub: {}\n    Admin:     {}\n    Owner:     {}\n",
            hex20("01"),
            hex32("07"),
            hex20("02"),
            hex20("03"),
            hex20("04")
        )
    );
    let asset = RegisteredAsset {
        asset_id: word(7),
        handler: AssetHandler::NativeTokenVault(NativeTokenVaultAsset {
            address: address(0x11),
            token_name: "Dai".to_string(),
        }),
    };
    assert_eq!(
        asset.detailed_fmt(0),
        format!(
            "Asset:     Dai-abrasive_middle\n  id:      {}\n  tracker: Token Dai {}\n",
            hex32("07"),
            hex20("11")
        )
    );
    let router = L1AssetRouter::new(address(0x11), address(0x22), &vec![asset.clone()]);
    assert_eq!(
        router.detailed_fmt(0),
        format!(
            "=== L1 Asset Router -  {}  \nNative vault:          {}\nAssets: \n{}",
            hex20("11"),
            hex20("22"),
            asset.detailed_fmt(3)
        )
    );
    assert_eq!(
        L2AssetRouter::new(address(0x11)).detailed_fmt(2),
        format!("  === L2 Asset -  {}  \n", hex20("11"))
    );
    assert_eq!(
        AssetRouter::L2(L2AssetRouter::new(address(0x11))).detailed_fmt(3),
        format!("   L2 asset router\n      === L2 Asset -  {}  \n", hex20("11"))
    );
    assert_eq!(
        AssetRouter::L1(router.clone()).detailed_fmt(3),
        format!("   L1 asset router\n{}", router.detailed_fmt(6))
    );
}

#[test]
fn manager_name_is_emphasised_when_colour_is_on() {
    colored::control::set_override(true);
    let manager = ChainTypeManager::new(address(1), address(2), address(3), address(4), word(7));
    assert!(manager
        .detailed_fmt(0)
        .starts_with("=== CTM -     \u{1b}[1;37mabrasive_middle\u{1b}[0m\n"));
    let asset = RegisteredAsset { asset_id: word(7), handler: AssetHandler::Bridgehub };
    assert!(asset
        .detailed_fmt(0)
        .starts_with("Asset:     \u{1b}[1mabrasive_middle\u{1b}[0m\n"));
    colored::control::unset_override();
}

#[test]
fn registry_root_is_described_with_managers_and_router() {
    colored::control::set_override(false);
    let manager = ChainTypeManager::new(address(1), address(2), address(3), address(4), word(7));
    let router = AssetRouter::L2(L2AssetRouter::new(address(0x22)));
    let hub = Bridgehub {
        address: address(0x11),
        shared_bridge: address(0x22),
        known_chains: vec![270],
        ctms: Some(vec![manager.clone()]),
        ctm_deployer: address(0x33),
        asset_router: router.clone(),
    };
    assert_eq!(
        hub.to_text(),
        format!(
            "   Bridgehub at          {}\n   Shared bridge:        {}\n   CTM deployer (on L1): {}\n   CTMS: 1\n{}   === Asset router\n{}",
            hex20("11"),
            hex20("22"),
            hex20("33"),
            manager.detailed_fmt(3),
            router.detailed_fmt(3)
        )
    );
    let bare = Bridgehub { ctms: None, ..hub };
    assert_eq!(
        bare.to_text(),
        format!(
            "   Bridgehub at          {}\n   Shared bridge:        {}\n   CTM deployer (on L1): {}\n   === Asset router\n{}",
            hex20("11"),
            hex20("22"),
            hex20("33"),
            router.detailed_fmt(3)
        )
    );
}

#[test]
fn chain_details_are_described() {
    colored::control::set_override(false);
    let details = BridgehubChainDetails {
        stm_address: address(1),
        st_address: address(2),
        base_token_address: address(3),
        validator_timelock_address: address(4),
        stm_asset_id: word(7),
    };
    assert_eq!(
        details.to_text(),
        format!(
            "    CTM:      abrasive_middle\n    CTM:                {}\n    ST:                 {}\n    Base Token:         {}\n    Validator timelock: {}\n",
            hex20("01"),
            hex20("02"),
            hex20("03"),
            hex20("04")
        )
    );
}

#[test]
fn endpoint_is_described_in_one_line() {
    let base = Sequencer {
        rpc_url: "http://127.0.0.1:8545".to_string(),
        chain_id: 9,
        latest_block: 1234,
        sequencer_type: SequencerType::L1,
    };
    assert_eq!(
        base.to_text(),
        "Sequencer at http://127.0.0.1:8545 (Chain: 9, Last Block: 1234), L1"
    );
    let info = L2SequencerInfo { l1_chain_id: 9, bridgehub_address: address(0x11) };
    let rollup = Sequencer {
        rpc_url: "http://127.0.0.1:3050".to_string(),
        chain_id: 270,
        latest_block: 0,
        sequencer_type: SequencerType::from_probe(Some(info)),
    };
    assert_eq!(
        rollup.to_text(),
        "Sequencer at http://127.0.0.1:3050 (Chain: 270, Last Block: 0), L2 -> 9"
    );
    assert_eq!(SequencerType::from_probe(None), SequencerType::L1);
    assert!(SequencerType::L1.is_base_layer());
    assert!(!rollup.sequencer_type.is_base_layer());
}

#[test]
fn endpoint_status_records_success_or_the_error() {
    let base = Sequencer {
        rpc_url: "http://127.0.0.1:8545".to_string(),
        chain_id: 9,
        latest_block: 1234,
        sequencer_type: SequencerType::L1,
    };
    let ok = SequencerStatus::ok(base);
    assert_eq!(ok.status, "ok");
    assert_eq!(ok.sequencer.map(|s| s.chain_id), Some(9));
    assert_eq!(ok.error, None);
    let err = SequencerStatus::err("Port not active: http://127.0.0.1:3050");
    assert_eq!(err.status, "error");
    assert!(err.sequencer.is_none());
    assert_eq!(err.error, Some("Port not active: http://127.0.0.1:3050".to_string()));
}

#[test]
fn chain_record_starts_empty() {
    let record = ChainDiagnostics::new(270);
    assert_eq!(record.chain_id, 270);
    assert!(record.state_transition.is_none());
    assert_eq!(record.state_transition_error, None);
    assert_eq!(record.priority_tree_verified, None);
    assert_eq!(record.priority_tree_note, None);
    assert!(record.priority_transactions.is_empty());
    assert_eq!(record.priority_tx_error, None);
}

#[test]
fn balances_are_reported_raw_and_in_whole_tokens() {
    let balances = ChainBalances {
        chain_id: 270,
        tokens: BalanceTable {
            entries: vec![
                TokenBalance { token: "ETH-a_b".to_string(), amount: number(1_500_000_000_000_000_000) },
                TokenBalance { token: "Dai-c_d".to_string(), amount: number(7) },
            ],
        },
    };
    assert_eq!(
        ChainBalanceReport::new(&balances),
        ChainBalanceReport {
            chain_id: 270,
            tokens: vec![
                TokenBalanceReport {
                    token: "ETH-a_b".to_string(),
                    raw_wei: "1500000000000000000".to_string(),
                    formatted: "1.500000000000000000".to_string(),
                },
                TokenBalanceReport {
                    token: "Dai-c_d".to_string(),
                    raw_wei: "7".to_string(),
                    formatted: "0.000000000000000007".to_string(),
                },
            ],
        }
    );
    let entry = PriorityTransactionReport::new(&message(4, 0x0d));
    assert_eq!(entry.index, 4);
    assert_eq!(entry.tx_id, hex32("0d"));
    assert_eq!(entry.expiration_timestamp, 1_700_000_000);
}

#[test]
fn asset_router_is_resolved_read_by_read() {
    let topic = |a: Address| {
        let mut bytes = [0u8; 32];
        bytes[12..].copy_from_slice(&a.bytes);
        B256 { bytes }
    };
    let (state, request) = L1RouterResolver::start(address(0x11));
    assert_eq!(request, RouterRequest::NativeTokenVault { router: address(0x11) });
    let ask = |outcome: RouterOutcome| match outcome {
        RouterOutcome::Ask(next, request) => (next, request),
        other => panic!("expected another read, got {:?}", other),
    };
    let (state, request) = ask(state.step(RouterResponse::Address(address(0x22))));
    assert_eq!(request, RouterRequest::BridgeHub { router: address(0x11) });
    let (state, request) = ask(state.step(RouterResponse::Address(address(0x33))));
    assert_eq!(
        request,
        RouterRequest::Scan {
            address: address(0x11),
            event: EventKind::AssetHandlerRegisteredInitial,
        }
    );
    assert_eq!(state.stage, RouterStage::Events);
    let log = |asset: u8, tracker: u8| Log {
        address: address(0x11),
        topics: vec![word(0xee), word(asset), topic(address(tracker))],
        data: vec![],
    };
    let registry_backed = RegisteredAsset { asset_id: word(6), handler: AssetHandler::Bridgehub };
    let (state, request) =
        ask(state.step(RouterResponse::Logs(vec![log(5, 0x22), log(6, 0x33)])));
    assert_eq!(
        request,
        RouterRequest::ResolveAssets {
            steps: vec![
                AssetResolution::AskTokenAddress { asset_id: word(5) },
                AssetResolution::Done(registry_backed.clone()),
            ],
        }
    );
    let token = RegisteredAsset::with_token_name(word(5), address(0x44), "Dai".to_string());
    match state.step(RouterResponse::Assets(vec![token.clone(), registry_backed.clone()])) {
        RouterOutcome::Done(router) => {
            assert_eq!(router.address, address(0x11));
            assert_eq!(router.native_token_vault, address(0x22));
            assert_eq!(router.registered_assets, vec![token, registry_backed]);
        }
        other => panic!("expected the router, got {:?}", other),
    }
    let failure = TransportError { message: "refused".to_string() };
    match state.step(RouterResponse::Failed(failure.clone())) {
        RouterOutcome::Failed(error) => assert_eq!(error, ResolveError::Transport(failure)),
        other => panic!("expected a failure, got {:?}", other),
    }
    match state.step(RouterResponse::Logs(vec![])) {
        RouterOutcome::Failed(error) => assert_eq!(error, ResolveError::UnexpectedReply),
        other => panic!("expected a failure, got {:?}", other),
    }
    let (events, _) = ask(ask(L1RouterResolver::start(address(0x11)).0.step(RouterResponse::Address(address(0x22)))).0.step(RouterResponse::Address(address(0x33))));
    let mut broken = log(5, 0x22);
    broken.topics[2] = word(1);
    match events.step(RouterResponse::Logs(vec![broken])) {
        RouterOutcome::Failed(error) => {
            assert_eq!(error, ResolveError::Malformed(MalformedEvent::AddressPadding))
        }
        other => panic!("expected a failure, got {:?}", other),
    }
}
