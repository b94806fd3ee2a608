use chain_inspector::addresses::system_address;
use chain_inspector::balances::{balance_table, vault_backed_ids, BalanceTable, TokenBalance};
use chain_inspector::bridgehub::{AssetRouter, BalanceError, Bridgehub, ChainBalances};
use chain_inspector::l1_asset_router::{
    asset_registration, classify_handler, plan_assets, AssetHandler, AssetResolution,
    HandlerKind, L1AssetRouter, NativeTokenVaultAsset, RegisteredAsset,
};
use chain_inspector::l2_asset_router::L2AssetRouter;
use chain_inspector::primitives::{Address, B256, U256};
use chain_inspector::remote::{Log, MalformedEvent};
use chain_inspector::stm::ChainTypeManager;
use chain_inspector::utils::{get_human_name_for, name_for_position};

fn address(fill: u8) -> Address {
    Address { bytes: [fill; 20] }
}

fn id(fill: u8) -> B256 {
    B256 { bytes: [fill; 32] }
}

fn amount(value: u64) -> U256 {
    let mut bytes = [0u8; 32];
    bytes[24..].copy_from_slice(&value.to_be_bytes());
    U256 { bytes }
}

fn topic(a: Address) -> B256 {
    let mut bytes = [0u8; 32];
    bytes[12..].copy_from_slice(&a.bytes);
    B256 { bytes }
}

fn token(asset: u8, name: &str) -> RegisteredAsset {
    RegisteredAsset {
        asset_id: id(asset),
        handler: AssetHandler::NativeTokenVault(NativeTokenVaultAsset {
            address: address(asset),
            token_name: name.to_string(),
        }),
    }
}

fn registry_backed(asset: u8) -> RegisteredAsset {
    RegisteredAsset { asset_id: id(asset), handler: AssetHandler::Bridgehub }
}

fn unknown(asset: u8) -> RegisteredAsset {
    RegisteredAsset { asset_id: id(asset), handler: AssetHandler::Other(address(0x99)) }
}

fn hub_with(assets: Vec<RegisteredAsset>, chains: Vec<u64>) -> Bridgehub {
    Bridgehub {
        address: address(0xb0),
        shared_bridge: address(0xb1),
        known_chains: chains,
        ctms: None,
        ctm_deployer: address(0xb2),
        asset_router: AssetRouter::L1(L1AssetRouter::new(address(0xb1), address(0xb3), &assets)),
    }
}

#[test]
fn names_are_picked_by_the_digest() {
    assert_eq!(get_human_name_for(&[7u8; 32]), "abrasive_middle");
    assert_eq!(get_human_name_for(&[1u8; 32]), "nine_toothpaste");
    assert_eq!(get_human_name_for(&[]), "simplistic_order");
}

#[test]
fn position_picks_one_word_from_each_list() {
    assert_eq!(name_for_position(0), "aback_able");
    assert_eq!(name_for_position(5), "abhorrent_act");
    assert_eq!(name_for_position(1123), "zonked_calculator");
    assert_eq!(name_for_position(u64::MAX), "sweltering_liquid");
}

#[test]
fn classification_tests_the_vault_first() {
    let vault = address(1);
    let hub = address(2);
    assert_eq!(classify_handler(&address(1), &vault, &hub), HandlerKind::NativeTokenVault);
    assert_eq!(classify_handler(&address(2), &vault, &hub), HandlerKind::Bridgehub);
    assert_eq!(classify_handler(&address(3), &vault, &hub), HandlerKind::Other);
    assert_eq!(classify_handler(&address(1), &vault, &vault), HandlerKind::NativeTokenVault);
}

#[test]
fn classification_is_repeatable() {
    for tracker in 0..4u8 {
        let first = classify_handler(&address(tracker), &address(1), &address(2));
        let second = classify_handler(&address(tracker), &address(1), &address(2));
        assert_eq!(first, second);
    }
}

#[test]
fn registry_backed_and_unknown_assets_need_no_reads() {
    let vault = address(1);
    let hub = address(2);
    assert_eq!(
        RegisteredAsset::new(id(5), address(2), &vault, &hub),
        AssetResolution::Done(registry_backed(5))
    );
    assert_eq!(
        RegisteredAsset::new(id(6), address(0x99), &vault, &hub),
        AssetResolution::Done(unknown(6))
    );
    assert_eq!(
        RegisteredAsset::new(id(7), address(1), &vault, &hub),
        AssetResolution::AskTokenAddress { asset_id: id(7) }
    );
}

#[test]
fn native_currency_is_named_without_asking() {
    let eth = system_address(0, 0, 1);
    assert_eq!(
        RegisteredAsset::with_token_address(id(7), eth),
        AssetResolution::Done(RegisteredAsset {
            asset_id: id(7),
            handler: AssetHandler::NativeTokenVault(NativeTokenVaultAsset {
                address: eth,
                token_name: "ETH".to_string(),
            }),
        })
    );
    assert_eq!(
        RegisteredAsset::with_token_address(id(7), address(4)),
        AssetResolution::AskTokenName { asset_id: id(7), token_address: address(4) }
    );
    assert_eq!(
        RegisteredAsset::with_token_name(id(7), address(4), "Dai".to_string()),
        RegisteredAsset {
            asset_id: id(7),
            handler: AssetHandler::NativeTokenVault(NativeTokenVaultAsset {
                address: address(4),
                token_name: "Dai".to_string(),
            }),
        }
    );
}

#[test]
fn asset_names_carry_the_token_name_for_tokens_only() {
    assert_eq!(token(7, "Dai").name(), "Dai-abrasive_middle");
    assert_eq!(registry_backed(7).name(), "abrasive_middle");
    assert_eq!(unknown(7).name(), "abrasive_middle");
    assert_eq!(token(7, "Dai").duplicate(), token(7, "Dai"));
}

#[test]
fn handlers_are_described_in_one_line() {
    assert_eq!(AssetHandler::Bridgehub.short_fmt(), "Bridgehub (STM)");
    assert_eq!(
        AssetHandler::Other(system_address(0, 0x80, 0x06)).short_fmt(),
        "Uknown 0x0000000000000000000000000000000000008006"
    );
    let dai = NativeTokenVaultAsset {
        address: system_address(0, 0, 1),
        token_name: "ETH".to_string(),
    };
    assert_eq!(
        AssetHandler::NativeTokenVault(dai).short_fmt(),
        "Token ETH 0x0000000000000000000000000000000000000001"
    );
}

#[test]
fn registration_is_read_from_the_topics() {
    let topics = vec![id(0xaa), id(5), topic(address(3))];
    assert_eq!(asset_registration(&topics), Ok((id(5), address(3))));
    assert_eq!(
        asset_registration(&vec![id(0xaa), id(5)]),
        Err(MalformedEvent::MissingTopic)
    );
    assert_eq!(
        asset_registration(&vec![id(0xaa), id(5), id(3)]),
        Err(MalformedEvent::AddressPadding)
    );
}

#[test]
fn every_registration_starts_its_own_resolution() {
    let vault = address(1);
    let hub = address(2);
    let log = |asset: u8, tracker: u8| Log {
        address: address(0xb1),
        topics: vec![id(0xaa), id(asset), topic(address(tracker))],
        data: Vec::new(),
    };
    let logs = vec![log(5, 1), log(6, 2), log(7, 3)];
    assert_eq!(
        plan_assets(&logs, &vault, &hub),
        Ok(vec![
            AssetResolution::AskTokenAddress { asset_id: id(5) },
            AssetResolution::Done(registry_backed(6)),
            AssetResolution::Done(RegisteredAsset {
                asset_id: id(7),
                handler: AssetHandler::Other(address(3)),
            }),
        ])
    );
    let mut broken = logs.clone();
    broken[1].topics.pop();
    assert_eq!(plan_assets(&broken, &vault, &hub), Err(MalformedEvent::MissingTopic));
}

#[test]
fn last_registration_of_an_id_is_kept() {
    let assets = vec![token(1, "A"), registry_backed(2), token(1, "B"), unknown(2)];
    let router = L1AssetRouter::new(address(0xb1), address(0xb3), &assets);
    assert_eq!(router.registered_assets, vec![token(1, "B"), unknown(2)]);
    assert_eq!(router.get(&id(1)), Some(&token(1, "B")));
    assert_eq!(router.get(&id(2)), Some(&unknown(2)));
    assert_eq!(router.get(&id(3)), None);
    assert_eq!(router.position(&id(2)), Some(1));
}

#[test]
fn only_vault_backed_assets_have_balances() {
    let assets = vec![registry_backed(1), token(7, "Dai"), unknown(3), token(1, "ETH")];
    assert_eq!(vault_backed_ids(&assets), vec![id(7), id(1)]);
    let table = balance_table(&assets, &vec![amount(10), amount(20)]);
    assert_eq!(
        table.entries,
        vec![
            TokenBalance { token: "Dai-abrasive_middle".to_string(), amount: amount(10) },
            TokenBalance { token: "ETH-nine_toothpaste".to_string(), amount: amount(20) },
        ]
    );
    for entry in &table.entries {
        assert!(assets
            .iter()
            .any(|a| matches!(a.handler, AssetHandler::NativeTokenVault(_))
                && a.name() == entry.token));
    }
}

#[test]
fn later_balance_of_a_name_replaces_an_earlier_one() {
    let mut table = BalanceTable::new();
    table.insert("a".to_string(), amount(1));
    table.insert("b".to_string(), amount(2));
    table.insert("a".to_string(), amount(3));
    assert_eq!(
        table.entries,
        vec![
            TokenBalance { token: "a".to_string(), amount: amount(3) },
            TokenBalance { token: "b".to_string(), amount: amount(2) },
        ]
    );
}

#[test]
fn chain_balances_need_one_amount_per_token() {
    let hub = hub_with(vec![token(7, "Dai"), registry_backed(2)], vec![270, 271]);
    assert_eq!(hub.balance_queries(), Ok(vec![id(7)]));
    assert_eq!(hub.get_chain_balances(&vec![]), Err(BalanceError::AmountCount));
    assert_eq!(
        hub.get_chain_balances(&vec![amount(1), amount(2)]),
        Err(BalanceError::AmountCount)
    );
    let table = hub.get_chain_balances(&vec![amount(5)]).unwrap();
    assert_eq!(
        table.entries,
        vec![TokenBalance { token: "Dai-abrasive_middle".to_string(), amount: amount(5) }]
    );
}

#[test]
fn every_chain_gets_its_own_table() {
    let hub = hub_with(vec![token(7, "Dai")], vec![270, 271]);
    let all = hub
        .get_all_chains_balances(&vec![vec![amount(5)], vec![amount(6)]])
        .unwrap();
    let entry = |value: u64| BalanceTable {
        entries: vec![TokenBalance {
            token: "Dai-abrasive_middle".to_string(),
            amount: amount(value),
        }],
    };
    assert_eq!(
        all,
        vec![
            ChainBalances { chain_id: 270, tokens: entry(5) },
            ChainBalances { chain_id: 271, tokens: entry(6) },
        ]
    );
    assert_eq!(
        hub.get_all_chains_balances(&vec![vec![amount(5)]]),
        Err(BalanceError::AmountCount)
    );
    assert_eq!(
        hub.get_all_chains_balances(&vec![vec![amount(5)], vec![]]),
        Err(BalanceError::AmountCount)
    );
    assert!(hub.knows_chain(271));
    assert!(!hub.knows_chain(272));
}

#[test]
fn rollup_layer_gives_no_balances() {
    let hub = Bridgehub {
        address: address(0xb0),
        shared_bridge: address(0xb1),
        known_chains: vec![270],
        ctms: None,
        ctm_deployer: address(0xb2),
        asset_router: AssetRouter::L2(L2AssetRouter::new(address(0xb1))),
    };
    assert_eq!(hub.balance_queries(), Err(BalanceError::NotImplemented));
    assert_eq!(hub.get_chain_balances(&vec![]), Err(BalanceError::NotImplemented));
    assert_eq!(
        hub.get_all_chains_balances(&vec![vec![]]),
        Err(BalanceError::NotImplemented)
    );
}

#[test]
fn unset_base_token_becomes_the_zero_address() {
    let details =
        Bridgehub::get_chain_details(address(1), None, address(2), address(3), id(4));
    assert_eq!(details.base_token_address, Address { bytes: [0; 20] });
    assert!(details.base_token_unset());
    assert_eq!(details.stm_address, address(1));
    assert_eq!(details.st_address, address(2));
    assert_eq!(details.validator_timelock_address, address(3));
    assert_eq!(details.stm_asset_id, id(4));
    let details =
        Bridgehub::get_chain_details(address(1), Some(address(9)), address(2), address(3), id(4));
    assert_eq!(details.base_token_address, address(9));
    assert!(!details.base_token_unset());
}

#[test]
fn manager_is_named_after_its_asset_id() {
    let manager = ChainTypeManager::new(address(1), address(2), address(3), address(4), id(7));
    assert_eq!(manager.asset_name, "abrasive_middle");
    assert_eq!(manager.address, address(1));
    assert_eq!(manager.bridgehub, address(2));
    assert_eq!(manager.admin, address(3));
    assert_eq!(manager.owner, address(4));
    assert_eq!(manager.asset_id, id(7));
}
