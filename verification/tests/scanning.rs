use chain_inspector::priority_transactions::{
    fetch_all_priority_transactions, NotOnBaseLayer, PRIORITY_SCAN_DEPTH,
};
use chain_inspector::primitives::Address;
use chain_inspector::scanner::{BlockWindow, EventScan, BLOCKS_PER_CALL};
use chain_inspector::sequencer::{
    parse_chain_id, pick_bridgehub, DiscoveryError, L2SequencerInfo, Sequencer, SequencerType,
};

fn windows(mut scan: EventScan) -> Vec<(u64, u64)> {
    let mut out = Vec::new();
    while let Some(BlockWindow { from_block, to_block }) = scan.next_window() {
        out.push((from_block, to_block));
    }
    assert_eq!(scan.next_window(), None);
    out
}

#[test]
fn full_scan_covers_every_block_once() {
    for head in 0..60u64 {
        for window in 1..12u64 {
            let issued = windows(EventScan::start(head, window, None));
            assert_eq!(issued.len() as u64, (head + window - 1) / window);
            let mut expected_end = head;
            for (from, to) in &issued {
                assert_eq!(*to, expected_end);
                assert!(1 <= *from && *from <= *to);
                assert!(*to - *from + 1 <= window);
                expected_end = *from - 1;
            }
            assert_eq!(expected_end, 0);
        }
    }
}

#[test]
fn windows_run_from_the_head_down_to_block_one() {
    assert_eq!(
        windows(EventScan::start(1234, 500, None)),
        vec![(735, 1234), (235, 734), (1, 234)]
    );
    assert_eq!(windows(EventScan::start(1000, 500, None)), vec![(501, 1000), (1, 500)]);
    assert_eq!(windows(EventScan::start(500, 500, None)), vec![(1, 500)]);
    assert_eq!(windows(EventScan::start(1, 500, None)), vec![(1, 1)]);
}

#[test]
fn empty_chain_needs_no_window() {
    assert_eq!(windows(EventScan::start(0, 500, None)), vec![]);
    assert_eq!(windows(EventScan::start(0, 500, Some(5000))), vec![]);
}

#[test]
fn depth_limit_allows_one_window_more_than_it_covers() {
    assert_eq!(
        windows(EventScan::start(100_000, 500, Some(1000))),
        vec![(99_501, 100_000), (99_001, 99_500), (98_501, 99_000)]
    );
    assert_eq!(
        windows(EventScan::start(100_000, 500, Some(1001))),
        vec![
            (99_501, 100_000),
            (99_001, 99_500),
            (98_501, 99_000),
            (98_001, 98_500)
        ]
    );
    assert_eq!(windows(EventScan::start(100_000, 500, Some(0))), vec![(99_501, 100_000)]);
}

#[test]
fn depth_limit_beyond_the_history_changes_nothing() {
    assert_eq!(
        windows(EventScan::start(1234, 500, Some(5000))),
        windows(EventScan::start(1234, 500, None))
    );
    assert_eq!(
        windows(EventScan::start(7, 1, Some(u64::MAX))),
        windows(EventScan::start(7, 1, None))
    );
}

#[test]
fn last_window_is_clamped_at_block_one() {
    let issued = windows(EventScan::start(u64::MAX, u64::MAX - 1, None));
    assert_eq!(issued, vec![(2, u64::MAX), (1, 1)]);
    let issued = windows(EventScan::start(3, u64::MAX, None));
    assert_eq!(issued, vec![(1, 3)]);
}

#[test]
fn priority_messages_are_scanned_on_the_base_layer_only() {
    assert_eq!(BLOCKS_PER_CALL, 500);
    assert_eq!(PRIORITY_SCAN_DEPTH, 5000);
    let scan =
        fetch_all_priority_transactions(&SequencerType::L1, 20_000, Some(PRIORITY_SCAN_DEPTH))
            .unwrap();
    let issued = windows(scan);
    assert_eq!(issued.len(), 11);
    assert_eq!(issued[0], (19_501, 20_000));
    assert_eq!(issued[10], (14_501, 15_000));
    let rollup = SequencerType::L2(L2SequencerInfo {
        l1_chain_id: 9,
        bridgehub_address: Address { bytes: [1; 20] },
    });
    assert_eq!(
        fetch_all_priority_transactions(&rollup, 20_000, None).map(windows),
        Err(NotOnBaseLayer)
    );
}

#[test]
fn chain_id_is_read_from_hexadecimal_text() {
    assert_eq!(parse_chain_id("0x9"), Some(9));
    assert_eq!(parse_chain_id("0x10e"), Some(270));
    assert_eq!(parse_chain_id("10E"), Some(270));
    assert_eq!(parse_chain_id("0x0x1f"), Some(31));
    assert_eq!(parse_chain_id("+a"), Some(10));
    assert_eq!(parse_chain_id("0x+a"), Some(10));
    assert_eq!(parse_chain_id("0"), Some(0));
    assert_eq!(parse_chain_id("ffffffffffffffff"), Some(u64::MAX));
    assert_eq!(parse_chain_id("0x00000000000000000000000000000001"), Some(1));
}

#[test]
fn chain_id_text_must_be_digits_that_fit() {
    assert_eq!(parse_chain_id(""), None);
    assert_eq!(parse_chain_id("0x"), None);
    assert_eq!(parse_chain_id("+"), None);
    assert_eq!(parse_chain_id("0xg"), None);
    assert_eq!(parse_chain_id("0X1"), None);
    assert_eq!(parse_chain_id("-1"), None);
    assert_eq!(parse_chain_id(" 1"), None);
    assert_eq!(parse_chain_id("1 "), None);
    assert_eq!(parse_chain_id("++1"), None);
    assert_eq!(parse_chain_id("10000000000000000"), None);
}

#[test]
fn chain_id_parsing_agrees_with_the_standard_library() {
    for text in ["0x9", "0x0x1f", "+a", "", "0x", "+", "0xg", "-1", "ffffffffffffffff", "1ffffffffffffffff"] {
        let expected = u64::from_str_radix(text.trim_start_matches("0x"), 16).ok();
        assert_eq!(parse_chain_id(text), expected, "{:?}", text);
    }
}

#[test]
fn registry_root_is_taken_from_the_gateway_first() {
    let endpoint = |kind: SequencerType| Sequencer {
        rpc_url: "http://127.0.0.1:3050".to_string(),
        chain_id: 270,
        latest_block: 1,
        sequencer_type: kind,
    };
    let rollup = |fill: u8| {
        endpoint(SequencerType::L2(L2SequencerInfo {
            l1_chain_id: 9,
            bridgehub_address: Address { bytes: [fill; 20] },
        }))
    };
    let gateway = rollup(1);
    let client = rollup(2);
    let base = endpoint(SequencerType::L1);
    assert_eq!(pick_bridgehub(Some(&gateway), Some(&client)), Ok(Address { bytes: [1; 20] }));
    assert_eq!(pick_bridgehub(Some(&gateway), None), Ok(Address { bytes: [1; 20] }));
    assert_eq!(pick_bridgehub(None, Some(&client)), Ok(Address { bytes: [2; 20] }));
    assert_eq!(pick_bridgehub(Some(&base), Some(&client)), Err(DiscoveryError::NotARollup));
    assert_eq!(pick_bridgehub(None, Some(&base)), Err(DiscoveryError::NotARollup));
    assert_eq!(pick_bridgehub(None, None), Err(DiscoveryError::NoRollupEndpoint));
}
