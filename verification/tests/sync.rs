use paqus_node::chain::{Block, BlockHeader, BlockSizes, Ledger, SealedHeader};
use paqus_node::ids::{Address, Amount, BlockHash, Height, Nonce, TransactionHash};
use paqus_node::mempool::mempool::Mempool;
use paqus_node::network::message::{
    ChainParams, InventoryItem, NetworkMessage, PeerInfo, RejectReason, TipInfo, VersionInfo,
};
use paqus_node::sync::book::PeerBook;
use paqus_node::sync::download::{BlockDownload, DownloadError};
use paqus_node::sync::headers::{range_request, HeaderError, HeaderSync, RangeRequest};
use paqus_node::sync::locator::block_locator;
use paqus_node::sync::parallel::{
    asks_together, assemble, choose_leader, failed_peers, is_candidate, settles_round, used_peers,
    HeightMismatch, ParallelSyncReport, RangeResult,
};
use paqus_node::sync::peer::{dedupe_peers, PeerState, SocketAddr};
use paqus_node::sync::poll::{
    ancestor_from, announcement, block_from, check_handshake, fetched_outcome, mempool_data,
    mempool_request, parents_outcome, peers_from, plan_fetch, poll_step, tip_from, PeerPoll,
    PollStep, SyncPlan,
};
use paqus_node::sync::ranges::{plan_parallel_ranges, Candidate, FetchStage, RangeFetch};

fn addr(last: u32) -> SocketAddr {
    SocketAddr::V4 {
        ip: 0x0a00_0000 + last,
        port: 5555,
    }
}

fn params() -> ChainParams {
    ChainParams {
        protocol_version: 1,
        chain_id: 77,
        chain_name: "paqus".to_string(),
        protocol_stage: "test".to_string(),
        pow_algorithm: "pow".to_string(),
        difficulty_algorithm: "asert".to_string(),
        network_magic: [1, 2, 3, 4],
    }
}

fn hash_at(height: u64) -> BlockHash {
    let mut bytes = [7u8; 32];
    bytes[..8].copy_from_slice(&height.to_be_bytes());
    BlockHash(bytes)
}

fn block(height: u64) -> Block {
    Block {
        header: BlockHeader {
            version: 1,
            height: Height(height),
            previous_hash: hash_at(height.wrapping_sub(1)),
            merkle_root: [0; 32],
            witness_root: [0; 32],
            state_root: [0; 32],
            miner_address: Address([9; 20]),
            difficulty: 1,
            timestamp: 1_000 + height,
            nonce: Nonce(0),
        },
        hash: hash_at(height),
        coinbase: None,
        genesis_allocations: vec![],
        transactions: vec![],
        qcash_transactions: vec![],
        total_fees: Some(Amount(0)),
        sizes: BlockSizes {
            serialized: 10,
            stripped: 8,
            witness: 2,
            weight: 34,
        },
    }
}

fn sealed(height: u64) -> SealedHeader {
    let block = block(height);
    SealedHeader {
        header: block.header,
        hash: block.hash,
    }
}

#[test]
fn own_addresses_loop_back() {
    assert!(SocketAddr::V4 { ip: 0x7f01_0203, port: 1 }.is_loopback());
    assert!(!addr(1).is_loopback());
    let v6 = |ip| SocketAddr::V6 {
        ip,
        port: 1,
        flowinfo: 0,
        scope_id: 0,
    };
    assert!(v6(1).is_loopback());
    assert!(!v6(0).is_loopback());
    let mut peers = vec![addr(2), addr(1), addr(2)];
    dedupe_peers(&mut peers);
    assert_eq!(peers, vec![addr(2), addr(1)]);
}

#[test]
fn retries_back_off() {
    let mut state = PeerState::new(addr(1), 0);
    let mut waits = Vec::new();
    for _ in 0..7 {
        state.mark_failed(0);
        waits.push(state.next_attempt);
    }
    assert_eq!(
        waits,
        vec![2_000, 4_000, 8_000, 16_000, 32_000, 60_000, 60_000]
    );
    assert_eq!(state.failures, 7);
    assert_eq!(state.sync_window, 32);
    state.mark_ok(Some(Height(4)), 10);
    assert_eq!(state.failures, 0);
    assert_eq!(state.last_tip, Some(Height(4)));
}

#[test]
fn full_batches_widen_the_window() {
    let mut state = PeerState::new(addr(1), 0);
    assert_eq!(state.sync_window, 64);
    state.mark_synced(Height(9), 63, 0);
    assert_eq!(state.sync_window, 64);
    for expected in [128, 256, 256] {
        state.mark_synced(Height(9), 256, 0);
        assert_eq!(state.sync_window, expected);
    }
}

#[test]
fn headers_link_up() {
    let mut sync = HeaderSync::begin(Height(5), 38, hash_at(4));
    assert_eq!(
        sync.request(),
        Some(RangeRequest {
            start: Height(5),
            limit: 32,
        })
    );
    sync.accept(Some((5..37).map(sealed).collect())).unwrap();
    assert_eq!(
        sync.request(),
        Some(RangeRequest {
            start: Height(37),
            limit: 2,
        })
    );
    sync.accept(Some((37..39).map(sealed).collect())).unwrap();
    assert_eq!(sync.request(), None);
    let headers = sync.finish();
    assert_eq!(headers.len(), 34);
    assert_eq!(headers[33], sealed(38));
}

#[test]
fn bad_headers_are_named() {
    let begin = || HeaderSync::begin(Height(5), 9, hash_at(4));
    assert_eq!(
        begin().accept(None),
        Err(HeaderError::NoHeaders { start: 5 })
    );
    assert_eq!(
        begin().accept(Some(vec![])),
        Err(HeaderError::EmptyRange { start: 5 })
    );
    assert_eq!(
        begin().accept(Some(vec![sealed(6)])),
        Err(HeaderError::WrongHeight {
            got: 6,
            expected: 5,
        })
    );
    let mut orphan = sealed(5);
    orphan.header.previous_hash = BlockHash([0xab; 32]);
    let error = begin().accept(Some(vec![orphan])).unwrap_err();
    assert_eq!(
        error.message(),
        format!(
            "peer returned header 5 with unexpected parent {}",
            "ab".repeat(32)
        )
    );
    assert_eq!(
        HeaderError::NoHeaders { start: 5 }.message(),
        "peer did not return header range starting at height 5"
    );
    assert_eq!(
        HeaderError::EmptyRange { start: 5 }.message(),
        "peer returned empty header range starting at height 5"
    );
    assert_eq!(
        HeaderError::WrongHeight {
            got: 6,
            expected: 5
        }
        .message(),
        "peer returned header height 6 while syncing height 5"
    );
}

#[test]
fn batches_stop_at_the_target() {
    assert_eq!(range_request(9, 8), None);
    assert_eq!(
        range_request(8, 8),
        Some(RangeRequest {
            start: Height(8),
            limit: 1,
        })
    );
}

#[test]
fn blocks_match_their_headers() {
    let headers = || (5..8).map(sealed).collect::<Vec<_>>();
    let mut download = BlockDownload::begin(Height(5), 7, headers());
    download.accept(Some(vec![block(5), block(6)])).unwrap();
    assert_eq!(
        download.request(),
        Some(RangeRequest {
            start: Height(7),
            limit: 1,
        })
    );
    download.accept(Some(vec![block(7)])).unwrap();
    assert_eq!(download.request(), None);
    assert_eq!(download.finish(), vec![block(5), block(6), block(7)]);

    let begin = || BlockDownload::begin(Height(5), 7, headers());
    assert_eq!(
        begin().accept(None),
        Err(DownloadError::NoBlocks { start: 5 })
    );
    assert_eq!(
        begin().accept(Some(vec![])),
        Err(DownloadError::EmptyRange { start: 5 })
    );
    assert_eq!(
        begin().accept(Some(vec![block(6)])),
        Err(DownloadError::WrongHeight {
            got: 6,
            expected: 5,
        })
    );
    let mut forged = block(5);
    forged.header.timestamp += 1;
    let error = begin().accept(Some(vec![forged])).unwrap_err();
    assert_eq!(error, DownloadError::WrongHeader { height: 5 });
    assert_eq!(
        error.message(),
        "peer returned block 5 that does not match its prevalidated header"
    );
    let mut short = BlockDownload::begin(Height(5), 7, vec![]);
    let error = short.accept(Some(vec![block(5)])).unwrap_err();
    assert_eq!(error, DownloadError::NoHeader { height: 5 });
    assert_eq!(
        error.message(),
        "peer returned block 5 without a prevalidated header"
    );
}

#[test]
fn a_locator_spans_the_chain() {
    let mut ledger = Ledger::new(Amount(0));
    assert!(block_locator(&ledger).is_empty());
    for height in 0..30 {
        ledger.put_block(block(height));
    }
    let heights: Vec<u64> = block_locator(&ledger)
        .iter()
        .map(|hash| u64::from_be_bytes(hash.0[..8].try_into().unwrap()))
        .collect();
    assert_eq!(
        heights,
        vec![29, 28, 27, 26, 25, 24, 23, 22, 21, 20, 19, 17, 13, 5, 0]
    );
}

fn candidate(last: u32, tip: u64) -> Candidate {
    Candidate {
        addr: addr(last),
        tip: Height(tip),
    }
}

#[test]
fn shares_cover_the_download_once() {
    let headers: Vec<SealedHeader> = (1..=10).map(sealed).collect();
    let candidates = vec![candidate(1, 10), candidate(2, 20), candidate(3, 30)];
    let ranges = plan_parallel_ranges(Height(1), 10, &headers, &candidates);
    let mut next = 1;
    for range in &ranges {
        assert_eq!(range.start, Height(next));
        assert_eq!(range.headers.len() as u64, range.target + 1 - next);
        assert_eq!(range.headers[0], sealed(next));
        next = range.target + 1;
    }
    assert_eq!(next, 11);
}

#[test]
fn stand_ins_take_over_in_turn() {
    let headers: Vec<SealedHeader> = (1..=10).map(sealed).collect();
    let candidates = vec![candidate(1, 10), candidate(2, 4), candidate(3, 30)];
    let ranges = plan_parallel_ranges(Height(1), 10, &headers, &candidates);
    let last = ranges.last().unwrap();
    let mut fetch = RangeFetch::new(last, &candidates);
    let mut tried = Vec::new();
    while let Some(peer) = fetch.current() {
        tried.push(peer);
        fetch.record_failure(FetchStage::Download, "p", "boom");
    }
    assert!(!tried[1..].contains(&addr(2)));
    assert_eq!(fetch.failed_peers(), tried);
    assert!(fetch.give_up().ends_with("from p failed: boom"));
    let untried = RangeFetch::new(last, &candidates);
    assert!(untried.give_up().starts_with("no peer could download range "));
}

#[test]
fn the_last_of_the_highest_leads() {
    assert_eq!(choose_leader(&vec![]), None);
    assert_eq!(
        choose_leader(&vec![candidate(1, 9), candidate(2, 9), candidate(3, 8)]),
        Some(candidate(2, 9))
    );
    assert!(is_candidate(Height(3), 2));
    assert!(!is_candidate(Height(2), 2));
}

#[test]
fn shares_are_put_together_in_order() {
    let share = |start: u64, peer: u32, heights: std::ops::Range<u64>, failed: Vec<SocketAddr>| {
        RangeResult {
            start,
            peer: addr(peer),
            blocks: heights.map(block).collect(),
            failed,
        }
    };
    let results = vec![
        share(4, 2, 4..6, vec![addr(3)]),
        share(1, 1, 1..4, vec![addr(2)]),
    ];
    let plan = assemble(&results, Height(1));
    assert_eq!(plan.mismatch, None);
    assert_eq!(plan.blocks, (1..6).map(block).collect::<Vec<_>>());
    assert_eq!(used_peers(&results), vec![addr(2), addr(1)]);
    assert_eq!(failed_peers(&results), vec![addr(3)]);
    let report = ParallelSyncReport::of(Height(9), plan.blocks.len(), &results);
    assert_eq!(report.remote_tip, Height(9));
    assert_eq!(report.applied_blocks, 5);
    assert_eq!(report.used_peers, 2);
    assert_eq!(report.failed_peer_addrs, vec![addr(3)]);
    assert!(settles_round(&Ok(report)));
    assert!(!settles_round(&Ok(ParallelSyncReport::idle(Height(9)))));
    assert!(!settles_round(&Err("x".to_string())));
    assert!(asks_together(2));
    assert!(!asks_together(1));
    let gap = assemble(&vec![share(1, 1, 1..2, vec![]), share(5, 1, 5..6, vec![])], Height(1));
    assert_eq!(gap.blocks, vec![block(1)]);
    let mismatch = gap.mismatch.unwrap();
    assert_eq!(
        mismatch,
        HeightMismatch {
            got: 5,
            expected: 2,
        }
    );
    assert_eq!(
        mismatch.message(),
        "parallel sync downloaded height 5 while applying height 2"
    );
}

#[test]
fn whole_shares_fit_together_in_any_order() {
    let headers: Vec<SealedHeader> = (5..=104).map(sealed).collect();
    let candidates = vec![candidate(1, 200), candidate(2, 300)];
    let ranges = plan_parallel_ranges(Height(5), 104, &headers, &candidates);
    assert_eq!(ranges.len(), 4);
    let results: Vec<RangeResult> = [2, 0, 3, 1]
        .iter()
        .map(|i| RangeResult {
            start: ranges[*i].start.0,
            peer: ranges[*i].peer,
            blocks: (ranges[*i].start.0..=ranges[*i].target).map(block).collect(),
            failed: vec![],
        })
        .collect();
    let plan = assemble(&results, Height(5));
    assert_eq!(plan.mismatch, None);
    assert_eq!(plan.blocks, (5..=104).map(block).collect::<Vec<_>>());
}

#[test]
fn greetings_are_judged() {
    let local = VersionInfo::local(&params(), None);
    assert_eq!(
        check_handshake(&NetworkMessage::VerAck(local.clone()), &params()),
        Ok(())
    );
    let mut other = local;
    other.chain_id = 3;
    assert_eq!(
        check_handshake(&NetworkMessage::VerAck(other), &params()),
        Err("peer returned incompatible version: ChainMismatch".to_string())
    );
    assert_eq!(
        check_handshake(
            &NetworkMessage::Reject {
                reason: RejectReason::InvalidMessage,
                message: "no".to_string(),
            },
            &params()
        ),
        Err("peer rejected handshake: InvalidMessage: no".to_string())
    );
    assert_eq!(
        check_handshake(&NetworkMessage::GetTip, &params()),
        Err("peer returned unexpected handshake response".to_string())
    );
    assert_eq!(announcement(&vec![]), None);
    assert_eq!(
        announcement(&vec!["a:1".to_string()]),
        Some(NetworkMessage::Peers(vec![PeerInfo {
            address: "a:1".to_string(),
        }]))
    );
}

#[test]
fn answers_are_read_or_refused() {
    let tip = TipInfo {
        height: Height(4),
        hash: hash_at(4),
    };
    assert_eq!(tip_from(&NetworkMessage::Tip(tip)), Ok(Height(4)));
    assert_eq!(
        tip_from(&NetworkMessage::GetTip),
        Err("peer returned unexpected tip response".to_string())
    );
    assert_eq!(
        peers_from(NetworkMessage::Peers(vec![])),
        Ok(vec![])
    );
    assert_eq!(
        peers_from(NetworkMessage::GetTip),
        Err("peer returned unexpected peers response".to_string())
    );
    assert_eq!(
        ancestor_from(&NetworkMessage::CommonAncestor(Some(tip))),
        Ok(tip)
    );
    assert_eq!(
        ancestor_from(&NetworkMessage::CommonAncestor(None)),
        Err("peer did not find a common ancestor from local locator".to_string())
    );
    assert_eq!(
        ancestor_from(&NetworkMessage::GetTip),
        Err("peer returned unexpected common ancestor response".to_string())
    );
    assert_eq!(
        block_from(NetworkMessage::Block(block(2)), &hash_at(2)),
        Ok(block(2))
    );
    assert_eq!(
        block_from(NetworkMessage::GetTip, &BlockHash([0x5a; 32])),
        Err(format!(
            "peer did not return block hash {}",
            "5a".repeat(32)
        ))
    );
}

#[test]
fn plans_are_bounded() {
    assert_eq!(
        plan_fetch(Height(1_000), Height(10), 64),
        Some(SyncPlan {
            start: Height(11),
            target: 74,
        })
    );
    assert_eq!(
        plan_fetch(Height(1_000), Height(10), 9_999),
        Some(SyncPlan {
            start: Height(11),
            target: 266,
        })
    );
    assert_eq!(
        plan_fetch(Height(12), Height(10), 1),
        Some(SyncPlan {
            start: Height(11),
            target: 12,
        })
    );
    assert_eq!(plan_fetch(Height(10), Height(10), 64), None);
    assert_eq!(poll_step(Height(5), 5), PollStep::AskForParents);
    assert_eq!(poll_step(Height(6), 5), PollStep::AskForAncestor);
}

#[test]
fn rounds_have_outcomes() {
    assert_eq!(
        parents_outcome(Height(5), true),
        PeerPoll::Synced {
            remote_tip: Height(5),
            synced_blocks: 0,
        }
    );
    assert_eq!(
        parents_outcome(Height(5), false),
        PeerPoll::Idle {
            remote_tip: Height(5),
        }
    );
    assert_eq!(
        fetched_outcome(
            Height(9),
            &SyncPlan {
                start: Height(3),
                target: 6,
            }
        ),
        PeerPoll::Synced {
            remote_tip: Height(9),
            synced_blocks: 4,
        }
    );
}

#[test]
fn mempools_are_compared() {
    let mempool = Mempool::new();
    let offered = vec![
        InventoryItem::Transaction(TransactionHash([1; 32])),
        InventoryItem::Block(hash_at(1)),
    ];
    let wanted = mempool_request(&mempool, NetworkMessage::Inventory(offered)).unwrap();
    assert_eq!(
        wanted,
        Some(NetworkMessage::GetData(vec![InventoryItem::Transaction(
            TransactionHash([1; 32])
        )]))
    );
    assert_eq!(
        mempool_request(&mempool, NetworkMessage::Inventory(vec![])),
        Ok(None)
    );
    assert!(mempool_request(&mempool, NetworkMessage::GetTip).is_err());
    assert_eq!(
        mempool_data(NetworkMessage::Transactions(vec![])),
        Ok(vec![])
    );
    assert!(mempool_data(NetworkMessage::GetTip).is_err());
}

#[test]
fn a_book_keeps_track_of_peers() {
    let mut book = PeerBook::new();
    book.discover(&vec![Some(addr(2)), None, Some(addr(1)), Some(addr(2))], 5);
    assert_eq!(book.len(), 2);
    assert_eq!(book.addresses(), vec![addr(1), addr(2)]);
    assert_eq!(book.due(4), vec![]);
    assert_eq!(book.due(5), vec![addr(1), addr(2)]);
    assert!(book.nobody_answered());
    book.record_poll(
        &addr(1),
        &PeerPoll::Synced {
            remote_tip: Height(9),
            synced_blocks: 64,
        },
        5,
    );
    assert!(!book.nobody_answered());
    assert!(book.anyone_ahead(8));
    assert!(!book.anyone_ahead(9));
    assert_eq!(book.sync_window(&addr(1)), 128);
    assert_eq!(book.sync_window(&addr(7)), 64);
    assert_eq!(book.widest_window(&vec![addr(1), addr(2)]), 128);
    assert!(!book.should_connect(&addr(2), true, 5));
    assert!(book.should_connect(&addr(2), false, 5));
    book.record_failure(&addr(2), 5);
    assert!(!book.should_connect(&addr(2), false, 6));
    assert_eq!(book.get(&addr(2)).unwrap().failures, 1);
    assert!(!book.record_failed_service_round(&addr(2), 5));
    assert!(book.record_failed_service_round(&addr(2), 5));
    assert_eq!(book.get(&addr(2)), None);
}

#[test]
fn network_rounds_forgive_one_failure_more() {
    let mut book = PeerBook::new();
    book.discover(&vec![Some(addr(1))], 5);
    for failures in 1..=3 {
        assert!(!book.record_failed_network_round(&addr(1), 5));
        assert_eq!(book.get(&addr(1)).unwrap().failures, failures);
    }
    assert!(book.record_failed_network_round(&addr(1), 5));
    assert_eq!(book.len(), 0);
    assert!(!book.record_failed_network_round(&addr(1), 5));
}

#[test]
fn introductions_stop_at_the_limit_and_skip_oneself() {
    let mut book = PeerBook::new();
    let changed = book.add_peer_infos(
        &vec![Some(addr(1)), Some(addr(2)), None, Some(addr(3)), Some(addr(4))],
        &vec![addr(1)],
        &vec![addr(3)],
        1,
        0,
    );
    assert!(changed);
    assert_eq!(book.addresses(), vec![addr(2)]);
    assert!(!book.add_peer_infos(&vec![Some(addr(5))], &vec![], &vec![], 1, 0));
}

#[test]
fn parallel_rounds_are_recorded() {
    let mut book = PeerBook::new();
    book.discover(&vec![Some(addr(1)), Some(addr(2))], 0);
    let mut report = ParallelSyncReport::idle(Height(50));
    report.applied_blocks = 10;
    report.used_peers = 1;
    report.used_peer_addrs = vec![addr(1)];
    report.failed_peer_addrs = vec![addr(2)];
    book.record_parallel(&report, 0);
    assert_eq!(book.get(&addr(1)).unwrap().last_tip, Some(Height(50)));
    assert_eq!(book.get(&addr(2)).unwrap().failures, 1);
}
