use paqus_node::chain::{Block, BlockHeader, BlockSizes};
use paqus_node::command::config::RunConfig;
use paqus_node::ids::{Address, Amount, BlockHash, Height, Nonce};
use paqus_node::network::message::{InventoryItem, NetworkMessage, PeerInfo};
use paqus_node::service::{
    activity, announced_item, gateway_address, inbound_message_log, inbound_step,
    is_peer_stream_closed,
    mempool_config, mining_wait_reason, peer_infos, plan_gateway_round, preflight,
    prepare_startup, requires_peer_sync, rpc_is_public, sleeps_between_rounds, wants_item,
    ActivityLog, InboundStep, NodeActivity, NodeSituation, ServiceClock, StreamFault,
};
use paqus_node::sync::peer::SocketAddr;

fn addr(last: u32) -> SocketAddr {
    SocketAddr::V4 {
        ip: 0x0a00_0000 + last,
        port: 5555,
    }
}

fn block() -> Block {
    Block {
        header: BlockHeader {
            version: 1,
            height: Height(4),
            previous_hash: BlockHash([0; 32]),
            merkle_root: [0; 32],
            witness_root: [0; 32],
            state_root: [0; 32],
            miner_address: Address([9; 20]),
            difficulty: 1,
            timestamp: 1_000,
            nonce: Nonce(0),
        },
        hash: BlockHash([7; 32]),
        coinbase: None,
        genesis_allocations: vec![],
        transactions: vec![],
        qcash_transactions: vec![],
        total_fees: Some(Amount(0)),
        sizes: BlockSizes {
            serialized: 10,
            stripped: 8,
            witness: 2,
            weight: 34,
        },
    }
}

fn quiet() -> NodeSituation {
    NodeSituation {
        peer_count: 0,
        has_gateway: false,
        pending_sync: false,
        needs_handshake: false,
        peer_ahead: false,
        mining: false,
        mempool_len: 0,
    }
}

#[test]
fn activities_follow_the_situation() {
    assert_eq!(activity(&quiet()), NodeActivity::ServingPeers);
    assert_eq!(
        activity(&NodeSituation {
            has_gateway: true,
            ..quiet()
        }),
        NodeActivity::WaitingForPeers
    );
    assert_eq!(
        activity(&NodeSituation {
            peer_ahead: true,
            mining: true,
            ..quiet()
        }),
        NodeActivity::Syncing
    );
    assert_eq!(
        activity(&NodeSituation {
            mining: true,
            ..quiet()
        }),
        NodeActivity::WaitingForTransactions
    );
    assert_eq!(
        activity(&NodeSituation {
            mining: true,
            mempool_len: 1,
            ..quiet()
        }),
        NodeActivity::Mining
    );
    assert_eq!(
        activity(&NodeSituation {
            peer_count: 1,
            ..quiet()
        }),
        NodeActivity::Syncing
    );
}

#[test]
fn mining_waits_for_a_reason() {
    assert_eq!(mining_wait_reason(&quiet()), None);
    let waiting = |s: NodeSituation| {
        assert_ne!(activity(&s), NodeActivity::Mining);
        mining_wait_reason(&s)
    };
    assert_eq!(
        waiting(NodeSituation {
            pending_sync: true,
            needs_handshake: true,
            peer_ahead: true,
            mining: true,
            mempool_len: 2,
            ..quiet()
        }),
        Some("sync_pending")
    );
    assert_eq!(
        waiting(NodeSituation {
            needs_handshake: true,
            peer_ahead: true,
            ..quiet()
        }),
        Some("handshake_pending")
    );
    assert_eq!(
        waiting(NodeSituation {
            peer_ahead: true,
            ..quiet()
        }),
        Some("peer_ahead")
    );
    assert!(requires_peer_sync(true, 1, false));
    assert!(requires_peer_sync(true, 0, true));
    assert!(!requires_peer_sync(true, 0, false));
    assert!(!requires_peer_sync(false, 1, true));
}

#[test]
fn activities_are_noted_when_new_or_old() {
    let mut log = ActivityLog {
        last_activity: NodeActivity::Starting,
        last_noted: 0,
    };
    assert!(log.note(NodeActivity::Mining, 10));
    assert!(!log.note(NodeActivity::Mining, 11));
    assert!(log.note(NodeActivity::Syncing, 12));
    assert!(log.note(NodeActivity::Syncing, 10_000_000));
    assert_eq!(log.last_noted, 10_000_000);
}

#[test]
fn work_falls_due() {
    let config = RunConfig {
        mine: true,
        mine_interval: 5,
        gateway_heartbeat: 60,
        ..RunConfig::default()
    };
    let clock = ServiceClock::start(100_000, config.gateway_heartbeat);
    let due = clock.due(100_000, &config);
    assert!(due.gateway);
    assert!(!due.mine);
    assert!(!due.status);
    assert!(clock.due(105_000, &config).mine);
    assert!(!clock.due(104_999, &config).mine);
    let idle = RunConfig {
        mine: false,
        ..config
    };
    assert!(!clock.due(999_000, &idle).mine);
    assert!(clock.due(9_999_000, &idle).status);
    assert!(sleeps_between_rounds(false, 0));
    assert!(sleeps_between_rounds(true, 3));
    assert!(!sleeps_between_rounds(true, 0));
}

#[test]
fn a_start_is_refused_for_a_reason() {
    let miner = Address([1; 20]);
    let other = Some(Address([2; 20]));
    assert_eq!(
        preflight(Some("/stop"), &Ok(1), true, other, &miner, "m"),
        Err("shutdown file `/stop` exists; remove it before starting the node".to_string())
    );
    assert_eq!(
        preflight(None, &Err("no tip".to_string()), true, other, &miner, "m"),
        Err("failed to calculate next difficulty: no tip".to_string())
    );
    assert_eq!(
        preflight(None, &Ok(1), true, other, &miner, "m"),
        Err("miner secret key does not match miner address m".to_string())
    );
    assert_eq!(preflight(None, &Ok(1), false, other, &miner, "m"), Ok(()));
    assert_eq!(
        preflight(None, &Ok(1), true, Some(miner), &miner, "m"),
        Ok(())
    );
}

#[test]
fn startup_joins_and_cuts_the_peers() {
    let config = RunConfig {
        peers: vec![addr(1), addr(2)],
        max_peers: 3,
        ..RunConfig::default()
    };
    let ready = prepare_startup(config, vec![addr(2), addr(3), addr(4)]).unwrap();
    assert_eq!(ready.peers, vec![addr(1), addr(2), addr(3)]);
    let deaf = RunConfig {
        listen_addrs: vec![],
        ..RunConfig::default()
    };
    assert_eq!(
        prepare_startup(deaf, vec![]),
        Err("at least one --listen address is required".to_string())
    );
}

#[test]
fn the_mempool_is_configured() {
    let config = RunConfig {
        min_relay_fee: 3,
        market_fee: 4,
        low_fee_expiry: 5,
        mempool_expiry: 6,
        ..RunConfig::default()
    };
    let settings = mempool_config(&config);
    assert_eq!(settings.min_relay_fee, 3);
    assert_eq!(settings.market_fee, 4);
    assert_eq!(settings.low_fee_ttl_secs, 5);
    assert_eq!(settings.transaction_ttl_secs, 6);
    assert_eq!(settings.max_transactions, 1_000);
}

#[test]
fn blocks_are_offered_before_they_are_sent() {
    let item = InventoryItem::Block(BlockHash([7; 32]));
    assert_eq!(
        announced_item(&NetworkMessage::Block(block())),
        Some(item)
    );
    assert_eq!(announced_item(&NetworkMessage::GetTip), None);
    assert!(wants_item(&NetworkMessage::GetData(vec![item]), &item));
    assert!(!wants_item(&NetworkMessage::GetData(vec![]), &item));
    assert!(!wants_item(
        &NetworkMessage::GetData(vec![InventoryItem::Block(BlockHash([8; 32]))]),
        &item
    ));
    assert!(!wants_item(&NetworkMessage::GetTip, &item));
    assert_eq!(
        inbound_message_log(&NetworkMessage::Block(block()), "1.2.3.4:5"),
        Some(
            "received block height 4 from 1.2.3.4:5 |hash::07070707..07070707|txs::0|".to_string()
        )
    );
    assert_eq!(inbound_message_log(&NetworkMessage::GetTip, "p"), None);
}

#[test]
fn some_faults_only_mean_that_a_peer_is_gone() {
    assert!(is_peer_stream_closed(StreamFault::UnexpectedEof));
    assert!(is_peer_stream_closed(StreamFault::BrokenPipe));
    assert!(!is_peer_stream_closed(StreamFault::OtherIo));
    assert!(!is_peer_stream_closed(StreamFault::BadMessage));
}

#[test]
fn peers_are_told_in_order() {
    let text = |s: &str| s.to_string();
    let infos: Vec<String> = peer_infos(
        &vec![text("b"), text("a"), text("c")],
        &vec![text("b"), text("aa")],
    )
    .into_iter()
    .map(|info| info.address)
    .collect();
    assert_eq!(infos, vec!["a", "aa", "b", "c"]);
}

#[test]
fn the_gateway_is_asked_for_what_is_free() {
    let round = plan_gateway_round(&vec![], &vec![addr(9)], true, 10, 7);
    assert!(round.warn);
    assert_eq!(round.ask_for, 3);
    assert_eq!(round.exclude, Some(addr(9)));
    let full = plan_gateway_round(&vec![addr(1)], &vec![addr(9)], true, 10, 12);
    assert!(!full.warn);
    assert_eq!(full.ask_for, 0);
    assert_eq!(full.exclude, Some(addr(1)));
    assert_eq!(full.announce, vec![addr(1)]);
    assert_eq!(gateway_address(&vec![addr(1)], Some(addr(2)), addr(3)), addr(1));
    assert_eq!(gateway_address(&vec![], Some(addr(2)), addr(3)), addr(2));
    assert_eq!(gateway_address(&vec![], None, addr(3)), addr(3));
    assert!(rpc_is_public(&addr(1)));
    assert!(!rpc_is_public(&SocketAddr::V4 {
        ip: 0x7f00_0001,
        port: 6666,
    }));
}

#[test]
fn messages_about_peers_need_no_node() {
    assert_eq!(
        inbound_step(NetworkMessage::GetPeers),
        InboundStep::TellPeers
    );
    let infos = vec![PeerInfo {
        address: "a:1".to_string(),
    }];
    assert_eq!(
        inbound_step(NetworkMessage::Peers(infos.clone())),
        InboundStep::LearnPeers(infos)
    );
    assert_eq!(
        inbound_step(NetworkMessage::GetTip),
        InboundStep::Handle(NetworkMessage::GetTip)
    );
}
