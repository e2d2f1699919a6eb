use paqus_node::chain::{Block, BlockHeader, BlockSizes, Ledger};
use paqus_node::ids::{Address, Amount, BlockHash, Height, Nonce, TransactionHash};
use paqus_node::network::envelope::{EnvelopeError, NetworkEnvelope};
use paqus_node::network::handler::{batch_step, handle_message, BatchStep, HandlerAction};
use paqus_node::network::message::{
    ChainParams, InventoryItem, NetworkMessage, PeerInfo, RejectReason, TipInfo, VersionInfo,
};
use paqus_node::node::Node;
use paqus_node::params::MAX_NETWORK_MESSAGE_SIZE;
use paqus_node::transaction::{
    SignedProtocolTransaction, SignedTransaction, Transaction, ValidityWindow,
};

fn params() -> ChainParams {
    ChainParams {
        protocol_version: 1,
        chain_id: 77,
        chain_name: "paqus".to_string(),
        protocol_stage: "test".to_string(),
        pow_algorithm: "pow".to_string(),
        difficulty_algorithm: "asert".to_string(),
        network_magic: [1, 2, 3, 4],
    }
}

fn block(height: u64) -> Block {
    Block {
        header: BlockHeader {
            version: 1,
            height: Height(height),
            previous_hash: BlockHash([height as u8; 32]),
            merkle_root: [0; 32],
            witness_root: [0; 32],
            state_root: [0; 32],
            miner_address: Address([9; 20]),
            difficulty: 1,
            timestamp: 1_000 + height,
            nonce: Nonce(0),
        },
        hash: BlockHash([height as u8 + 1; 32]),
        coinbase: None,
        genesis_allocations: vec![],
        transactions: vec![],
        qcash_transactions: vec![],
        total_fees: Some(Amount(0)),
        sizes: BlockSizes {
            serialized: 10,
            stripped: 8,
            witness: 2,
            weight: 34,
        },
    }
}

fn transfer(from: u8) -> SignedTransaction {
    SignedTransaction {
        transaction: Transaction {
            from: Address([from; 20]),
            to: Address([2; 20]),
            amount: Amount(10),
            fee: Amount(8),
            nonce: Nonce(0),
            timestamp: 1_000,
            validity: ValidityWindow::always(),
        },
        total_amount: Some(Amount(10)),
        witness: Address([from; 20]),
        hash: TransactionHash([from; 32]),
        wtxid: TransactionHash([from + 100; 32]),
        serialized_size: 6,
        stripped_size: 4,
        witness_size: 2,
        virtual_size: 4,
    }
}

fn node(blocks: u64) -> Node<u8> {
    let mut ledger = Ledger::new(Amount(25));
    for height in 0..blocks {
        ledger.put_block(block(height));
    }
    Node::from_ledger(ledger)
}

fn reply(node: &Node<u8>, message: NetworkMessage) -> Option<NetworkMessage> {
    match handle_message(node, &params(), message) {
        HandlerAction::Reply(reply) => reply,
        other => panic!("no reply: {other:?}"),
    }
}

#[test]
fn a_peer_of_the_same_chain_is_greeted() {
    let greeted = reply(
        &node(3),
        NetworkMessage::Version(VersionInfo::local(&params(), None)),
    );
    let tip = TipInfo {
        height: Height(2),
        hash: BlockHash([3; 32]),
    };
    assert_eq!(
        greeted,
        Some(NetworkMessage::VerAck(VersionInfo::local(
            &params(),
            Some(tip)
        )))
    );
}

#[test]
fn strangers_are_told_what_differs() {
    let base = VersionInfo::local(&params(), None);
    let check = |version: VersionInfo| version.validate_compatibility(&params()).unwrap_err();
    let mut magic = base.clone();
    magic.network_magic = [0; 4];
    assert_eq!(check(magic.clone()), RejectReason::NetworkMismatch);
    let mut chain = base.clone();
    chain.chain_id = 1;
    assert_eq!(check(chain), RejectReason::ChainMismatch);
    let mut name = base.clone();
    name.chain_name = "other".to_string();
    assert_eq!(check(name), RejectReason::ChainMismatch);
    let mut stage = base.clone();
    stage.protocol_stage = "main".to_string();
    assert_eq!(check(stage), RejectReason::ChainMismatch);
    let mut protocol = base.clone();
    protocol.protocol_version = 9;
    assert_eq!(check(protocol), RejectReason::ProtocolVersionMismatch);
    let mut pow = base.clone();
    pow.pow_algorithm = "sha".to_string();
    assert_eq!(check(pow), RejectReason::ConsensusMismatch);
    assert_eq!(base.validate_compatibility(&params()), Ok(()));
    assert_eq!(
        reply(&node(0), NetworkMessage::Version(magic)),
        Some(NetworkMessage::Reject {
            reason: RejectReason::NetworkMismatch,
            message: "incompatible peer version".to_string(),
        })
    );
}

#[test]
fn pings_and_tips_are_answered() {
    assert_eq!(
        reply(&node(0), NetworkMessage::Ping { nonce: 6 }),
        Some(NetworkMessage::Pong { nonce: 6 })
    );
    assert_eq!(reply(&node(0), NetworkMessage::GetTip), None);
    assert_eq!(
        reply(&node(1), NetworkMessage::GetTip),
        Some(NetworkMessage::Tip(TipInfo {
            height: Height(0),
            hash: BlockHash([1; 32]),
        }))
    );
}

#[test]
fn blocks_are_served_by_height_and_hash() {
    let node = node(3);
    assert_eq!(
        reply(&node, NetworkMessage::GetBlockByHeight { height: Height(1) }),
        Some(NetworkMessage::Block(block(1)))
    );
    assert_eq!(
        reply(&node, NetworkMessage::GetBlockByHeight { height: Height(3) }),
        None
    );
    assert_eq!(
        reply(
            &node,
            NetworkMessage::GetBlockByHash {
                hash: BlockHash([3; 32])
            }
        ),
        Some(NetworkMessage::Block(block(2)))
    );
    assert_eq!(
        reply(
            &node,
            NetworkMessage::GetBlockByHash {
                hash: BlockHash([9; 32])
            }
        ),
        None
    );
}

#[test]
fn ranges_end_with_the_chain_and_at_the_limit() {
    let long = node(70);
    let count = |start: u64, limit: u32| match reply(
        &long,
        NetworkMessage::GetBlocksByHeightRange {
            start: Height(start),
            limit,
        },
    ) {
        Some(NetworkMessage::Blocks(blocks)) => blocks.len(),
        other => panic!("no blocks: {other:?}"),
    };
    assert_eq!(count(0, 1_000), 64);
    assert_eq!(count(0, 2), 2);
    assert_eq!(count(65, 64), 5);
    assert_eq!(count(90, 64), 0);
    match reply(
        &long,
        NetworkMessage::GetBlockHeadersByHeightRange {
            start: Height(68),
            limit: 9,
        },
    ) {
        Some(NetworkMessage::BlockHeaders(headers)) => {
            assert_eq!(headers.len(), 2);
            assert_eq!(headers[1].header, block(69).header);
            assert_eq!(headers[1].hash, block(69).hash);
        }
        other => panic!("no headers: {other:?}"),
    }
}

#[test]
fn the_first_known_hash_is_the_common_ancestor() {
    let node = node(3);
    assert_eq!(
        reply(
            &node,
            NetworkMessage::GetCommonAncestor {
                locator: vec![BlockHash([9; 32]), BlockHash([2; 32]), BlockHash([1; 32])],
            }
        ),
        Some(NetworkMessage::CommonAncestor(Some(TipInfo {
            height: Height(1),
            hash: BlockHash([2; 32]),
        })))
    );
    assert_eq!(
        reply(
            &node,
            NetworkMessage::GetCommonAncestor { locator: vec![] }
        ),
        Some(NetworkMessage::CommonAncestor(None))
    );
}

#[test]
fn only_missing_items_are_asked_for() {
    let mut node = node(1);
    node.mempool.insert_at(transfer(5), 1_000, Ok(())).unwrap();
    let known = vec![
        InventoryItem::Block(BlockHash([1; 32])),
        InventoryItem::Transaction(TransactionHash([5; 32])),
    ];
    assert_eq!(reply(&node, NetworkMessage::Inventory(known.clone())), None);
    let mut offered = known.clone();
    offered.push(InventoryItem::Block(BlockHash([7; 32])));
    offered.push(InventoryItem::Transaction(TransactionHash([6; 32])));
    assert_eq!(
        reply(&node, NetworkMessage::Inventory(offered)),
        Some(NetworkMessage::GetData(vec![
            InventoryItem::Block(BlockHash([7; 32])),
            InventoryItem::Transaction(TransactionHash([6; 32])),
        ]))
    );
    assert_eq!(
        reply(&node, NetworkMessage::GetMempoolInventory),
        Some(NetworkMessage::Inventory(vec![InventoryItem::Transaction(
            TransactionHash([5; 32])
        )]))
    );
}

#[test]
fn requested_data_is_served() {
    let mut node = node(1);
    node.mempool.insert_at(transfer(5), 1_000, Ok(())).unwrap();
    assert_eq!(
        reply(
            &node,
            NetworkMessage::GetData(vec![InventoryItem::Transaction(TransactionHash([5; 32]))])
        ),
        Some(NetworkMessage::Transactions(vec![
            SignedProtocolTransaction::Transfer(transfer(5))
        ]))
    );
    assert_eq!(
        reply(
            &node,
            NetworkMessage::GetData(vec![InventoryItem::Block(BlockHash([1; 32]))])
        ),
        Some(NetworkMessage::Blocks(vec![block(0)]))
    );
}

#[test]
fn data_is_handed_on() {
    let node = node(1);
    assert_eq!(
        handle_message(&node, &params(), NetworkMessage::Block(block(1))),
        HandlerAction::ApplyBlocks(vec![block(1)])
    );
    let tx = SignedProtocolTransaction::Transfer(transfer(5));
    assert_eq!(
        handle_message(&node, &params(), NetworkMessage::Transaction(tx.clone())),
        HandlerAction::SubmitTransactions(vec![tx])
    );
    assert_eq!(
        reply(&node, NetworkMessage::Peers(vec![PeerInfo { address: "a".to_string() }])),
        None
    );
}

#[test]
fn frames_round_trip() {
    let frame = NetworkEnvelope::new([1, 2, 3, 4], vec![9, 8, 7]);
    let bytes = frame.to_bytes().unwrap();
    assert_eq!(bytes, vec![1, 2, 3, 4, 9, 8, 7]);
    assert_eq!(NetworkEnvelope::from_bytes(&bytes, &[1, 2, 3, 4]), Ok(frame));
}

#[test]
fn frames_are_refused_for_length_and_magic() {
    assert_eq!(
        NetworkEnvelope::from_bytes(&[1, 2, 3], &[1, 2, 3, 4]),
        Err(EnvelopeError::Truncated)
    );
    assert_eq!(
        NetworkEnvelope::from_bytes(&[1, 2, 3, 5], &[1, 2, 3, 4]),
        Err(EnvelopeError::MagicMismatch)
    );
    let long = NetworkEnvelope::new([1, 2, 3, 4], vec![0; MAX_NETWORK_MESSAGE_SIZE - 3]);
    assert_eq!(long.to_bytes(), Err(EnvelopeError::MessageTooLarge));
    let fits = NetworkEnvelope::new([1, 2, 3, 4], vec![0; MAX_NETWORK_MESSAGE_SIZE - 4]);
    assert!(fits.to_bytes().is_ok());
    assert_eq!(
        NetworkEnvelope::split(&vec![0; MAX_NETWORK_MESSAGE_SIZE + 1]),
        Err(EnvelopeError::MessageTooLarge)
    );
}

fn apply_in_turn(outcomes: &[Result<(), &'static str>]) -> (usize, Result<(), &'static str>) {
    let mut tried = 0;
    let mut last = Ok(());
    loop {
        match batch_step(outcomes.len(), tried, last) {
            BatchStep::Apply(i) => {
                last = outcomes[i];
                tried = i + 1;
            }
            BatchStep::Finished => return (tried, Ok(())),
            BatchStep::Failed(error) => return (tried, Err(error)),
        }
    }
}

#[test]
fn batches_end_at_the_first_failure() {
    assert_eq!(apply_in_turn(&[]), (0, Ok(())));
    assert_eq!(apply_in_turn(&[Ok(()), Ok(())]), (2, Ok(())));
    assert_eq!(
        apply_in_turn(&[Ok(()), Err("second"), Ok(()), Err("fourth")]),
        (2, Err("second"))
    );
    assert_eq!(apply_in_turn(&[Err("only")]), (1, Err("only")));
}
