use paqus_node::gossip::{broadcast_report, broadcast_targets, BroadcastTarget, GossipDedupe};
use paqus_node::ids::{BlockHash, TransactionHash};
use paqus_node::params::HASH_SIZE;
use paqus_node::sync::peer::SocketAddr;

fn addr(last: u32) -> SocketAddr {
    SocketAddr::V4 {
        ip: 0x0a00_0000 + last,
        port: 5555,
    }
}

#[test]
fn dedupe_tracks_seen_blocks_and_transactions() {
    let mut dedupe = GossipDedupe::new(2);
    let first_block = BlockHash([1; HASH_SIZE]);
    let second_block = BlockHash([2; HASH_SIZE]);
    let third_block = BlockHash([3; HASH_SIZE]);
    let transaction = TransactionHash([4; HASH_SIZE]);

    assert!(dedupe.mark_block_seen(first_block));
    assert!(!dedupe.mark_block_seen(first_block));
    assert!(dedupe.mark_block_seen(second_block));
    assert!(dedupe.mark_block_seen(third_block));
    assert!(dedupe.mark_block_seen(first_block));

    assert!(dedupe.mark_transaction_seen(transaction));
    assert!(!dedupe.mark_transaction_seen(transaction));
}

#[test]
fn a_memory_without_room_takes_everything_for_news() {
    let mut dedupe = GossipDedupe::new(0);
    assert!(dedupe.mark_block_seen(BlockHash([1; 32])));
    assert!(dedupe.mark_block_seen(BlockHash([1; 32])));
}

#[test]
fn nobody_is_told_twice() {
    let targets = broadcast_targets(&vec![addr(1), addr(2)], &vec![addr(2), addr(3)]);
    assert_eq!(
        targets,
        vec![
            BroadcastTarget::Outbound(addr(1)),
            BroadcastTarget::Outbound(addr(2)),
            BroadcastTarget::Inbound(addr(3)),
        ]
    );
}

#[test]
fn reports_count_outcomes() {
    let report = broadcast_report(&vec![true, false, true]);
    assert_eq!(report.attempted, 3);
    assert_eq!(report.sent, 2);
    assert_eq!(report.failed, 1);
}
