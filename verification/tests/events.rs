use paqus_node::ids::{Address, Amount, BlockHash, Height};
use paqus_node::params::FINALITY_DEPTH;
use paqus_node::rpc::events::{
    finalized_event_height, protocol_event_involves_address, protocol_event_list, EventQuery,
    ProtocolEvent, ProtocolEventKind,
};

fn coinbase(height: u64) -> ProtocolEvent {
    ProtocolEvent::new(
        Height(height),
        BlockHash([height as u8; 32]),
        None,
        0,
        ProtocolEventKind::CoinbasePaid {
            miner: Address([1; 20]),
            subsidy: Amount(1),
        },
    )
}

#[test]
fn protocol_event_query_filters_height_kind_and_paginates() {
    let owner = Address([1; 20]);
    let events = vec![
        ProtocolEvent::new(
            Height(3),
            BlockHash([3; 32]),
            None,
            0,
            ProtocolEventKind::CoinbasePaid {
                miner: owner,
                subsidy: Amount(1),
            },
        ),
        ProtocolEvent::new(
            Height(4),
            BlockHash([4; 32]),
            None,
            0,
            ProtocolEventKind::QCashWithdrawn {
                signer: owner,
                amount: Amount(1),
            },
        ),
        ProtocolEvent::new(
            Height(5),
            BlockHash([5; 32]),
            None,
            0,
            ProtocolEventKind::CoinbasePaid {
                miner: owner,
                subsidy: Amount(1),
            },
        ),
    ];

    let response = protocol_event_list(
        events,
        EventQuery {
            offset: Some(1),
            limit: Some(1),
            kind: Some("coinbase_paid".to_string()),
            from_height: Some(3),
            to_height: Some(5),
        },
    )
    .unwrap();

    assert_eq!(response.total, 2);
    assert_eq!(response.events.len(), 1);
    assert_eq!(response.events[0].event.block_height, Height(5));
}

#[test]
fn protocol_event_query_rejects_invalid_limits_and_kinds() {
    assert!(matches!(
        protocol_event_list(
            vec![],
            EventQuery {
                limit: Some(0),
                ..EventQuery::default()
            }
        ),
        Err("event_limit_must_be_between_1_and_500")
    ));
    assert!(matches!(
        protocol_event_list(
            vec![],
            EventQuery {
                kind: Some("unknown".to_string()),
                ..EventQuery::default()
            }
        ),
        Err("unknown_event_kind")
    ));
}

#[test]
fn event_stream_waits_for_finality_depth() {
    assert_eq!(finalized_event_height(Some(Height(1))), None);
    assert_eq!(
        finalized_event_height(Some(Height(FINALITY_DEPTH))),
        Some(0)
    );
    assert_eq!(
        finalized_event_height(Some(Height(FINALITY_DEPTH + 7))),
        Some(7)
    );
}

#[test]
fn event_stream_address_filter_covers_transfer_participants() {
    let sender = Address([7; 20]);
    let recipient = Address([8; 20]);
    let unrelated = Address([9; 20]);
    let event = ProtocolEventKind::Transfer {
        from: sender,
        to: recipient,
        amount: Amount(10),
        fee: Amount(1),
    };

    assert!(protocol_event_involves_address(&event, &sender));
    assert!(protocol_event_involves_address(&event, &recipient));
    assert!(!protocol_event_involves_address(&event, &unrelated));
}

#[test]
fn no_chain_has_no_final_events() {
    assert_eq!(finalized_event_height(None), None);
    assert_eq!(finalized_event_height(Some(Height(49))), None);
    assert_eq!(finalized_event_height(Some(Height(50))), Some(0));
}

#[test]
fn event_limits_hold_at_their_ends() {
    for limit in [1usize, 500] {
        let query = EventQuery {
            limit: Some(limit),
            ..EventQuery::default()
        };
        assert!(protocol_event_list(vec![coinbase(1)], query).is_ok());
    }
    let query = EventQuery {
        limit: Some(501),
        ..EventQuery::default()
    };
    assert_eq!(
        protocol_event_list(vec![coinbase(1)], query).unwrap_err(),
        "event_limit_must_be_between_1_and_500"
    );
}

#[test]
fn every_kind_of_event_can_be_asked_for() {
    for kind in [
        "coinbase_paid",
        "transfer",
        "qcash_withdrawn",
        "qcash_deposited",
    ] {
        let query = EventQuery {
            kind: Some(kind.to_string()),
            ..EventQuery::default()
        };
        let answer = protocol_event_list(vec![coinbase(1)], query).unwrap();
        assert_eq!(answer.total, usize::from(kind == "coinbase_paid"));
    }
}

#[test]
fn event_pages_join_up() {
    let events: Vec<ProtocolEvent> = (0..7).map(coinbase).collect();
    let mut heights = Vec::new();
    for page in 0..4usize {
        let query = EventQuery {
            offset: Some(page * 2),
            limit: Some(2),
            ..EventQuery::default()
        };
        let answer = protocol_event_list(events.clone(), query).unwrap();
        assert_eq!(answer.total, 7);
        assert_eq!(answer.offset, page * 2);
        assert_eq!(answer.limit, 2);
        heights.extend(answer.events.iter().map(|e| e.event.block_height.0));
    }
    assert_eq!(heights, vec![0, 1, 2, 3, 4, 5, 6]);
}

#[test]
fn an_open_request_lists_everything_up_to_the_standard_limit() {
    let events: Vec<ProtocolEvent> = (0..120).map(coinbase).collect();
    let answer = protocol_event_list(events, EventQuery::default()).unwrap();
    assert_eq!(answer.total, 120);
    assert_eq!(answer.limit, 100);
    assert_eq!(answer.events.len(), 100);
}

#[test]
fn deposits_involve_signer_and_recipient() {
    let kind = ProtocolEventKind::QCashDeposited {
        signer: Address([1; 20]),
        recipient: Address([2; 20]),
        amount: Amount(5),
    };
    assert!(protocol_event_involves_address(&kind, &Address([1; 20])));
    assert!(protocol_event_involves_address(&kind, &Address([2; 20])));
    assert!(!protocol_event_involves_address(&kind, &Address([3; 20])));
    let withdrawn = ProtocolEventKind::QCashWithdrawn {
        signer: Address([1; 20]),
        amount: Amount(5),
    };
    assert!(protocol_event_involves_address(&withdrawn, &Address([1; 20])));
    assert!(!protocol_event_involves_address(&withdrawn, &Address([2; 20])));
}
