use paqus_node::chain::{
    Account, Block, BlockHeader, BlockSizes, CoinbaseTransaction, GenesisAllocation, Ledger,
};
use paqus_node::ids::{Address, Amount, BlockHash, CashCoinId, Height, Nonce, TransactionHash};
use paqus_node::mempool::policy::{MempoolConfig, SignatureVerdicts};
use paqus_node::node::Node;
use paqus_node::params::{BASE_FEE, CONFIRMATION_DEPTH};
use paqus_node::rpc::activity::{address_activity, confirmations, IndexedBlock, IndexedHit};
use paqus_node::rpc::block::{block_response, block_value, elapsed_delta, latest_heights};
use paqus_node::rpc::explorer::{
    find_pending, find_transaction, mempool_response, pending_transactions,
    protocol_transaction_addresses, protocol_transaction_summary, protocol_tx_response,
    transaction_family_name, BlockLocation, IndexedTransaction,
};
use paqus_node::rpc::stats::{
    account_responses, balance_json, balance_summary, chain_stats, chain_totals, metrics_text,
    pending_balance, BalanceSummary, ChainTotals, NodeMetrics, PendingBalance,
};
use paqus_node::transaction::{
    QCashRecord, QCashTransactionKind, SignedProtocolTransaction, SignedQCashTransaction,
    SignedTransaction, Transaction, TransactionFamily, ValidityWindow,
};

fn address(byte: u8) -> Address {
    Address([byte; 20])
}

fn transfer(from: u8, to: u8, amount: u64, fee: u64, hash: u8) -> SignedTransaction {
    SignedTransaction {
        transaction: Transaction {
            from: address(from),
            to: address(to),
            amount: Amount(amount),
            fee: Amount(fee),
            nonce: Nonce(3),
            timestamp: 1_000,
            validity: ValidityWindow::always(),
        },
        total_amount: Some(Amount(amount)),
        witness: address(from),
        hash: TransactionHash([hash; 32]),
        wtxid: TransactionHash([hash + 100; 32]),
        serialized_size: 300,
        stripped_size: 100,
        witness_size: 200,
        virtual_size: 150,
    }
}

fn deposit(signer: u8, recipient: u8, hash: u8) -> SignedQCashTransaction {
    SignedQCashTransaction {
        record: QCashRecord {
            signer: address(signer),
            fee: Amount(9),
            nonce: Nonce(0),
            timestamp: 1_000,
            validity: ValidityWindow::always(),
            kind: QCashTransactionKind::DepositCash {
                recipient: address(recipient),
                amount: Some(Amount(70)),
            },
            witness: address(signer),
            hash: TransactionHash([hash; 32]),
            wtxid: TransactionHash([hash + 100; 32]),
            stripped_size: 8,
            witness_size: 4,
            virtual_size: 9,
        },
        deposited_coins: vec![CashCoinId([hash; 32])],
    }
}

fn block(height: u64, hash: u8, timestamp: u64, transactions: Vec<SignedTransaction>) -> Block {
    Block {
        header: BlockHeader {
            version: 1,
            height: Height(height),
            previous_hash: BlockHash([hash.wrapping_sub(1); 32]),
            merkle_root: [0xaa; 32],
            witness_root: [0xbb; 32],
            state_root: [0xcc; 32],
            miner_address: address(9),
            difficulty: 12,
            timestamp,
            nonce: Nonce(77),
        },
        hash: BlockHash([hash; 32]),
        coinbase: Some(CoinbaseTransaction {
            to: address(9),
            subsidy: Amount(25),
            fees: Amount(4),
        }),
        genesis_allocations: vec![],
        transactions,
        qcash_transactions: vec![],
        total_fees: Some(Amount(4)),
        sizes: BlockSizes {
            serialized: 1_000,
            stripped: 600,
            witness: 400,
            weight: 2_800,
        },
    }
}

fn node_at(tip: Block) -> Node<u8> {
    let mut ledger = Ledger::new(Amount(25));
    ledger.put_account(Account::new(address(1), Amount(100_000)));
    ledger.put_account(Account::new(address(2), Amount(7)));
    ledger.put_block(tip);
    Node::from_ledger(ledger)
}

fn located(height: u64, hash: u8) -> BlockLocation {
    BlockLocation {
        block_height: Height(height),
        block_hash: BlockHash([hash; 32]),
    }
}

#[test]
fn generic_explorer_response_exposes_txid_wtxid_and_witness_identity() {
    let signer = address(1);
    let signed = transfer(1, 2, 10, 2, 5);
    let transaction = SignedProtocolTransaction::Transfer(signed);

    let response =
        protocol_tx_response(&transaction, Some(Height(7)), None, "confirmed", Some(1_060));

    assert_eq!(response.family, "transfer");
    assert_eq!(response.operation, "transfer");
    assert_eq!(response.txid, hex::encode(transaction.hash().0));
    assert_eq!(response.wtxid, hex::encode(transaction.wtxid().0));
    assert_eq!(response.signer, signer);
    assert_eq!(response.witness_addresses[0], signer);
    assert_eq!(response.block_height, Some(7));
    assert!(response.virtual_size < response.stripped_size + response.witness_size);
    assert_eq!(response.block_hash, None);
    assert_eq!(response.age_secs, Some(60));
    assert_eq!(response.nonce, 3);
    assert_eq!(response.fee, 2);
    assert_eq!(response.amount, Some(10));
    assert_eq!(response.valid_until, u64::MAX);
}

#[test]
fn ages_need_a_clock() {
    let transaction = SignedProtocolTransaction::Transfer(transfer(1, 2, 10, 2, 5));
    let without = protocol_tx_response(&transaction, None, None, "pending", None);
    assert_eq!(without.age_secs, Some(0));
    let early = protocol_tx_response(&transaction, None, None, "pending", Some(1));
    assert_eq!(early.age_secs, Some(0));
}

#[test]
fn summaries_tell_the_operations_apart() {
    let deposited = SignedProtocolTransaction::QCash(deposit(1, 2, 5));
    let summary = protocol_transaction_summary(&deposited);
    assert_eq!(summary.operation, "deposit_cash");
    assert_eq!(summary.recipient, Some(address(2)));
    assert_eq!(summary.amount, Some(70));
    assert_eq!(summary.timestamp, Some(1_000));
    let mut record = deposit(1, 2, 6);
    record.record.kind = QCashTransactionKind::WithdrawCash { amount: Amount(8) };
    let withdrawn = SignedProtocolTransaction::QCash(record);
    let summary = protocol_transaction_summary(&withdrawn);
    assert_eq!(summary.operation, "withdraw_cash");
    assert_eq!(summary.recipient, None);
    assert_eq!(summary.amount, Some(8));
    assert_eq!(transaction_family_name(TransactionFamily::QCash), "qcash");
    assert_eq!(
        transaction_family_name(TransactionFamily::Transfer),
        "transfer"
    );
}

#[test]
fn addresses_are_listed_once() {
    let own = SignedProtocolTransaction::Transfer(transfer(1, 1, 10, 2, 5));
    assert_eq!(protocol_transaction_addresses(&own), vec![address(1)]);
    let other = SignedProtocolTransaction::Transfer(transfer(1, 2, 10, 2, 5));
    assert_eq!(
        protocol_transaction_addresses(&other),
        vec![address(1), address(2)]
    );
}

fn busy_node() -> Node<u8> {
    let mut node = node_at(block(20, 20, 5_000, vec![]));
    node.mempool
        .insert_at(transfer(1, 2, 5, 300, 8), 1_000, Ok(()))
        .unwrap();
    node.mempool
        .insert_at(transfer(3, 1, 6, 300, 7), 1_000, Ok(()))
        .unwrap();
    node.extension_mempool
        .insert_validated(
            Some(Height(20)),
            SignedProtocolTransaction::QCash(deposit(4, 2, 6)),
            |_, _| Ok(()),
        )
        .unwrap();
    node
}

#[test]
fn the_mempool_lists_transfers_first() {
    let node = busy_node();
    let hashes: Vec<u8> = pending_transactions(&node)
        .iter()
        .map(|tx| tx.hash().0[0])
        .collect();
    assert_eq!(hashes, vec![7, 8, 6]);
    let answer = mempool_response(&node, Some(1_001));
    assert_eq!(answer.size, 3);
    assert_eq!(answer.transactions[2].operation, "deposit_cash");
    assert!(answer.transactions.iter().all(|tx| tx.status == "pending"));
}

#[test]
fn transactions_are_found_by_either_hash() {
    let node = busy_node();
    assert_eq!(
        find_pending(&node, &[8; 32]).map(|tx| tx.hash()),
        Some(TransactionHash([8; 32]))
    );
    assert_eq!(
        find_pending(&node, &[106; 32]).map(|tx| tx.hash()),
        Some(TransactionHash([6; 32]))
    );
    assert!(find_pending(&node, &[9; 32]).is_none());
    let pending = find_transaction(&node, &[107; 32], Ok(None), Ok(None), None)
        .unwrap()
        .unwrap();
    assert_eq!(pending.status, "pending");
    assert_eq!(pending.txid, "07".repeat(32));
}

#[test]
fn the_index_is_asked_by_content_and_then_by_witness() {
    let node = busy_node();
    let hit = |byte: u8| IndexedTransaction {
        location: located(3, 30),
        transaction: SignedProtocolTransaction::Transfer(transfer(1, 2, 5, 1, byte)),
    };
    let found = find_transaction(&node, &[50; 32], Ok(Some(hit(50))), Ok(Some(hit(51))), None)
        .unwrap()
        .unwrap();
    assert_eq!(found.txid, "32".repeat(32));
    assert_eq!(found.status, "confirmed");
    assert_eq!(found.block_height, Some(3));
    assert_eq!(found.block_hash, Some("1e".repeat(32)));
    let by_witness = find_transaction(&node, &[50; 32], Ok(None), Ok(Some(hit(51))), None)
        .unwrap()
        .unwrap();
    assert_eq!(by_witness.txid, "33".repeat(32));
    assert_eq!(
        find_transaction(&node, &[50; 32], Ok(None), Ok(None), None),
        Ok(None)
    );
    assert_eq!(
        find_transaction(&node, &[50; 32], Err("gone".to_string()), Ok(None), None),
        Err("failed to load indexed transaction: gone".to_string())
    );
    assert_eq!(
        find_transaction(&node, &[50; 32], Ok(None), Err("gone".to_string()), None),
        Err("failed to load indexed witness transaction: gone".to_string())
    );
}

#[test]
fn activity_lists_the_newest_first() {
    let node = busy_node();
    let mined = vec![
        IndexedBlock {
            location: located(3, 3),
            block: Ok(Some(block(3, 3, 100, vec![transfer(1, 2, 5, 1, 60)]))),
        },
        IndexedBlock {
            location: located(4, 99),
            block: Ok(Some(block(4, 4, 100, vec![]))),
        },
        IndexedBlock {
            location: located(5, 5),
            block: Ok(None),
        },
        IndexedBlock {
            location: located(6, 6),
            block: Ok(Some(block(6, 6, 100, vec![]))),
        },
    ];
    let hits = vec![
        IndexedHit {
            location: located(3, 3),
            transaction: Ok(Some(SignedProtocolTransaction::Transfer(transfer(
                9, 2, 5, 1, 60,
            )))),
        },
        IndexedHit {
            location: located(4, 4),
            transaction: Ok(None),
        },
    ];
    let activity =
        address_activity(&node, &address(9), Ok(mined), Ok(hits), Some(2_000)).unwrap();
    let heights: Vec<u64> = activity.mined_blocks.iter().map(|b| b.height).collect();
    assert_eq!(heights, vec![6, 3]);
    assert_eq!(activity.mined_blocks[0].confirmations, 15);
    assert_eq!(activity.mined_blocks[0].maturity_height, 106);
    assert!(!activity.mined_blocks[0].matured);
    assert_eq!(activity.mined_blocks[1].tx_count, 1);
    assert_eq!(activity.mined_blocks[1].total, 29);
    assert_eq!(activity.transactions.len(), 1);
    assert_eq!(activity.transactions[0].status, "confirmed");

    let receiver = address_activity(&node, &address(2), Ok(vec![]), Ok(vec![]), None).unwrap();
    let ids: Vec<&str> = receiver
        .transactions
        .iter()
        .map(|tx| &tx.txid[..2])
        .collect();
    assert_eq!(ids, vec!["06", "08"]);
}

#[test]
fn activity_reports_the_first_failure() {
    let node = busy_node();
    let who = address(9);
    let failing_block = || IndexedBlock {
        location: located(3, 3),
        block: Err("bad block".to_string()),
    };
    let failing_hit = || IndexedHit {
        location: located(3, 3),
        transaction: Err("bad hit".to_string()),
    };
    assert_eq!(
        address_activity(&node, &who, Err("x".to_string()), Err("y".to_string()), None),
        Err("failed to load miner block index: x".to_string())
    );
    assert_eq!(
        address_activity(
            &node,
            &who,
            Ok(vec![failing_block()]),
            Err("y".to_string()),
            None
        ),
        Err("failed to load block: bad block".to_string())
    );
    assert_eq!(
        address_activity(&node, &who, Ok(vec![]), Err("y".to_string()), None),
        Err("failed to load address transaction index: y".to_string())
    );
    assert_eq!(
        address_activity(&node, &who, Ok(vec![]), Ok(vec![failing_hit()]), None),
        Err("failed to load indexed transaction: bad hit".to_string())
    );
}

#[test]
fn rewards_mature_once() {
    let mut node = node_at(block(103, 103, 5_000, vec![]));
    let mined = || {
        Ok(vec![IndexedBlock {
            location: located(3, 3),
            block: Ok(Some(block(3, 3, 100, vec![]))),
        }])
    };
    let at = |node: &Node<u8>| {
        address_activity(node, &address(9), mined(), Ok(vec![]), None)
            .unwrap()
            .mined_blocks[0]
            .matured
    };
    assert!(at(&node));
    node.ledger.put_block(block(104, 104, 5_100, vec![]));
    assert!(at(&node));
    assert!(!at(&node_at(block(102, 102, 5_000, vec![]))));
    assert_eq!(confirmations(103, 3), 101);
    assert_eq!(confirmations(2, 3), 1);
}

#[test]
fn blocks_are_shown_in_full() {
    let node = node_at(block(8, 8, 2_000, vec![]));
    let mut shown = block(7, 7, 1_500, vec![transfer(1, 2, 5, 1, 60)]);
    shown.qcash_transactions.push(deposit(4, 2, 6));
    shown.genesis_allocations.push(GenesisAllocation {
        to: address(1),
        amount: Amount(3),
    });
    assert_eq!(block_value(&shown), Some(75));
    let answer = block_response(&node, &shown, Some(1_100), None, Some(1_600));
    assert_eq!(answer.height, 7);
    assert_eq!(answer.hash, "07".repeat(32));
    assert_eq!(answer.short_hash, "07070707..07070707");
    assert_eq!(answer.previous_hash, "06".repeat(32));
    assert_eq!(answer.merkle_root, "aa".repeat(32));
    assert_eq!(answer.witness_root, "bb".repeat(32));
    assert_eq!(answer.state_root, "cc".repeat(32));
    assert_eq!(answer.age_secs, 100);
    assert_eq!(answer.confirmations, 2);
    assert_eq!(answer.block_time_secs, Some(400));
    assert_eq!(answer.target_block_time_secs, 300);
    assert_eq!(answer.block_time_delta_secs, Some(100));
    assert_eq!(answer.value_moved, 75);
    assert_eq!(answer.tx_count, 2);
    assert_eq!(answer.weight, 2_800);
    assert_eq!(answer.coinbase.unwrap().total, 29);
    assert_eq!(answer.genesis_allocations.len(), 1);
    assert_eq!(answer.transactions[0].status, "confirmed");
    assert_eq!(answer.transactions[1].operation, "deposit_cash");
    let first = block_response(&node, &shown, None, Some("orphaned"), None);
    assert_eq!(first.block_time_secs, None);
    assert_eq!(first.block_time_delta_secs, None);
    assert_eq!(first.age_secs, 0);
    assert_eq!(first.transactions[0].status, "orphaned");
    let quick = block_response(&node, &shown, Some(1_500), None, None);
    assert_eq!(quick.block_time_delta_secs, Some(-300));
}

#[test]
fn amounts_that_do_not_fit_have_no_sum() {
    let shown = block(
        7,
        7,
        1_500,
        vec![transfer(1, 2, u64::MAX, 1, 60), transfer(1, 2, 1, 1, 61)],
    );
    assert_eq!(block_value(&shown), None);
}

#[test]
fn the_latest_ten_heights_go_down_to_the_first_block() {
    assert_eq!(latest_heights(0), vec![0]);
    assert_eq!(latest_heights(2), vec![2, 1, 0]);
    assert_eq!(
        latest_heights(20),
        vec![20, 19, 18, 17, 16, 15, 14, 13, 12, 11]
    );
}

#[test]
fn totals_add_up() {
    let node = busy_node();
    let mut totals = ChainTotals::new();
    let empty = chain_stats(&node, &totals);
    assert_eq!(empty.average_block_time_secs, None);
    assert_eq!(empty.average_transfer_amount, 0);
    totals.count(&block(0, 1, 1_000, vec![]));
    totals.count(&block(1, 2, 1_300, vec![transfer(1, 2, 10, 1, 60)]));
    totals.count(&block(
        2,
        3,
        1_500,
        vec![transfer(1, 2, 20, 1, 61), transfer(1, 2, 31, 1, 62)],
    ));
    totals.count(&block(3, 4, 1_400, vec![]));
    let stats = chain_stats(&node, &totals);
    assert_eq!(stats.height, 20);
    assert_eq!(stats.blocks, 4);
    assert_eq!(stats.average_block_time_secs, Some(166));
    assert_eq!(stats.genesis_premine, 0);
    assert_eq!(stats.mined_supply, 100);
    assert_eq!(stats.current_supply, 100);
    assert_eq!(stats.total_coinbase_rewards, 116);
    assert_eq!(stats.total_fees_collected, 16);
    assert_eq!(stats.total_transactions, 3);
    assert_eq!(stats.pending_transactions, 3);
    assert_eq!(stats.total_transfer_volume, 61);
    assert_eq!(stats.total_transaction_fees, 16);
    assert_eq!(stats.average_transfer_amount, 20);
}

#[test]
fn totals_run_from_height_zero_to_the_tip() {
    let mut ledger = Ledger::new(Amount(25));
    ledger.put_block(block(0, 1, 1_000, vec![]));
    ledger.put_block(block(1, 2, 1_300, vec![transfer(1, 2, 10, 1, 60)]));
    ledger.put_block(block(3, 4, 1_500, vec![transfer(1, 2, 20, 1, 61)]));
    let mut totals = ChainTotals::new();
    totals.count(&block(0, 1, 1_000, vec![]));
    totals.count(&block(1, 2, 1_300, vec![transfer(1, 2, 10, 1, 60)]));
    totals.count(&block(3, 4, 1_500, vec![transfer(1, 2, 20, 1, 61)]));
    assert_eq!(chain_totals(&ledger), totals);
    assert_eq!(chain_totals(&Ledger::new(Amount(25))), ChainTotals::new());
    let node: Node<u8> = Node::from_ledger(ledger);
    let stats = chain_stats(&node, &chain_totals(&node.ledger));
    assert_eq!(stats.height, 3);
    assert_eq!(stats.blocks, 3);
    assert_eq!(stats.average_block_time_secs, Some(250));
    assert_eq!(stats.total_transfer_volume, 30);
}

#[test]
fn totals_stop_at_the_largest_number() {
    let node = busy_node();
    let mut totals = ChainTotals::new();
    let mut rich = block(0, 1, 1_000, vec![transfer(1, 2, u64::MAX, 1, 60)]);
    rich.coinbase = Some(CoinbaseTransaction {
        to: address(9),
        subsidy: Amount(u64::MAX),
        fees: Amount(1),
    });
    totals.count(&rich);
    totals.count(&rich);
    let stats = chain_stats(&node, &totals);
    assert_eq!(stats.mined_supply, u64::MAX);
    assert_eq!(stats.total_coinbase_rewards, u64::MAX);
    assert_eq!(stats.total_transfer_volume, u64::MAX);
}

#[test]
fn pending_flows_count_fees_on_the_sending_side() {
    let node = busy_node();
    assert_eq!(
        pending_balance(&node, &address(1)),
        PendingBalance {
            incoming: 6,
            outgoing: 305,
        }
    );
    assert_eq!(
        pending_balance(&node, &address(2)),
        PendingBalance {
            incoming: 5,
            outgoing: 0,
        }
    );
    assert_eq!(balance_summary(&node, &address(3)), None);
    let summary = balance_summary(&node, &address(1)).unwrap();
    assert_eq!(summary.confirmed, 100_000);
    let accounts = account_responses(&node);
    assert_eq!(accounts.len(), 2);
    assert_eq!(accounts[0].account.address, address(1));
    assert_eq!(accounts[1].pending.incoming, 5);
}

#[test]
fn reports_confirmed_available_and_pending_balances() {
    let sender = address(1);
    let receiver = address(2);
    let initial_sender_balance = 1_000_000;
    let mut pending_transaction = transfer(1, 2, 5, 0, 8);
    let fee_per_transaction = BASE_FEE.saturating_mul(pending_transaction.virtual_size as u64);
    pending_transaction.transaction.fee = Amount(fee_per_transaction);
    pending_transaction.transaction.nonce = Nonce(11);
    pending_transaction.total_amount = Some(Amount(5 + fee_per_transaction));

    let confirmed_sender = initial_sender_balance - 11 * (1 + fee_per_transaction);
    let available_receiver = 11_u64.saturating_sub(CONFIRMATION_DEPTH);
    let mut sender_account = Account::new(sender, Amount(confirmed_sender));
    sender_account.nonce = Nonce(11);
    let mut receiver_account = Account::new(receiver, Amount(11));
    receiver_account.available = Amount(available_receiver);
    receiver_account.unspendable = Amount(11 - available_receiver);
    let mut ledger = Ledger::new(Amount(50));
    ledger.put_account(sender_account);
    ledger.put_account(receiver_account);
    ledger.put_block(block(0, 1, 1_700_000_000, vec![]));
    ledger.put_block(block(11, 12, 1_700_000_011, vec![]));
    let mut node: Node<u8> = Node::from_ledger(ledger);
    let valid = SignatureVerdicts {
        at_now: Ok(()),
        timeless: Ok(()),
    };
    node.mempool
        .insert_validated_at(&node.ledger, pending_transaction, 1_000, valid)
        .unwrap();

    let sender_balances = balance_summary(&node, &sender).unwrap();
    let receiver_balances = balance_summary(&node, &receiver).unwrap();
    assert_eq!(sender_balances.confirmed, confirmed_sender);
    assert_eq!(receiver_balances.confirmed, 11);
    assert_eq!(sender_balances.available, confirmed_sender);
    assert_eq!(receiver_balances.available, available_receiver);

    let accounts = account_responses(&node);
    assert_eq!(accounts[1].account.available, Amount(available_receiver));
    assert_eq!(
        accounts[1].account.unspendable,
        Amount(11 - available_receiver)
    );
    assert_eq!(accounts[1].account.nonce, Nonce(0));

    let sender_pending = pending_balance(&node, &sender);
    assert_eq!(sender_pending.incoming, 0);
    assert_eq!(sender_pending.outgoing, 5 + fee_per_transaction);

    let receiver_pending = pending_balance(&node, &receiver);
    assert_eq!(receiver_pending.incoming, 5);
    assert_eq!(receiver_pending.outgoing, 0);

    assert_eq!(accounts[0].account.available, Amount(confirmed_sender));
    assert_eq!(accounts[0].account.unspendable, Amount(0));
    assert_eq!(accounts[0].account.nonce, Nonce(11));
}

#[test]
fn new_nodes_have_standard_limits() {
    let node = node_at(block(0, 1, 500, vec![]));
    assert_eq!(node.mempool.config(), MempoolConfig::default());
    assert_eq!(node.mempool.total_bytes(), 0);
    assert!(node.mempool.is_empty() && node.extension_mempool.is_empty());
}

#[test]
fn balances_are_written_as_json() {
    assert_eq!(
        balance_json("xpq1abc", 12, None, None),
        "{\"address\":\"xpq1abc\",\"height\":12,\"exists\":false,\"confirmed\":0,\"available\":0,\"pending_incoming\":0,\"pending_outgoing\":0,\"nonce\":null,\"unspendable\":0}"
    );
    let summary = BalanceSummary {
        confirmed: 50,
        available: 40,
        pending: PendingBalance {
            incoming: 3,
            outgoing: 2,
        },
    };
    let mut account = Account::new(address(1), Amount(50));
    account.unspendable = Amount(10);
    account.nonce = Nonce(4);
    assert_eq!(
        balance_json("xpq1abc", 12, Some(summary), Some(account)),
        "{\"address\":\"xpq1abc\",\"height\":12,\"exists\":true,\"confirmed\":50,\"available\":40,\"pending_incoming\":3,\"pending_outgoing\":2,\"nonce\":4,\"unspendable\":10}"
    );
    assert_eq!(
        balance_json("xpq1abc", 12, Some(summary), None),
        "{\"address\":\"xpq1abc\",\"height\":12,\"exists\":true,\"confirmed\":50,\"available\":40,\"pending_incoming\":3,\"pending_outgoing\":2,\"nonce\":null,\"unspendable\":0}"
    );
}

#[test]
fn metrics_are_written_one_by_one() {
    let metrics = NodeMetrics {
        height: 1,
        peer_count: 2,
        mempool_size: 3,
        validation_failures: 4,
        reorgs: 5,
        requests: 6,
        errors: 7,
        hashrate: 8,
        database_bytes: 9,
    };
    let text = metrics_text(&metrics, "1.250000");
    assert!(text.starts_with("# TYPE paqus_chain_height gauge\npaqus_chain_height 1\n"));
    assert!(text.contains(
        "# TYPE paqus_rpc_latency_seconds summary\npaqus_rpc_latency_seconds_sum 1.250000\npaqus_rpc_latency_seconds_count 6\n"
    ));
    assert!(text.contains("paqus_block_validation_failures_total 4\n"));
    assert!(text.ends_with("# TYPE paqus_database_size_bytes gauge\npaqus_database_size_bytes 9\n"));
}

#[test]
fn supply_only_grows() {
    let node = busy_node();
    let mut totals = ChainTotals::new();
    let mut last = 0;
    for height in 0..5u64 {
        let mut next = block(height, 1, 1_000, vec![]);
        if height % 2 == 0 {
            next.coinbase = None;
        }
        totals.count(&next);
        let supply = chain_stats(&node, &totals).current_supply;
        assert!(supply >= last);
        last = supply;
    }
    assert_eq!(last, 50);
}

#[test]
fn late_blocks_are_shown_as_far_as_numbers_reach() {
    assert_eq!(elapsed_delta(100, 400), Some(0));
    assert_eq!(elapsed_delta(400, 100), Some(-300));
    assert_eq!(elapsed_delta(0, u64::MAX), Some(-301));
    assert_eq!(elapsed_delta(0, 1 << 63), None);
}
