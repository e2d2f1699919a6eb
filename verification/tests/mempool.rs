use paqus_node::chain::{
    Account, Block, BlockHeader, BlockSizes, CoinbaseTransaction, Ledger, LedgerError, StateError,
};
use paqus_node::ids::{Address, Amount, BlockHash, Height, Nonce, TransactionHash};
use paqus_node::mempool::error::MempoolError;
use paqus_node::mempool::fee::{
    fee_rate_key, occupancy_bps, pressured_rate, required_fee_for_rate,
};
use paqus_node::mempool::mempool::Mempool;
use paqus_node::mempool::policy::{MempoolConfig, SignatureVerdicts};
use paqus_node::params::{
    DEFAULT_MARKET_FEE, DEFAULT_TRANSACTION_FEE, LOW_FEE_EXPIRY_SECS, MAX_RELAY_TRANSACTION_AGE_SECS,
    MAX_RELAY_TRANSACTION_FUTURE_SECS, MEMPOOL_EXPIRY_SECS,
};
use paqus_node::template::BlockRules;
use paqus_node::transaction::{SignedTransaction, Transaction, TransactionError, ValidityWindow};

const NOW: u64 = 1_700_000_500;

const VALID: SignatureVerdicts = SignatureVerdicts {
    at_now: Ok(()),
    timeless: Ok(()),
};

fn address(byte: u8) -> Address {
    Address([byte; 20])
}

/// A hash that differs for different transfers.
fn hash_of(t: &Transaction) -> TransactionHash {
    let mut bytes = [0u8; 32];
    bytes[0] = t.from.0[0];
    bytes[1..9].copy_from_slice(&t.nonce.0.to_be_bytes());
    bytes[9..17].copy_from_slice(&t.fee.0.to_be_bytes());
    bytes[17..25].copy_from_slice(&t.timestamp.to_be_bytes());
    TransactionHash(bytes)
}

fn signed(payload: Transaction, virtual_size: usize) -> SignedTransaction {
    let hash = hash_of(&payload);
    SignedTransaction {
        transaction: payload,
        total_amount: Some(payload.amount),
        witness: payload.from,
        hash,
        wtxid: hash,
        serialized_size: virtual_size * 2,
        stripped_size: virtual_size,
        witness_size: virtual_size,
        virtual_size,
    }
}

fn signed_transaction_with_fee_at(
    from: Address,
    to: Address,
    amount: u64,
    fee: u64,
    nonce: u64,
    timestamp: u64,
) -> SignedTransaction {
    signed(
        Transaction {
            from,
            to,
            amount: Amount(amount),
            fee: Amount(fee),
            nonce: Nonce(nonce),
            timestamp,
            validity: ValidityWindow::always(),
        },
        4,
    )
}

fn signed_transaction_with_fee_rate_at(
    from: Address,
    to: Address,
    amount: u64,
    fee_rate: u64,
    nonce: u64,
    timestamp: u64,
) -> SignedTransaction {
    let template = signed_transaction_with_fee_at(from, to, amount, 0, nonce, timestamp);
    let fee = required_fee_for_rate(fee_rate, template.virtual_size);
    signed_transaction_with_fee_at(from, to, amount, fee, nonce, timestamp)
}

#[test]
fn prunes_low_fee_transactions_after_low_fee_expiry() {
    let transaction =
        signed_transaction_with_fee_rate_at(address(1), address(2), 10, 1, 0, 1_000);
    let hash = transaction.hash;
    let mut mempool = Mempool::with_config(MempoolConfig {
        min_relay_fee: 1,
        market_fee: 5,
        low_fee_ttl_secs: LOW_FEE_EXPIRY_SECS,
        transaction_ttl_secs: MEMPOOL_EXPIRY_SECS,
        ..MempoolConfig::default()
    });

    mempool.insert_at(transaction, 1_000, Ok(())).unwrap();

    assert_eq!(
        mempool.prune_expired(1_000 + LOW_FEE_EXPIRY_SECS + 1),
        1
    );
    assert!(!mempool.contains(&hash));
}

#[test]
fn keeps_market_fee_transactions_until_full_mempool_expiry() {
    let transaction = signed_transaction_with_fee_rate_at(
        address(1),
        address(2),
        10,
        DEFAULT_MARKET_FEE,
        0,
        1_000,
    );
    let hash = transaction.hash;
    let mut mempool = Mempool::with_config(MempoolConfig {
        market_fee: DEFAULT_MARKET_FEE,
        low_fee_ttl_secs: LOW_FEE_EXPIRY_SECS,
        transaction_ttl_secs: MEMPOOL_EXPIRY_SECS,
        ..MempoolConfig::default()
    });

    mempool.insert_at(transaction, 1_000, Ok(())).unwrap();

    assert_eq!(
        mempool.prune_expired(1_000 + LOW_FEE_EXPIRY_SECS + 1),
        0
    );
    assert!(mempool.contains(&hash));
    assert_eq!(
        mempool.prune_expired(1_000 + MEMPOOL_EXPIRY_SECS + 1),
        1
    );
    assert!(!mempool.contains(&hash));
}

#[test]
fn dynamic_market_fee_rate_increases_with_mempool_pressure() {
    let first = signed_transaction_with_fee_rate_at(address(1), address(2), 10, 2, 0, 1_000);
    let second = signed_transaction_with_fee_rate_at(address(4), address(3), 10, 2, 0, 1_001);
    let second_hash = second.hash;
    let mut mempool = Mempool::with_config(MempoolConfig {
        max_transactions: 2,
        min_relay_fee: 1,
        market_fee: 2,
        low_fee_ttl_secs: LOW_FEE_EXPIRY_SECS,
        transaction_ttl_secs: MEMPOOL_EXPIRY_SECS,
        ..MempoolConfig::default()
    });

    assert_eq!(mempool.mempool_pressure_bps(), 0);
    assert_eq!(mempool.dynamic_market_fee_rate(), 2);

    mempool.insert_at(first, 1_000, Ok(())).unwrap();

    assert_eq!(mempool.mempool_pressure_bps(), 5_000);
    assert_eq!(mempool.dynamic_market_fee_rate(), 10);

    mempool.insert_at(second, 1_001, Ok(())).unwrap();

    assert_eq!(
        mempool.prune_expired(1_001 + LOW_FEE_EXPIRY_SECS + 1),
        1
    );
    assert!(!mempool.contains(&second_hash));
}

#[test]
fn sender_nonce_index_tracks_replacement_prune_and_clear() {
    let sender = address(1);
    let mut ledger = Ledger::new(Amount(0));
    ledger.put_account(Account::new(sender, Amount(100)));

    let mut mempool = Mempool::with_config(MempoolConfig {
        min_relay_fee: 1,
        market_fee: 5,
        low_fee_ttl_secs: LOW_FEE_EXPIRY_SECS,
        transaction_ttl_secs: MEMPOOL_EXPIRY_SECS,
        ..MempoolConfig::default()
    });
    let original = signed_transaction_with_fee_rate_at(sender, address(2), 10, 1, 0, 1_000);
    let original_hash = mempool
        .insert_validated_at(&ledger, original, 1_000, VALID)
        .unwrap();
    assert_eq!(mempool.hash_at(sender, Nonce(0)), Some(original_hash));
    assert_eq!(mempool.queue_head(sender), Some(original_hash));
    assert!(mempool.expiry(&original_hash).is_some());
    assert_eq!(mempool.index_sizes().expiries, 1);
    assert_eq!(mempool.transactions_for_address(&sender).len(), 1);

    let replacement = signed_transaction_with_fee_rate_at(sender, address(2), 10, 2, 0, 1_001);
    let replacement_hash = mempool
        .insert_validated_at(&ledger, replacement, 1_001, VALID)
        .unwrap();
    assert!(!mempool.contains(&original_hash));
    assert_eq!(mempool.hash_at(sender, Nonce(0)), Some(replacement_hash));
    assert_eq!(mempool.queue_head(sender), Some(replacement_hash));
    assert_eq!(mempool.index_sizes().heads_by_fee, 1);
    assert!(mempool.expiry(&original_hash).is_none());
    assert!(mempool.expiry(&replacement_hash).is_some());
    assert_eq!(mempool.index_sizes().expiries, 1);
    assert_eq!(mempool.transactions_for_address(&sender).len(), 1);

    assert_eq!(
        mempool.prune_expired(1_001 + LOW_FEE_EXPIRY_SECS + 1),
        1
    );
    assert_eq!(mempool.index_sizes().places, 0);
    assert_eq!(mempool.index_sizes().heads, 0);
    assert_eq!(mempool.index_sizes().heads_by_fee, 0);
    assert!(mempool.expiry(&replacement_hash).is_none());
    assert_eq!(mempool.index_sizes().expiries, 0);
    assert_eq!(mempool.transactions_for_address(&sender).len(), 0);

    let fresh = signed_transaction_with_fee_rate_at(sender, address(2), 10, 5, 0, 2_000);
    let fresh_hash = mempool
        .insert_validated_at(&ledger, fresh, 2_000, VALID)
        .unwrap();
    assert_eq!(mempool.index_sizes().places, 1);
    assert_eq!(mempool.index_sizes().heads, 1);
    assert_eq!(mempool.index_sizes().heads_by_fee, 1);
    assert!(mempool.expiry(&fresh_hash).is_some());
    assert_eq!(mempool.index_sizes().expiries, 1);
    assert_eq!(mempool.transactions_for_address(&sender).len(), 1);
    mempool.clear();
    assert_eq!(mempool.index_sizes().places, 0);
    assert_eq!(mempool.index_sizes().heads, 0);
    assert_eq!(mempool.index_sizes().heads_by_fee, 0);
    assert!(mempool.expiry(&fresh_hash).is_none());
    assert_eq!(mempool.index_sizes().expiries, 0);
    assert_eq!(mempool.transactions_for_address(&sender).len(), 0);
}

#[test]
fn selects_transactions_by_fee_without_breaking_sender_nonce_order() {
    let first_sender = address(1);
    let second_sender = address(3);
    let receiver = address(2);
    let mut mempool = Mempool::new();
    let now = NOW;
    let first_slow = signed_transaction_with_fee_rate_at(first_sender, receiver, 10, 2, 0, now);
    let first_aggressive =
        signed_transaction_with_fee_rate_at(first_sender, receiver, 10, 9, 1, now);
    let second_fast = signed_transaction_with_fee_rate_at(second_sender, receiver, 10, 5, 0, now);
    let second_fast_fee = second_fast.transaction.fee;
    let first_aggressive_fee = first_aggressive.transaction.fee;

    mempool.insert_at(first_aggressive, now, Ok(())).unwrap();
    mempool.insert_at(first_slow, now, Ok(())).unwrap();
    mempool.insert_at(second_fast, now, Ok(())).unwrap();

    let selected = mempool.select_for_block_with_min_fee_rate(3, 0);

    assert_eq!(selected[0].transaction.from, second_sender);
    assert_eq!(selected[0].transaction.fee, second_fast_fee);
    assert_eq!(selected[1].transaction.from, first_sender);
    assert_eq!(selected[1].transaction.nonce, Nonce(0));
    assert_eq!(selected[2].transaction.from, first_sender);
    assert_eq!(selected[2].transaction.nonce, Nonce(1));
    assert_eq!(selected[2].transaction.fee, first_aggressive_fee);
}

#[test]
fn candidate_selection_respects_block_height_validity_window() {
    let payload = Transaction {
        from: address(1),
        to: address(2),
        amount: Amount(1),
        fee: Amount(DEFAULT_TRANSACTION_FEE),
        nonce: Nonce(0),
        timestamp: NOW,
        validity: ValidityWindow::new(Height(5), Height(7)).unwrap(),
    };
    let transfer = signed(payload, 2);
    let mut mempool = Mempool::new();
    mempool.insert_at(transfer, NOW, Ok(())).unwrap();

    assert!(
        mempool
            .select_for_block_at_height(1, 0, Height(4))
            .is_empty()
    );
    assert_eq!(
        mempool.select_for_block_at_height(1, 0, Height(5)),
        vec![transfer]
    );
    assert_eq!(
        mempool.select_for_block_at_height(1, 0, Height(7)),
        vec![transfer]
    );
    assert!(
        mempool
            .select_for_block_at_height(1, 0, Height(8))
            .is_empty()
    );
}

fn rules() -> BlockRules {
    BlockRules {
        max_size: 1_000_000,
        max_weight: 4_000_000,
        difficulty_start: 1,
    }
}

fn small() -> BlockSizes {
    BlockSizes {
        serialized: 100,
        stripped: 80,
        witness: 20,
        weight: 300,
    }
}

fn block(height: u64, hash: u8, transactions: Vec<SignedTransaction>) -> Block {
    Block {
        header: BlockHeader {
            version: 1,
            height: Height(height),
            previous_hash: BlockHash([0; 32]),
            merkle_root: [0; 32],
            witness_root: [0; 32],
            state_root: [0; 32],
            miner_address: address(9),
            difficulty: 1,
            timestamp: 1_700_000_000,
            nonce: Nonce(0),
        },
        hash: BlockHash([hash; 32]),
        coinbase: None,
        genesis_allocations: vec![],
        transactions,
        qcash_transactions: vec![],
        total_fees: Some(Amount(0)),
        sizes: small(),
    }
}

#[test]
fn miner_min_fee_rate_filters_candidate_block_transactions() {
    let low_sender = address(1);
    let high_sender = address(3);
    let to = address(2);
    let miner = address(9);
    let mut ledger = Ledger::new(Amount(25));
    ledger.put_account(Account::new(low_sender, Amount(100)));
    ledger.put_account(Account::new(high_sender, Amount(100)));
    ledger.put_account(Account::new(to, Amount(0)));
    ledger.put_account(Account::new(miner, Amount(0)));
    ledger.put_block(block(0, 7, vec![]));

    let mut mempool = Mempool::new();
    let now = NOW;
    let low_fee = signed_transaction_with_fee_rate_at(low_sender, to, 1, 2, 0, now);
    let high_fee = signed_transaction_with_fee_rate_at(high_sender, to, 1, 10, 0, now);
    mempool
        .insert_validated_at(&ledger, low_fee, now, VALID)
        .unwrap();
    mempool
        .insert_validated_at(&ledger, high_fee, now, VALID)
        .unwrap();

    let block = mempool
        .create_candidate_block_with_min_fee_rate(
            &ledger,
            miner,
            1_700_000_001,
            Nonce(0),
            10,
            10,
            &rules(),
            |_| small(),
            |_| Ok([5; 32]),
        )
        .unwrap();

    assert_eq!(block.transaction_count(), 1);
    assert_eq!(block.transactions[0].transaction.from, high_sender);
    assert_eq!(block.header.height, Height(1));
    assert_eq!(block.header.previous_hash, BlockHash([7; 32]));
    assert_eq!(block.header.state_root, [5; 32]);
    assert_eq!(
        block.header.coinbase,
        Some(CoinbaseTransaction {
            to: miner,
            subsidy: Amount(25),
            fees: high_fee.transaction.fee,
        })
    );
}

#[test]
fn candidate_blocks_keep_the_size_limit() {
    let mut ledger = Ledger::new(Amount(25));
    ledger.put_account(Account::new(address(1), Amount(100)));
    ledger.put_account(Account::new(address(3), Amount(100)));
    ledger.put_block(block(0, 7, vec![]));
    let mut mempool = Mempool::new();
    for from in [1u8, 3] {
        let tx = signed_transaction_with_fee_rate_at(address(from), address(2), 1, 3, 0, NOW);
        mempool
            .insert_validated_at(&ledger, tx, NOW, VALID)
            .unwrap();
    }
    assert_eq!(mempool.candidate_fees(&ledger, 10, 0), Some(24));
    let block = mempool
        .create_candidate_block(
            &ledger,
            address(9),
            1_700_000_001,
            Nonce(4),
            10,
            &rules(),
            |template| BlockSizes {
                serialized: 600_000 * template.transactions.len(),
                ..small()
            },
            |_| Ok([0; 32]),
        )
        .unwrap();
    assert_eq!(block.transactions.len(), 1);
    assert_eq!(block.header.nonce, Nonce(4));
    assert_eq!(block.header.coinbase.unwrap().fees, Amount(12));
}

#[test]
fn a_failing_execution_fails_the_candidate() {
    let mut ledger = Ledger::new(Amount(25));
    ledger.put_block(block(0, 7, vec![]));
    let mempool = Mempool::new();
    let outcome = mempool.create_candidate_block(
        &ledger,
        address(9),
        1,
        Nonce(0),
        10,
        &rules(),
        |_| small(),
        |_| Err(LedgerError::InvalidState(StateError::InsufficientBalance)),
    );
    assert_eq!(
        outcome,
        Err(LedgerError::InvalidState(StateError::InsufficientBalance))
    );
}

#[test]
fn fees_follow_rate_and_size() {
    assert_eq!(required_fee_for_rate(3, 250), 750);
    assert_eq!(required_fee_for_rate(0, 250), 0);
    assert_eq!(required_fee_for_rate(3, 0), 0);
    assert_eq!(required_fee_for_rate(u64::MAX, 2), u64::MAX);
    assert_eq!(fee_rate_key(750, 250), 3);
    assert_eq!(fee_rate_key(749, 250), 2);
    assert_eq!(fee_rate_key(1, 0), u64::MAX);
    assert_eq!(occupancy_bps(1, 2), 5_000);
    assert_eq!(occupancy_bps(3, 2), 10_000);
    assert_eq!(occupancy_bps(1, 0), 10_000);
    assert_eq!(pressured_rate(2, 10_000), 18);
    assert_eq!(pressured_rate(2, 0), 2);
}

#[test]
fn duplicates_are_refused() {
    let mut mempool = Mempool::new();
    let tx = signed_transaction_with_fee_rate_at(address(1), address(2), 1, 2, 0, NOW);
    assert_eq!(mempool.insert_at(tx, NOW, Ok(())), Ok(tx.hash));
    assert_eq!(
        mempool.insert_at(tx, NOW, Ok(())),
        Err(MempoolError::DuplicateTransaction)
    );
}

#[test]
fn a_replacement_must_pay_more() {
    let mut ledger = Ledger::new(Amount(0));
    ledger.put_account(Account::new(address(1), Amount(100)));
    let mut mempool = Mempool::new();
    let tx = signed_transaction_with_fee_at(address(1), address(2), 1, 20, 0, NOW);
    let same = signed_transaction_with_fee_at(address(1), address(2), 1, 20, 0, NOW + 1);
    let more = signed_transaction_with_fee_at(address(1), address(2), 1, 21, 0, NOW + 1);
    mempool
        .insert_validated_at(&ledger, tx, NOW, VALID)
        .unwrap();
    assert_eq!(
        mempool.insert_validated_at(&ledger, same, NOW, VALID),
        Err(MempoolError::ReplacementFeeTooLow)
    );
    assert_eq!(
        mempool.insert_at(more, NOW, Ok(())),
        Err(MempoolError::DuplicateTransaction)
    );
    assert_eq!(
        mempool.insert_validated_at(&ledger, more, NOW, VALID),
        Ok(more.hash)
    );
    assert_eq!(mempool.len(), 1);
    assert!(!mempool.contains(&tx.hash));
    assert_eq!(mempool.get(&more.hash), Some(&more));
}

#[test]
fn cheap_transactions_are_refused() {
    let mut mempool = Mempool::with_config(MempoolConfig {
        min_relay_fee: 3,
        ..MempoolConfig::default()
    });
    let tx = signed_transaction_with_fee_at(address(1), address(2), 1, 11, 0, NOW);
    assert_eq!(
        mempool.insert_at(tx, NOW, Ok(())),
        Err(MempoolError::FeeTooLow)
    );
    let enough = signed_transaction_with_fee_at(address(1), address(2), 1, 12, 0, NOW);
    assert!(mempool.insert_at(enough, NOW, Ok(())).is_ok());
}

#[test]
fn a_full_pool_refuses_newcomers_until_something_leaves() {
    let mut mempool = Mempool::with_config(MempoolConfig {
        max_transactions: 1,
        ..MempoolConfig::default()
    });
    let first = signed_transaction_with_fee_rate_at(address(1), address(2), 1, 2, 0, NOW);
    let second = signed_transaction_with_fee_rate_at(address(3), address(2), 1, 9, 0, NOW);
    mempool.insert_at(first, NOW, Ok(())).unwrap();
    assert_eq!(
        mempool.insert_at(second, NOW, Ok(())),
        Err(MempoolError::MempoolFull)
    );
    assert_eq!(mempool.remove(&first.hash), Some(first));
    assert_eq!(mempool.remove(&first.hash), None);
    assert!(mempool.insert_at(second, NOW, Ok(())).is_ok());
}

#[test]
fn a_pool_without_bytes_left_refuses_newcomers() {
    let mut mempool = Mempool::with_config(MempoolConfig {
        max_bytes: 10,
        ..MempoolConfig::default()
    });
    let first = signed_transaction_with_fee_rate_at(address(1), address(2), 1, 2, 0, NOW);
    let second = signed_transaction_with_fee_rate_at(address(3), address(2), 1, 9, 0, NOW);
    mempool.insert_at(first, NOW, Ok(())).unwrap();
    assert_eq!(mempool.total_bytes(), 8);
    assert_eq!(
        mempool.insert_at(second, NOW, Ok(())),
        Err(MempoolError::MempoolFull)
    );
}

#[test]
fn invalid_signatures_are_refused() {
    let mut mempool = Mempool::new();
    let tx = signed_transaction_with_fee_rate_at(address(1), address(2), 1, 2, 0, NOW);
    assert_eq!(
        mempool.insert_at(tx, NOW, Err(TransactionError::InvalidSignature)),
        Err(MempoolError::InvalidTransaction(
            TransactionError::InvalidSignature
        ))
    );
    assert!(mempool.is_empty());
}

#[test]
fn timestamps_are_held_to_the_relay_window() {
    let mut mempool = Mempool::new();
    let early = signed_transaction_with_fee_rate_at(
        address(1),
        address(2),
        1,
        2,
        0,
        NOW - MAX_RELAY_TRANSACTION_AGE_SECS - 1,
    );
    assert_eq!(
        mempool.insert_at(early, NOW, Ok(())),
        Err(MempoolError::InvalidTransaction(TransactionError::Expired))
    );
    let late = signed_transaction_with_fee_rate_at(
        address(1),
        address(2),
        1,
        2,
        0,
        NOW + MAX_RELAY_TRANSACTION_FUTURE_SECS + 1,
    );
    assert_eq!(
        mempool.insert_at(late, NOW, Ok(())),
        Err(MempoolError::InvalidTransaction(
            TransactionError::FromFuture
        ))
    );
}

#[test]
fn the_chain_has_a_say() {
    let mut ledger = Ledger::new(Amount(0));
    let mut mempool = Mempool::new();
    let tx = signed_transaction_with_fee_rate_at(address(1), address(2), 50, 2, 0, NOW);
    assert_eq!(
        mempool.insert_validated_at(&ledger, tx, NOW, VALID),
        Err(MempoolError::InvalidLedger(LedgerError::AccountNotFound))
    );
    ledger.put_account(Account::new(address(1), Amount(57)));
    assert_eq!(
        mempool.insert_validated_at(&ledger, tx, NOW, VALID),
        Err(MempoolError::InvalidLedger(LedgerError::InvalidState(
            StateError::InsufficientBalance
        )))
    );
    ledger.put_account(Account::new(address(1), Amount(58)));
    let gap = signed_transaction_with_fee_rate_at(address(1), address(2), 1, 2, 1, NOW);
    assert_eq!(
        mempool.insert_validated_at(&ledger, gap, NOW, VALID),
        Err(MempoolError::InvalidLedger(LedgerError::InvalidState(
            StateError::InvalidNonce
        )))
    );
    assert_eq!(mempool.validate_against_ledger(&ledger, &tx, Ok(())), Ok(()));
    assert_eq!(
        mempool.insert_validated_at(&ledger, tx, NOW, VALID),
        Ok(tx.hash)
    );
}

#[test]
fn confirmed_transactions_leave() {
    let mut mempool = Mempool::new();
    let first = signed_transaction_with_fee_rate_at(address(1), address(2), 1, 2, 0, NOW);
    let second = signed_transaction_with_fee_rate_at(address(3), address(2), 1, 2, 0, NOW);
    mempool.insert_at(first, NOW, Ok(())).unwrap();
    mempool.insert_at(second, NOW, Ok(())).unwrap();
    assert_eq!(mempool.transactions(), vec![first, second]);
    assert_eq!(mempool.transactions_for_address(&address(2)).len(), 2);
    mempool.remove_confirmed(&block(1, 8, vec![first]));
    assert_eq!(mempool.transactions(), vec![second]);
    assert!(!mempool.contains_sender(address(1)));
    assert!(mempool.contains_sender(address(3)));
}

#[test]
fn pruning_twice_removes_nothing_more() {
    let mut mempool = Mempool::new();
    for from in 1..6u8 {
        let tx = signed_transaction_with_fee_rate_at(
            address(from),
            address(9),
            1,
            from as u64,
            0,
            1_000,
        );
        mempool.insert_at(tx, 1_000, Ok(())).unwrap();
    }
    let later = 1_000 + MEMPOOL_EXPIRY_SECS + 1;
    assert_eq!(mempool.prune_expired(later), 5);
    assert_eq!(mempool.prune_expired(later), 0);
}

#[test]
fn removal_undoes_an_insertion() {
    let mut mempool = Mempool::new();
    let first = signed_transaction_with_fee_rate_at(address(1), address(2), 1, 2, 0, NOW);
    let second = signed_transaction_with_fee_rate_at(address(3), address(2), 1, 2, 0, NOW);
    mempool.insert_at(first, NOW, Ok(())).unwrap();
    let bytes = mempool.total_bytes();
    mempool.insert_at(second, NOW, Ok(())).unwrap();
    mempool.remove(&second.hash);
    assert_eq!(mempool.transactions(), vec![first]);
    assert_eq!(mempool.total_bytes(), bytes);
    assert_eq!(
        mempool.select_for_block_with_min_fee_rate(10, 2),
        vec![first]
    );
    assert_eq!(mempool.dynamic_market_fee_rate(), 3);
    assert!(mempool.select_for_block(10).is_empty());
}

#[test]
fn windows_end_after_they_begin() {
    assert_eq!(
        ValidityWindow::new(Height(2), Height(1)),
        Err(TransactionError::InvalidValidityWindow)
    );
    let window = ValidityWindow::new(Height(2), Height(2)).unwrap();
    assert_eq!(window.validate_at(Height(2)), Ok(()));
    assert_eq!(
        window.validate_at(Height(3)),
        Err(TransactionError::OutsideValidityWindow)
    );
}

#[test]
fn pressure_and_rates_only_grow() {
    let mut last = 0;
    for used in 0..=20 {
        let pressure = occupancy_bps(used, 10);
        assert!(pressure >= last);
        assert!(pressured_rate(7, pressure) >= pressured_rate(7, last));
        last = pressure;
    }
    assert_eq!(last, 10_000);
}

#[test]
fn an_owed_fee_reaches_its_rate() {
    for (rate, size) in [(1u64, 1usize), (3, 250), (17, 999)] {
        assert_eq!(fee_rate_key(required_fee_for_rate(rate, size), size), rate);
    }
}

#[test]
fn cheap_transactions_leave_before_dear_ones() {
    let mut mempool = Mempool::new();
    let cheap = signed_transaction_with_fee_rate_at(address(1), address(2), 1, 1, 0, 1_000);
    let dear = signed_transaction_with_fee_rate_at(address(3), address(2), 1, 50, 0, 1_000);
    mempool.insert_at(cheap, 1_000, Ok(())).unwrap();
    mempool.insert_at(dear, 1_000, Ok(())).unwrap();
    let cheap_end = mempool.expiry(&cheap.hash).unwrap();
    let dear_end = mempool.expiry(&dear.hash).unwrap();
    assert_eq!(cheap_end, 1_000 + LOW_FEE_EXPIRY_SECS + 1);
    assert_eq!(dear_end, 1_000 + MEMPOOL_EXPIRY_SECS + 1);
    assert_eq!(mempool.prune_expired(cheap_end - 1), 0);
    assert_eq!(mempool.prune_expired(cheap_end), 1);
    assert!(mempool.contains(&dear.hash));
}

fn assert_within_limits(mempool: &Mempool) {
    let pending = mempool.transactions();
    let bytes: usize = pending.iter().map(|tx| tx.serialized_size).sum();
    assert_eq!(mempool.total_bytes(), bytes);
    assert!(mempool.len() <= mempool.config().max_transactions);
    assert!(bytes <= mempool.config().max_bytes);
    for (i, a) in pending.iter().enumerate() {
        for b in &pending[..i] {
            assert!(
                a.transaction.from != b.transaction.from
                    || a.transaction.nonce != b.transaction.nonce
            );
        }
    }
}

#[test]
fn limits_hold_after_every_step() {
    let mut mempool = Mempool::with_config(MempoolConfig {
        max_transactions: 3,
        max_bytes: 20,
        ..MempoolConfig::default()
    });
    assert_within_limits(&mempool);
    let offered: Vec<SignedTransaction> = (1..=4)
        .map(|from| {
            signed_transaction_with_fee_rate_at(address(from), address(9), 1, 2, 0, NOW)
        })
        .collect();
    assert_eq!(
        mempool.insert_at(offered[0], NOW, Ok(())),
        Ok(offered[0].hash)
    );
    assert_within_limits(&mempool);
    assert_eq!(
        mempool.insert_at(offered[1], NOW, Ok(())),
        Ok(offered[1].hash)
    );
    assert_within_limits(&mempool);
    let before = mempool.transactions();
    assert_eq!(
        mempool.insert_at(offered[2], NOW, Ok(())),
        Err(MempoolError::MempoolFull)
    );
    assert_eq!(mempool.transactions(), before);
    assert_within_limits(&mempool);
    mempool.remove(&offered[0].hash);
    assert_within_limits(&mempool);
    assert!(mempool.insert_at(offered[3], NOW, Ok(())).is_ok());
    assert_within_limits(&mempool);
    mempool.prune_expired(u64::MAX);
    assert_within_limits(&mempool);
    assert!(mempool.is_empty());
    mempool.insert_at(offered[0], NOW, Ok(())).unwrap();
    mempool.clear();
    assert_within_limits(&mempool);
    assert_eq!(mempool.len(), 0);
}

#[test]
fn bytes_are_counted_without_a_byte_limit() {
    let mut mempool = Mempool::with_config(MempoolConfig {
        max_bytes: usize::MAX,
        ..MempoolConfig::default()
    });
    let mut expected = 0;
    for from in 1..=5 {
        let tx = signed_transaction_with_fee_rate_at(address(from), address(9), 1, 2, 0, NOW);
        expected += tx.serialized_size;
        mempool.insert_at(tx, NOW, Ok(())).unwrap();
        assert_eq!(mempool.total_bytes(), expected);
        assert_within_limits(&mempool);
    }
    let first = mempool.transactions()[0];
    mempool.remove(&first.hash);
    assert_eq!(mempool.total_bytes(), expected - first.serialized_size);
}
