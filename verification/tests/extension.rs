use paqus_node::chain::{Block, BlockHeader, BlockSizes, CoinbaseTransaction, LedgerError};
use paqus_node::ids::{Address, Amount, BlockHash, CashCoinId, Height, Nonce, TransactionHash};
use paqus_node::mempool::error::MempoolError;
use paqus_node::mempool::extension::{fee_rate, ExtensionMempool};
use paqus_node::template::{BlockRules, BlockTemplate, TemplateHeader};
use paqus_node::transaction::{
    QCashRecord, QCashTransactionKind, SignedProtocolTransaction, SignedQCashTransaction,
    SignedTransaction, Transaction, TransactionFamily, ValidityWindow,
};

fn address(byte: u8) -> Address {
    Address([byte; 20])
}

fn qcash(
    signer: u8,
    hash: u8,
    fee: u64,
    kind: QCashTransactionKind,
    coins: Vec<CashCoinId>,
) -> SignedQCashTransaction {
    SignedQCashTransaction {
        record: QCashRecord {
            signer: address(signer),
            fee: Amount(fee),
            nonce: Nonce(0),
            timestamp: 1_000,
            validity: ValidityWindow::always(),
            kind,
            witness: address(signer),
            hash: TransactionHash([hash; 32]),
            wtxid: TransactionHash([hash + 100; 32]),
            stripped_size: 8,
            witness_size: 4,
            virtual_size: 10,
        },
        deposited_coins: coins,
    }
}

fn deposit(signer: u8, hash: u8, fee: u64, coins: Vec<CashCoinId>) -> SignedProtocolTransaction {
    SignedProtocolTransaction::QCash(qcash(
        signer,
        hash,
        fee,
        QCashTransactionKind::DepositCash {
            recipient: address(signer),
            amount: Some(Amount(1_000_000)),
        },
        coins,
    ))
}

fn withdrawal(signer: u8, hash: u8, fee: u64) -> SignedProtocolTransaction {
    SignedProtocolTransaction::QCash(qcash(
        signer,
        hash,
        fee,
        QCashTransactionKind::WithdrawCash { amount: Amount(5) },
        vec![],
    ))
}

fn accept(_: &SignedProtocolTransaction, _: Height) -> Result<(), LedgerError> {
    Ok(())
}

#[test]
fn reserves_ecash_coin_across_the_unified_extension_pool() {
    let coin = CashCoinId([11; 32]);
    let first = deposit(13, 1, 0, vec![coin]);
    let second = deposit(20, 2, 0, vec![coin]);
    let mut pool = ExtensionMempool::new();
    let first_hash = pool
        .insert_validated(Some(Height(0)), first, accept)
        .unwrap();
    assert_eq!(
        pool.insert_validated(Some(Height(0)), second.duplicate(), accept),
        Err(MempoolError::CashCoinReserved)
    );
    pool.remove(&first_hash).unwrap();
    assert!(pool.insert_validated(Some(Height(0)), second, accept).is_ok());
}

#[test]
fn transfers_belong_elsewhere() {
    let transaction = Transaction {
        from: address(1),
        to: address(2),
        amount: Amount(10),
        fee: Amount(8),
        nonce: Nonce(0),
        timestamp: 1_000,
        validity: ValidityWindow::always(),
    };
    let transfer = SignedProtocolTransaction::Transfer(SignedTransaction {
        transaction,
        total_amount: Some(Amount(10)),
        witness: address(1),
        hash: TransactionHash([1; 32]),
        wtxid: TransactionHash([2; 32]),
        serialized_size: 6,
        stripped_size: 4,
        witness_size: 2,
        virtual_size: 4,
    });
    let mut pool = ExtensionMempool::new();
    assert_eq!(
        pool.insert_validated(None, transfer, accept),
        Err(MempoolError::UnsupportedFamily)
    );
}

#[test]
fn a_signer_has_one_pending_transaction() {
    let mut pool = ExtensionMempool::new();
    pool.insert_validated(None, withdrawal(1, 1, 5), accept)
        .unwrap();
    assert_eq!(
        pool.insert_validated(None, withdrawal(1, 2, 9), accept),
        Err(MempoolError::DuplicateTransaction)
    );
    assert_eq!(
        pool.insert_validated(None, withdrawal(2, 1, 9), accept),
        Err(MempoolError::DuplicateTransaction)
    );
    assert!(pool.contains_signer(address(1)));
    assert!(!pool.contains_signer(address(2)));
}

#[test]
fn the_chain_is_asked_about_the_next_height() {
    let mut pool = ExtensionMempool::new();
    let refused = pool.insert_validated(Some(Height(41)), withdrawal(1, 1, 5), |_, height| {
        if height == Height(42) {
            Err(LedgerError::InvalidTimestamp)
        } else {
            Ok(())
        }
    });
    assert_eq!(
        refused,
        Err(MempoolError::InvalidLedger(LedgerError::InvalidTimestamp))
    );
    assert!(pool.is_empty());
}

#[test]
fn selection_ranks_by_fee_rate() {
    let mut pool = ExtensionMempool::new();
    pool.insert_validated(None, withdrawal(1, 1, 10), accept)
        .unwrap();
    pool.insert_validated(None, withdrawal(2, 2, 30), accept)
        .unwrap();
    pool.insert_validated(None, withdrawal(3, 3, 20), accept)
        .unwrap();
    let order: Vec<u8> = pool
        .select_for_block(Height(1), 3, 0)
        .iter()
        .map(|tx| tx.hash().0[0])
        .collect();
    assert_eq!(order, vec![2, 3, 1]);
    assert_eq!(pool.select_for_block(Height(1), 1, 0).len(), 1);
    assert_eq!(pool.select_for_block(Height(1), 3, 2).len(), 2);
    assert_eq!(fee_rate(30, 10), 3);
    assert_eq!(fee_rate(30, 0), u64::MAX);
}

fn template() -> BlockTemplate {
    BlockTemplate {
        header: TemplateHeader {
            height: Height(1),
            previous_hash: BlockHash([7; 32]),
            miner_address: address(9),
            difficulty: 1,
            timestamp: 5,
            nonce: Nonce(0),
            state_root: [0; 32],
            coinbase: Some(CoinbaseTransaction {
                to: address(9),
                subsidy: Amount(25),
                fees: Amount(0),
            }),
        },
        transactions: vec![],
        qcash_transactions: vec![],
    }
}

fn measured(template: &BlockTemplate) -> BlockSizes {
    BlockSizes {
        serialized: template.qcash_transactions.len(),
        stripped: 0,
        witness: 0,
        weight: 0,
    }
}

#[test]
fn blocks_are_filled_up_to_their_limits() {
    let mut pool = ExtensionMempool::new();
    for n in 1..5u8 {
        pool.insert_validated(None, withdrawal(n, n, 10 * n as u64), accept)
            .unwrap();
    }
    let rules = BlockRules {
        max_size: 2,
        max_weight: 10,
        difficulty_start: 1,
    };
    let mut block = template();
    pool.append_selected_to_block(&mut block, 10, 0, &rules, measured);
    assert_eq!(block.qcash_transactions.len(), 2);
    assert_eq!(block.qcash_transactions[0].record.hash.0[0], 4);
    assert_eq!(block.qcash_transactions[1].record.hash.0[0], 3);
    assert_eq!(block.header.coinbase.unwrap().fees, Amount(70));
    let mut short = template();
    pool.append_selected_to_block(&mut short, 1, 0, &rules, measured);
    assert_eq!(short.qcash_transactions.len(), 1);
}

#[test]
fn confirmed_extension_transactions_leave() {
    let mut pool = ExtensionMempool::new();
    let first = qcash(
        1,
        1,
        10,
        QCashTransactionKind::WithdrawCash { amount: Amount(5) },
        vec![],
    );
    pool.insert_validated(
        None,
        SignedProtocolTransaction::QCash(first.duplicate()),
        accept,
    )
    .unwrap();
    pool.insert_validated(None, deposit(2, 2, 10, vec![CashCoinId([3; 32])]), accept)
        .unwrap();
    assert_eq!(pool.len(), 2);
    assert_eq!(
        pool.transactions_for_family(TransactionFamily::Transfer).len(),
        0
    );
    let block = Block {
        header: BlockHeader {
            version: 1,
            height: Height(1),
            previous_hash: BlockHash([0; 32]),
            merkle_root: [0; 32],
            witness_root: [0; 32],
            state_root: [0; 32],
            miner_address: address(9),
            difficulty: 1,
            timestamp: 1,
            nonce: Nonce(0),
        },
        hash: BlockHash([4; 32]),
        coinbase: None,
        genesis_allocations: vec![],
        transactions: vec![],
        qcash_transactions: vec![first],
        total_fees: Some(Amount(0)),
        sizes: measured(&template()),
    };
    pool.remove_confirmed(&block);
    assert!(!pool.contains(&TransactionHash([1; 32])));
    assert!(pool.contains(&TransactionHash([2; 32])));
    assert_eq!(pool.transactions().len(), 1);
    assert!(pool.get(&TransactionHash([2; 32])).is_some());
}
