use paqus_node::cache::CoreCache;
use paqus_node::chain::{Account, Block, BlockHeader, BlockSizes, Ledger};
use paqus_node::ids::{Address, Amount, BlockHash, Height, Nonce, TransactionHash};
use paqus_node::mempool::error::MempoolError;
use paqus_node::mempool::mempool::Mempool;
use paqus_node::transaction::{SignedTransaction, Transaction, TransactionError, ValidityWindow};
use std::cell::Cell;

fn address(byte: u8) -> Address {
    Address([byte; 20])
}

/// The address that a key stands for here: its first byte repeated.
fn derive(key: &Vec<u8>) -> Option<Address> {
    key.first().map(|byte| Address([*byte; 20]))
}

fn block(height: u64, hash: u8) -> Block {
    Block {
        header: BlockHeader {
            version: 1,
            height: Height(height),
            previous_hash: BlockHash([0; 32]),
            merkle_root: [0; 32],
            witness_root: [0; 32],
            state_root: [0; 32],
            miner_address: address(9),
            difficulty: 1,
            timestamp: 1_700_000_000,
            nonce: Nonce(0),
        },
        hash: BlockHash([hash; 32]),
        coinbase: None,
        genesis_allocations: vec![],
        transactions: vec![],
        qcash_transactions: vec![],
        total_fees: Some(Amount(0)),
        sizes: BlockSizes {
            serialized: 10,
            stripped: 8,
            witness: 2,
            weight: 34,
        },
    }
}

fn transfer(from: u8, fee: u64, nonce: u64) -> SignedTransaction {
    let transaction = Transaction {
        from: address(from),
        to: address(2),
        amount: Amount(10),
        fee: Amount(fee),
        nonce: Nonce(nonce),
        timestamp: 1_000,
        validity: ValidityWindow::always(),
    };
    SignedTransaction {
        transaction,
        total_amount: Some(Amount(10)),
        witness: address(from),
        hash: TransactionHash([from; 32]),
        wtxid: TransactionHash([from + 100; 32]),
        serialized_size: 6,
        stripped_size: 4,
        witness_size: 2,
        virtual_size: 4,
    }
}

#[test]
fn caches_accounts_and_blocks() {
    let mut cache: CoreCache<u8> = CoreCache::new();
    let account = Account::new(address(1), Amount(100));
    let stored = block(0, 4);
    let height = stored.height();
    let hash = stored.hash;

    cache.insert_account(account);
    cache.insert_block(stored.duplicate());

    assert_eq!(cache.account(&address(1)), Some(&account));
    assert_eq!(cache.block_by_height(&height), Some(&stored));
    assert_eq!(cache.block_by_hash(&hash), Some(&stored));
    assert_eq!(cache.tip_height(), Some(height));
    assert_eq!(cache.tip_hash(), Some(hash));
}

#[test]
fn caches_addresses_by_public_key() {
    let mut cache: CoreCache<u8> = CoreCache::new();
    let key = vec![5, 6, 7];
    let calls = Cell::new(0);
    let counted = |key: &Vec<u8>| {
        calls.set(calls.get() + 1);
        derive(key)
    };

    assert_eq!(
        cache.address_for_public_key(&key, counted),
        Ok(address(5))
    );
    assert_eq!(cache.cached_address(&key), Some(address(5)));
    assert_eq!(
        cache.address_for_public_key(&key, counted),
        Ok(address(5))
    );
    assert_eq!(calls.get(), 1);
}

#[test]
fn caches_verifying_keys_by_public_key() {
    let mut cache: CoreCache<u64> = CoreCache::new();
    let key = vec![5, 6, 7];
    let calls = Cell::new(0u64);
    let make = |_: &Vec<u8>| {
        calls.set(calls.get() + 1);
        calls.get()
    };

    let first = *cache.verifying_key_for_public_key(&key, make);
    let second = *cache.verifying_key_for_public_key(&key, make);

    assert_eq!(first, second);
    assert_eq!(cache.verifying_key_count(), 1);
}

#[test]
fn builds_from_ledger_state() {
    let genesis = block(0, 4);
    let mut ledger = Ledger::new(Amount(0));
    ledger.put_account(Account::new(address(1), Amount(100)));
    ledger.put_block(genesis.duplicate());

    let cache: CoreCache<u8> = CoreCache::from_ledger(&ledger);

    assert_eq!(
        cache.account(&address(1)),
        Some(&Account::new(address(1), Amount(100)))
    );
    assert_eq!(cache.block_by_height(&Height(0)), Some(&genesis));
    assert_eq!(cache.tip_hash(), Some(genesis.hash));
}

#[test]
fn a_key_without_address_is_refused() {
    let mut cache: CoreCache<u8> = CoreCache::new();
    assert_eq!(
        cache.address_for_public_key(&vec![], derive),
        Err(TransactionError::EmptyPublicKey)
    );
    assert_eq!(cache.cached_address(&vec![]), None);
}

#[test]
fn a_cache_fails_in_turn_on_form_sender_and_signature() {
    let mut cache: CoreCache<u8> = CoreCache::new();
    let tx = transfer(5, 8, 0);
    let check = |checked, key: Vec<u8>, genuine: bool, cache: &mut CoreCache<u8>| {
        cache.validate_signed_transaction(&tx, &key, checked, derive, |_| 1, |_| genuine)
    };
    assert_eq!(
        check(Err(TransactionError::Malformed), vec![5], true, &mut cache),
        Err(TransactionError::Malformed)
    );
    assert_eq!(
        check(Ok(()), vec![6], true, &mut cache),
        Err(TransactionError::SenderAddressMismatch)
    );
    assert_eq!(
        check(Ok(()), vec![5], false, &mut cache),
        Err(TransactionError::InvalidSignature)
    );
    assert_eq!(check(Ok(()), vec![5], true, &mut cache), Ok(()));
}

#[test]
fn the_time_of_a_check_is_handed_on() {
    let mut cache: CoreCache<u8> = CoreCache::new();
    let tx = transfer(5, 8, 0);
    let outcome = cache.validate_signed_transaction_at(
        &tx,
        &vec![5],
        77,
        |_, now| {
            if now == 77 {
                Err(TransactionError::Expired)
            } else {
                Ok(())
            }
        },
        derive,
        |_| 1,
        |_| true,
    );
    assert_eq!(outcome, Err(TransactionError::Expired));
}

#[test]
fn a_mempool_can_check_signatures_through_a_cache() {
    let mut cache: CoreCache<u8> = CoreCache::new();
    let mut mempool = Mempool::new();
    let tx = transfer(5, 8, 0);
    let refused = mempool.insert_at_with_cache(
        tx,
        &vec![5],
        1_000,
        &mut cache,
        |_, _| Ok(()),
        derive,
        |_| 1,
        |_| false,
    );
    assert_eq!(
        refused,
        Err(MempoolError::InvalidTransaction(
            TransactionError::InvalidSignature
        ))
    );
    let accepted = mempool.insert_at_with_cache(
        tx,
        &vec![5],
        1_000,
        &mut cache,
        |_, _| Ok(()),
        derive,
        |_| 1,
        |_| true,
    );
    assert_eq!(accepted, Ok(tx.hash));
    assert_eq!(cache.verifying_key_count(), 1);
}

#[test]
fn a_mempool_can_check_the_chain_through_a_cache() {
    let mut ledger = Ledger::new(Amount(0));
    ledger.put_account(Account::new(address(5), Amount(100)));
    let mut cache: CoreCache<u8> = CoreCache::new();
    let mut mempool = Mempool::new();
    let tx = transfer(5, 8, 0);
    assert_eq!(
        mempool.validate_against_ledger_with_cache(
            &ledger,
            &tx,
            &vec![5],
            &mut cache,
            Ok(()),
            derive,
            |_| 1,
            |_| true,
        ),
        Ok(())
    );
    assert_eq!(
        mempool.insert_validated_at_with_cache(
            &ledger,
            tx,
            &vec![5],
            1_000,
            &mut cache,
            Ok(()),
            &|_: &SignedTransaction, _| Ok(()),
            &derive,
            &|_: &Vec<u8>| 1,
            &|_: &u8| true,
        ),
        Ok(tx.hash)
    );
}
