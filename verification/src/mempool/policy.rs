//! What a mempool admits, for how long, and in which place: its rules as mathematical functions.
use crate::chain::{Account, LedgerError, StateError};
use crate::ids::{Address, TransactionHash};
use crate::mempool::error::MempoolError;
use crate::mempool::fee::{capped, fee_at_rate, fullness, larger, market_rate};
use crate::mempool::pool::{
    following, pool_bytes, queue_from, unexpired, PendingTransaction, Pool,
};
use crate::order::Pair;
use crate::params::{
    DEFAULT_MARKET_FEE, DEFAULT_MIN_RELAY_FEE, LOW_FEE_EXPIRY_SECS, MAX_MEMPOOL_BYTES,
    MAX_MEMPOOL_TXS, MAX_RELAY_TRANSACTION_AGE_SECS, MAX_RELAY_TRANSACTION_FUTURE_SECS,
    MEMPOOL_EXPIRY_SECS, MIN_RELAY_FEE_FLOOR,
};
use crate::transaction::{SignedTransaction, TransactionError};
use vstd::prelude::*;

verus! {

/// Limits, lifetimes and fees of a mempool.
#[derive(Clone, Copy, Debug, PartialEq, Eq, Structural)]
pub struct MempoolConfig {
    pub max_transactions: usize,
    pub max_bytes: usize,
    pub transaction_ttl_secs: u64,
    pub low_fee_ttl_secs: u64,
    pub min_relay_fee: u64,
    pub market_fee: u64,
}

impl MempoolConfig {
    /// The configuration of a node whose operator sets nothing.
    pub open spec fn standard() -> Self {
        MempoolConfig {
            max_transactions: MAX_MEMPOOL_TXS,
            max_bytes: MAX_MEMPOOL_BYTES,
            transaction_ttl_secs: MEMPOOL_EXPIRY_SECS,
            low_fee_ttl_secs: LOW_FEE_EXPIRY_SECS,
            min_relay_fee: DEFAULT_MIN_RELAY_FEE,
            market_fee: DEFAULT_MARKET_FEE,
        }
    }
}

impl Default for MempoolConfig {
    fn default() -> (r: Self)
        ensures
            r == Self::standard(),
    {
        MempoolConfig {
            max_transactions: MAX_MEMPOOL_TXS,
            max_bytes: MAX_MEMPOOL_BYTES,
            transaction_ttl_secs: MEMPOOL_EXPIRY_SECS,
            low_fee_ttl_secs: LOW_FEE_EXPIRY_SECS,
            min_relay_fee: DEFAULT_MIN_RELAY_FEE,
            market_fee: DEFAULT_MARKET_FEE,
        }
    }
}

/// What is left of a byte count when bytes are taken away.
pub open spec fn bytes_less(bytes: int, taken: int) -> int {
    if taken <= bytes {
        bytes - taken
    } else {
        0
    }
}

/// How full a pool is, in hundredths of a percent: the worse of bytes and transactions.
pub open spec fn pressure(config: MempoolConfig, bytes: int, count: int) -> int {
    larger(
        fullness(bytes, config.max_bytes as int),
        fullness(count, config.max_transactions as int),
    )
}

/// The market rate of a pool.
pub open spec fn going_rate(config: MempoolConfig, bytes: int, count: int) -> int {
    market_rate(
        larger(config.market_fee as int, config.min_relay_fee as int),
        pressure(config, bytes, count),
    )
}

/// When a transaction with these properties expires: a fee below the going rate shortens its life.
pub open spec fn expiry_time(
    config: MempoolConfig,
    bytes: int,
    count: int,
    tx: SignedTransaction,
    now: u64,
) -> int {
    let life = if tx.transaction.fee.0 < fee_at_rate(
        going_rate(config, bytes, count),
        tx.virtual_size as int,
    ) {
        config.low_fee_ttl_secs
    } else {
        config.transaction_ttl_secs
    };
    capped(capped(now + life) + 1)
}

/// A byte count capped at the largest `usize`.
pub open spec fn capped_bytes(n: int) -> int {
    if n <= usize::MAX {
        n
    } else {
        usize::MAX as int
    }
}

/// The pool without the transaction that is replaced.
pub open spec fn pool_without(pool: Pool, replaced: Option<TransactionHash>) -> Pool {
    match replaced {
        Some(h) => pool.remove(h),
        None => pool,
    }
}

/// The byte count without the transaction that is replaced.
pub open spec fn bytes_without(pool: Pool, bytes: int, replaced: Option<TransactionHash>) -> int {
    match replaced {
        Some(h) => bytes_less(bytes, pool[h].transaction.serialized_size as int),
        None => bytes,
    }
}

/// Another transaction than the replaced one is in this transaction's place.
pub open spec fn place_taken(
    pool: Pool,
    tx: SignedTransaction,
    replaced: Option<TransactionHash>,
) -> bool {
    exists|h: TransactionHash| #[trigger]
        pool.contains_key(h) && pool[h].slot() == Pair(tx.transaction.from, tx.transaction.nonce)
            && Some(h) != replaced
}

/// Why there is no room for a transaction, if so.
pub open spec fn admission_error(
    pool: Pool,
    bytes: int,
    config: MempoolConfig,
    tx: SignedTransaction,
    replaced: Option<TransactionHash>,
) -> Option<MempoolError> {
    if pool.contains_key(tx.hash) || place_taken(pool, tx, replaced) {
        Some(MempoolError::DuplicateTransaction)
    } else if replaced is None && pool.len() >= config.max_transactions {
        Some(MempoolError::MempoolFull)
    } else if capped_bytes(bytes_without(pool, bytes, replaced) + tx.serialized_size)
        > config.max_bytes {
        Some(MempoolError::MempoolFull)
    } else {
        None
    }
}

/// The pool after a transaction was admitted.
pub open spec fn pool_with(
    pool: Pool,
    bytes: int,
    config: MempoolConfig,
    tx: SignedTransaction,
    now: u64,
    replaced: Option<TransactionHash>,
) -> Pool {
    let rest = pool_without(pool, replaced);
    rest.insert(
        tx.hash,
        PendingTransaction {
            transaction: tx,
            inserted_at: now,
            expires_at: expiry_time(
                config,
                bytes_without(pool, bytes, replaced),
                rest.len() as int,
                tx,
                now,
            ) as u64,
        },
    )
}

/// The byte count after a transaction was admitted.
pub open spec fn bytes_with(
    pool: Pool,
    bytes: int,
    tx: SignedTransaction,
    replaced: Option<TransactionHash>,
) -> int {
    capped_bytes(bytes_without(pool, bytes, replaced) + tx.serialized_size)
}

/// The byte count after the expired transactions left.
pub open spec fn bytes_unexpired(pool: Pool, bytes: int, now: u64) -> int {
    bytes_less(bytes, pool_bytes(pool) - pool_bytes(unexpired(pool, now)))
}

/// Why the timestamp of a transaction keeps it from being relayed, if so.
pub open spec fn timestamp_error(tx: SignedTransaction, now: u64) -> Option<TransactionError> {
    if tx.transaction.timestamp > capped(now + MAX_RELAY_TRANSACTION_FUTURE_SECS) {
        Some(TransactionError::FromFuture)
    } else if now - tx.transaction.timestamp > MAX_RELAY_TRANSACTION_AGE_SECS {
        Some(TransactionError::Expired)
    } else {
        None
    }
}

/// The least fee with which a transaction is relayed.
pub open spec fn relay_fee(config: MempoolConfig, tx: SignedTransaction) -> int {
    larger(
        fee_at_rate(
            larger(config.min_relay_fee as int, MIN_RELAY_FEE_FLOOR as int),
            tx.virtual_size as int,
        ),
        MIN_RELAY_FEE_FLOOR as int,
    )
}

/// The first of the checks on timestamp, signature and fee that a transaction fails. `signed` is the
/// outcome of the signature check.
pub open spec fn relay_error(
    config: MempoolConfig,
    tx: SignedTransaction,
    now: u64,
    signed: Result<(), TransactionError>,
) -> Option<MempoolError> {
    match timestamp_error(tx, now) {
        Some(error) => Some(MempoolError::InvalidTransaction(error)),
        None => match signed {
            Err(error) => Some(MempoolError::InvalidTransaction(error)),
            Ok(_) => if tx.transaction.fee.0 < relay_fee(config, tx) {
                Some(MempoolError::FeeTooLow)
            } else {
                None
            },
        },
    }
}

/// The transaction that is in the place of `tx`, if any.
pub open spec fn place_holder(pool: Pool, tx: SignedTransaction) -> Option<TransactionHash> {
    if place_taken(pool, tx, None) {
        Some(
            choose|h: TransactionHash| #[trigger]
                pool.contains_key(h) && pool[h].slot() == Pair(
                    tx.transaction.from,
                    tx.transaction.nonce,
                ),
        )
    } else {
        None
    }
}

/// The transaction in the place of `tx` pays at least as much.
pub open spec fn underbids(pool: Pool, tx: SignedTransaction) -> bool {
    match place_holder(pool, tx) {
        Some(h) => tx.transaction.fee.0 <= pool[h].transaction.transaction.fee.0,
        None => false,
    }
}

/// Whether a sender whose next nonce and spendable balance are given can afford a queue of
/// transactions in turn.
pub open spec fn affords(
    queue: Seq<SignedTransaction>,
    nonce: u64,
    spendable: u64,
) -> Result<(), LedgerError>
    decreases queue.len(),
{
    if queue.len() == 0 {
        Ok(())
    } else {
        let payload = queue[0].transaction;
        let total = payload.amount.0 + payload.fee.0;
        if payload.nonce.0 != nonce {
            Err(LedgerError::InvalidState(StateError::InvalidNonce))
        } else if total > u64::MAX {
            Err(LedgerError::InvalidState(StateError::BalanceOverflow))
        } else if spendable < total {
            Err(LedgerError::InvalidState(StateError::InsufficientBalance))
        } else {
            affords(queue.skip(1), following(nonce as int) as u64, (spendable - total) as u64)
        }
    }
}

/// Whether a transaction fits behind its sender's pending ones, leaving out one of them.
pub open spec fn ledger_fit(
    pool: Pool,
    accounts: Map<Address, Account>,
    tx: SignedTransaction,
    excluded: Option<TransactionHash>,
) -> Result<(), LedgerError> {
    let sender = tx.transaction.from;
    if accounts.contains_key(sender) {
        affords(
            queue_from(pool_without(pool, excluded), sender, 0).push(tx),
            accounts[sender].nonce.0,
            accounts[sender].available.0,
        )
    } else {
        Err(LedgerError::AccountNotFound)
    }
}

/// The first check that a transaction fails on its way into a pool from which the expired
/// transactions are gone, without looking at the chain.
pub open spec fn insert_error(
    pool: Pool,
    bytes: int,
    config: MempoolConfig,
    tx: SignedTransaction,
    now: u64,
    signed: Result<(), TransactionError>,
) -> Option<MempoolError> {
    match relay_error(config, tx, now, signed) {
        Some(error) => Some(error),
        None => admission_error(pool, bytes, config, tx, None),
    }
}

/// The outcome of the checks of a transaction's signature: at the present time, and without regard
/// to time.
#[derive(Clone, Copy, Debug, PartialEq, Eq)]
pub struct SignatureVerdicts {
    pub at_now: Result<(), TransactionError>,
    pub timeless: Result<(), TransactionError>,
}

/// The first check that a transaction fails once its relay checks are passed: the bid against the
/// transaction in its place, the signature, the fit with the chain, the room.
pub open spec fn chain_error(
    pool: Pool,
    bytes: int,
    config: MempoolConfig,
    accounts: Map<Address, Account>,
    tx: SignedTransaction,
    signed: Result<(), TransactionError>,
) -> Option<MempoolError> {
    if underbids(pool, tx) {
        Some(MempoolError::ReplacementFeeTooLow)
    } else {
        match signed {
            Err(error) => Some(MempoolError::InvalidTransaction(error)),
            Ok(_) => match ledger_fit(pool, accounts, tx, place_holder(pool, tx)) {
                Err(error) => Some(MempoolError::InvalidLedger(error)),
                Ok(_) => admission_error(pool, bytes, config, tx, place_holder(pool, tx)),
            },
        }
    }
}

/// The first check that a transaction fails on its way into a pool from which the expired
/// transactions are gone.
pub open spec fn insert_validated_error(
    pool: Pool,
    bytes: int,
    config: MempoolConfig,
    accounts: Map<Address, Account>,
    tx: SignedTransaction,
    now: u64,
    signed: SignatureVerdicts,
) -> Option<MempoolError> {
    match relay_error(config, tx, now, signed.at_now) {
        Some(error) => Some(error),
        None => chain_error(pool, bytes, config, accounts, tx, signed.timeless),
    }
}

/// The first check that a transaction fails against the chain: signature, fee, fit.
pub open spec fn fit_error(
    pool: Pool,
    config: MempoolConfig,
    accounts: Map<Address, Account>,
    tx: SignedTransaction,
    excluded: Option<TransactionHash>,
    signed: Result<(), TransactionError>,
) -> Option<MempoolError> {
    match signed {
        Err(error) => Some(MempoolError::InvalidTransaction(error)),
        Ok(_) => if tx.transaction.fee.0 < relay_fee(config, tx) {
            Some(MempoolError::FeeTooLow)
        } else {
            match ledger_fit(pool, accounts, tx, excluded) {
                Err(error) => Some(MempoolError::InvalidLedger(error)),
                Ok(_) => None,
            }
        },
    }
}

} // verus!
