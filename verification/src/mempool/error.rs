//! Why a mempool refuses a transaction.
use crate::chain::LedgerError;
use crate::transaction::TransactionError;
use vstd::prelude::*;

verus! {

/// Why a mempool refuses a transaction.
#[derive(Clone, Copy, Debug, PartialEq, Eq, Structural)]
pub enum MempoolError {
    /// It is already pending, or its sender has another transaction in the same place.
    DuplicateTransaction,
    /// There is no room left.
    MempoolFull,
    /// It would replace a transaction that pays at least as much.
    ReplacementFeeTooLow,
    /// It pays less than the relay fee.
    FeeTooLow,
    /// It is invalid on its own.
    InvalidTransaction(TransactionError),
    /// The chain would refuse it.
    InvalidLedger(LedgerError),
    /// Its family has another mempool.
    UnsupportedFamily,
    /// It spends a coin that another pending transaction spends.
    CashCoinReserved,
}

} // verus!
