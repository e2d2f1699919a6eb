//! Transactions as the node sees them: the payload that its rules read, together with the hash and
//! sizes of the signed encoding.
use crate::ids::{Address, Amount, CashCoinId, Height, Nonce, TransactionHash};
use vstd::prelude::*;

verus! {

/// Why a transaction is invalid on its own.
#[derive(Clone, Copy, Debug, PartialEq, Eq, Structural)]
pub enum TransactionError {
    /// Its timestamp lies too far in the future.
    FromFuture,
    /// Its timestamp lies too far in the past.
    Expired,
    /// Its public key yields no address.
    EmptyPublicKey,
    /// Its public key belongs to another address.
    SenderAddressMismatch,
    /// Its signature does not verify.
    InvalidSignature,
    /// The validity window ends before it begins.
    InvalidValidityWindow,
    /// The block height lies outside the validity window.
    OutsideValidityWindow,
    /// Another rule of the transaction format is broken.
    Malformed,
}

/// The block heights at which a transaction may be included, both ends inclusive.
#[derive(Clone, Copy, Debug, PartialEq, Eq, Structural)]
pub struct ValidityWindow {
    pub valid_from: Height,
    pub valid_until: Height,
}

impl ValidityWindow {
    /// The window holds a height.
    pub open spec fn holds_at(self, height: Height) -> bool {
        self.valid_from.0 <= height.0 <= self.valid_until.0
    }

    /// A window from its two ends; an empty one is refused.
    pub fn new(valid_from: Height, valid_until: Height) -> (r: Result<Self, TransactionError>)
        ensures
            r == (if valid_from.0 <= valid_until.0 {
                Ok::<Self, TransactionError>(ValidityWindow { valid_from, valid_until })
            } else {
                Err::<Self, TransactionError>(TransactionError::InvalidValidityWindow)
            }),
    {
        if valid_from.0 <= valid_until.0 {
            Ok(ValidityWindow { valid_from, valid_until })
        } else {
            Err(TransactionError::InvalidValidityWindow)
        }
    }

    /// The window that holds every height.
    pub fn always() -> (r: Self)
        ensures
            forall|height: Height| r.holds_at(height),
            r == (ValidityWindow { valid_from: Height(0), valid_until: Height(u64::MAX) }),
    {
        ValidityWindow { valid_from: Height(0), valid_until: Height(u64::MAX) }
    }

    /// Succeeds exactly at the heights in the window.
    pub fn validate_at(&self, height: Height) -> (r: Result<(), TransactionError>)
        ensures
            r == (if self.holds_at(height) {
                Ok::<(), TransactionError>(())
            } else {
                Err::<(), TransactionError>(TransactionError::OutsideValidityWindow)
            }),
    {
        if self.valid_from.0 <= height.0 && height.0 <= self.valid_until.0 {
            Ok(())
        } else {
            Err(TransactionError::OutsideValidityWindow)
        }
    }
}

/// The signed content of a transfer.
#[derive(Clone, Copy, Debug, PartialEq, Eq)]
pub struct Transaction {
    pub from: Address,
    pub to: Address,
    pub amount: Amount,
    pub fee: Amount,
    pub nonce: Nonce,
    pub timestamp: u64,
    pub validity: ValidityWindow,
}

/// A signed transfer: its content, and what the encoding of content and witness determines.
#[derive(Clone, Copy, Debug, PartialEq, Eq)]
pub struct SignedTransaction {
    pub transaction: Transaction,
    /// What the transfer moves in total; missing where the sum does not fit.
    pub total_amount: Option<Amount>,
    /// Address of the key that the witness was made with.
    pub witness: Address,
    /// Hash of the content.
    pub hash: TransactionHash,
    /// Hash of the content and the witness.
    pub wtxid: TransactionHash,
    /// Bytes of the whole encoding.
    pub serialized_size: usize,
    /// Bytes of the encoding without the witness.
    pub stripped_size: usize,
    /// Bytes of the witness.
    pub witness_size: usize,
    /// Bytes that the fee rate is measured against.
    pub virtual_size: usize,
}

/// The families of transactions.
#[derive(Clone, Copy, Debug, PartialEq, Eq, Structural)]
pub enum TransactionFamily {
    /// Payments between accounts.
    Transfer,
    /// Conversions between account balance and bearer coins.
    QCash,
}

/// What a bearer-coin transaction does.
#[derive(Clone, Copy, Debug, PartialEq, Eq)]
pub enum QCashTransactionKind {
    /// Turns balance into coins.
    WithdrawCash { amount: Amount },
    /// Turns coins into the recipient's balance. The amount is missing where the sum of the coins
    /// does not fit.
    DepositCash { recipient: Address, amount: Option<Amount> },
}

/// The signed content of a bearer-coin transaction and what its encoding determines.
#[derive(Clone, Copy, Debug, PartialEq, Eq)]
pub struct QCashRecord {
    pub signer: Address,
    pub fee: Amount,
    pub nonce: Nonce,
    pub timestamp: u64,
    pub validity: ValidityWindow,
    pub kind: QCashTransactionKind,
    /// Address of the key that the witness was made with.
    pub witness: Address,
    pub hash: TransactionHash,
    pub wtxid: TransactionHash,
    pub stripped_size: usize,
    pub witness_size: usize,
    pub virtual_size: usize,
}

/// A signed bearer-coin transaction with the coins that it deposits; a withdrawal deposits none.
#[derive(Clone, Debug, PartialEq, Eq)]
pub struct SignedQCashTransaction {
    pub record: QCashRecord,
    pub deposited_coins: Vec<CashCoinId>,
}

/// A bearer-coin transaction as a mathematical value.
#[verifier::ext_equal]
pub struct QCashModel {
    pub record: QCashRecord,
    pub coins: Seq<CashCoinId>,
}

impl View for SignedQCashTransaction {
    type V = QCashModel;

    open spec fn view(&self) -> QCashModel {
        QCashModel { record: self.record, coins: self.deposited_coins@ }
    }
}

impl SignedQCashTransaction {
    /// An independent copy.
    pub fn duplicate(&self) -> (r: Self)
        ensures
            r@ == self@,
    {
        let mut coins: Vec<CashCoinId> = Vec::new();
        let mut i: usize = 0;
        while i < self.deposited_coins.len()
            invariant
                i <= self.deposited_coins@.len(),
                coins@ =~= self.deposited_coins@.take(i as int),
            decreases self.deposited_coins@.len() - i,
        {
            coins.push(self.deposited_coins[i]);
            i = i + 1;
        }
        assert(coins@ =~= self.deposited_coins@);
        SignedQCashTransaction { record: self.record, deposited_coins: coins }
    }
}

/// A signed transaction of any family.
#[derive(Clone, Debug, PartialEq, Eq)]
pub enum SignedProtocolTransaction {
    Transfer(SignedTransaction),
    QCash(SignedQCashTransaction),
}

/// A transaction of any family as a mathematical value.
#[verifier::ext_equal]
pub enum ProtocolModel {
    Transfer(SignedTransaction),
    QCash(QCashModel),
}

impl View for SignedProtocolTransaction {
    type V = ProtocolModel;

    open spec fn view(&self) -> ProtocolModel {
        match self {
            SignedProtocolTransaction::Transfer(tx) => ProtocolModel::Transfer(*tx),
            SignedProtocolTransaction::QCash(tx) => ProtocolModel::QCash(tx@),
        }
    }
}

impl ProtocolModel {
    pub open spec fn family(self) -> TransactionFamily {
        match self {
            ProtocolModel::Transfer(_) => TransactionFamily::Transfer,
            ProtocolModel::QCash(_) => TransactionFamily::QCash,
        }
    }

    pub open spec fn hash(self) -> TransactionHash {
        match self {
            ProtocolModel::Transfer(tx) => tx.hash,
            ProtocolModel::QCash(tx) => tx.record.hash,
        }
    }

    pub open spec fn wtxid(self) -> TransactionHash {
        match self {
            ProtocolModel::Transfer(tx) => tx.wtxid,
            ProtocolModel::QCash(tx) => tx.record.wtxid,
        }
    }

    pub open spec fn signer(self) -> Address {
        match self {
            ProtocolModel::Transfer(tx) => tx.transaction.from,
            ProtocolModel::QCash(tx) => tx.record.signer,
        }
    }

    pub open spec fn fee(self) -> Amount {
        match self {
            ProtocolModel::Transfer(tx) => tx.transaction.fee,
            ProtocolModel::QCash(tx) => tx.record.fee,
        }
    }

    pub open spec fn nonce(self) -> Nonce {
        match self {
            ProtocolModel::Transfer(tx) => tx.transaction.nonce,
            ProtocolModel::QCash(tx) => tx.record.nonce,
        }
    }

    pub open spec fn validity(self) -> ValidityWindow {
        match self {
            ProtocolModel::Transfer(tx) => tx.transaction.validity,
            ProtocolModel::QCash(tx) => tx.record.validity,
        }
    }

    pub open spec fn virtual_size(self) -> usize {
        match self {
            ProtocolModel::Transfer(tx) => tx.virtual_size,
            ProtocolModel::QCash(tx) => tx.record.virtual_size,
        }
    }

    pub open spec fn stripped_size(self) -> usize {
        match self {
            ProtocolModel::Transfer(tx) => tx.stripped_size,
            ProtocolModel::QCash(tx) => tx.record.stripped_size,
        }
    }

    pub open spec fn witness_size(self) -> usize {
        match self {
            ProtocolModel::Transfer(tx) => tx.witness_size,
            ProtocolModel::QCash(tx) => tx.record.witness_size,
        }
    }

    /// Address of the key that the witness was made with.
    pub open spec fn witness(self) -> Address {
        match self {
            ProtocolModel::Transfer(tx) => tx.witness,
            ProtocolModel::QCash(tx) => tx.record.witness,
        }
    }

    /// What the transaction does, in a word.
    pub open spec fn operation(self) -> Seq<char> {
        match self {
            ProtocolModel::Transfer(_) => "transfer"@,
            ProtocolModel::QCash(tx) => match tx.record.kind {
                QCashTransactionKind::WithdrawCash { .. } => "withdraw_cash"@,
                QCashTransactionKind::DepositCash { .. } => "deposit_cash"@,
            },
        }
    }

    /// Whom the transaction credits; a withdrawal credits nobody.
    pub open spec fn recipient(self) -> Option<Address> {
        match self {
            ProtocolModel::Transfer(tx) => Some(tx.transaction.to),
            ProtocolModel::QCash(tx) => match tx.record.kind {
                QCashTransactionKind::WithdrawCash { .. } => None,
                QCashTransactionKind::DepositCash { recipient, .. } => Some(recipient),
            },
        }
    }

    /// What the transaction moves, where that fits.
    pub open spec fn moved(self) -> Option<Amount> {
        match self {
            ProtocolModel::Transfer(tx) => tx.total_amount,
            ProtocolModel::QCash(tx) => match tx.record.kind {
                QCashTransactionKind::WithdrawCash { amount } => Some(amount),
                QCashTransactionKind::DepositCash { amount, .. } => amount,
            },
        }
    }

    pub open spec fn timestamp(self) -> u64 {
        match self {
            ProtocolModel::Transfer(tx) => tx.transaction.timestamp,
            ProtocolModel::QCash(tx) => tx.record.timestamp,
        }
    }

    /// The bearer coins that the transaction spends.
    pub open spec fn coins(self) -> Seq<CashCoinId> {
        match self {
            ProtocolModel::Transfer(_) => Seq::empty(),
            ProtocolModel::QCash(tx) => match tx.record.kind {
                QCashTransactionKind::DepositCash { .. } => tx.coins,
                QCashTransactionKind::WithdrawCash { .. } => Seq::empty(),
            },
        }
    }
}

impl SignedProtocolTransaction {
    /// An independent copy.
    pub fn duplicate(&self) -> (r: Self)
        ensures
            r@ == self@,
    {
        match self {
            SignedProtocolTransaction::Transfer(tx) => SignedProtocolTransaction::Transfer(*tx),
            SignedProtocolTransaction::QCash(tx) => SignedProtocolTransaction::QCash(
                tx.duplicate(),
            ),
        }
    }

    pub fn family(&self) -> (r: TransactionFamily)
        ensures
            r == self@.family(),
    {
        match self {
            SignedProtocolTransaction::Transfer(_) => TransactionFamily::Transfer,
            SignedProtocolTransaction::QCash(_) => TransactionFamily::QCash,
        }
    }

    pub fn hash(&self) -> (r: TransactionHash)
        ensures
            r == self@.hash(),
    {
        match self {
            SignedProtocolTransaction::Transfer(tx) => tx.hash,
            SignedProtocolTransaction::QCash(tx) => tx.record.hash,
        }
    }

    pub fn wtxid(&self) -> (r: TransactionHash)
        ensures
            r == self@.wtxid(),
    {
        match self {
            SignedProtocolTransaction::Transfer(tx) => tx.wtxid,
            SignedProtocolTransaction::QCash(tx) => tx.record.wtxid,
        }
    }

    pub fn signer(&self) -> (r: Address)
        ensures
            r == self@.signer(),
    {
        match self {
            SignedProtocolTransaction::Transfer(tx) => tx.transaction.from,
            SignedProtocolTransaction::QCash(tx) => tx.record.signer,
        }
    }

    pub fn witness(&self) -> (r: Address)
        ensures
            r == self@.witness(),
    {
        match self {
            SignedProtocolTransaction::Transfer(tx) => tx.witness,
            SignedProtocolTransaction::QCash(tx) => tx.record.witness,
        }
    }

    pub fn fee(&self) -> (r: Amount)
        ensures
            r == self@.fee(),
    {
        match self {
            SignedProtocolTransaction::Transfer(tx) => tx.transaction.fee,
            SignedProtocolTransaction::QCash(tx) => tx.record.fee,
        }
    }

    pub fn nonce(&self) -> (r: Nonce)
        ensures
            r == self@.nonce(),
    {
        match self {
            SignedProtocolTransaction::Transfer(tx) => tx.transaction.nonce,
            SignedProtocolTransaction::QCash(tx) => tx.record.nonce,
        }
    }

    pub fn validity(&self) -> (r: ValidityWindow)
        ensures
            r == self@.validity(),
    {
        match self {
            SignedProtocolTransaction::Transfer(tx) => tx.transaction.validity,
            SignedProtocolTransaction::QCash(tx) => tx.record.validity,
        }
    }

    pub fn virtual_size(&self) -> (r: usize)
        ensures
            r == self@.virtual_size(),
    {
        match self {
            SignedProtocolTransaction::Transfer(tx) => tx.virtual_size,
            SignedProtocolTransaction::QCash(tx) => tx.record.virtual_size,
        }
    }

    pub fn stripped_size(&self) -> (r: usize)
        ensures
            r == self@.stripped_size(),
    {
        match self {
            SignedProtocolTransaction::Transfer(tx) => tx.stripped_size,
            SignedProtocolTransaction::QCash(tx) => tx.record.stripped_size,
        }
    }

    pub fn witness_size(&self) -> (r: usize)
        ensures
            r == self@.witness_size(),
    {
        match self {
            SignedProtocolTransaction::Transfer(tx) => tx.witness_size,
            SignedProtocolTransaction::QCash(tx) => tx.record.witness_size,
        }
    }
}

} // verus!
