//! Blocks under construction.
use crate::chain::{copy_list, copy_qcash, qcash_models, BlockSizes, CoinbaseTransaction};
use crate::ids::{Address, Amount, BlockHash, Height, Nonce};
use crate::transaction::{QCashModel, SignedQCashTransaction, SignedTransaction};
use vstd::prelude::*;

verus! {

/// Limits on blocks and the difficulty that a new template carries.
#[derive(Clone, Copy, Debug, PartialEq, Eq, Structural)]
pub struct BlockRules {
    pub max_size: usize,
    pub max_weight: usize,
    pub difficulty_start: u32,
}

impl BlockRules {
    /// A block of these sizes keeps the limits.
    pub open spec fn allow(self, sizes: BlockSizes) -> bool {
        sizes.serialized <= self.max_size && sizes.weight <= self.max_weight
    }

    /// Whether a block of these sizes keeps the limits.
    pub fn allows(&self, sizes: &BlockSizes) -> (r: bool)
        ensures
            r == self.allow(*sizes),
    {
        sizes.serialized <= self.max_size && sizes.weight <= self.max_weight
    }
}

/// The parts of a template that are plain values.
#[derive(Clone, Copy, Debug, PartialEq, Eq)]
pub struct TemplateHeader {
    pub height: Height,
    pub previous_hash: BlockHash,
    pub miner_address: Address,
    pub difficulty: u32,
    pub timestamp: u64,
    pub nonce: Nonce,
    pub state_root: [u8; 32],
    pub coinbase: Option<CoinbaseTransaction>,
}

/// A block before its proof of work.
#[derive(Clone, Debug, PartialEq, Eq)]
pub struct BlockTemplate {
    pub header: TemplateHeader,
    pub transactions: Vec<SignedTransaction>,
    pub qcash_transactions: Vec<SignedQCashTransaction>,
}

/// A template as a mathematical value.
#[verifier::ext_equal]
pub struct TemplateModel {
    pub header: TemplateHeader,
    pub transactions: Seq<SignedTransaction>,
    pub qcash_transactions: Seq<QCashModel>,
}

impl View for BlockTemplate {
    type V = TemplateModel;

    open spec fn view(&self) -> TemplateModel {
        TemplateModel {
            header: self.header,
            transactions: self.transactions@,
            qcash_transactions: qcash_models(self.qcash_transactions@),
        }
    }
}

/// The fees of a list of transfers.
pub open spec fn transfer_fees(list: Seq<SignedTransaction>) -> nat
    decreases list.len(),
{
    if list.len() == 0 {
        0
    } else {
        transfer_fees(list.drop_last()) + list.last().transaction.fee.0 as nat
    }
}

/// The fees of a list of bearer-coin transactions.
pub open spec fn qcash_fees(list: Seq<QCashModel>) -> nat
    decreases list.len(),
{
    if list.len() == 0 {
        0
    } else {
        qcash_fees(list.drop_last()) + list.last().record.fee.0 as nat
    }
}

impl TemplateHeader {
    /// The header whose coinbase, if any, collects other fees.
    pub open spec fn collecting(self, fees: int) -> Self {
        TemplateHeader {
            coinbase: match self.coinbase {
                Some(coinbase) => Some(
                    CoinbaseTransaction { fees: Amount(fees as u64), ..coinbase },
                ),
                None => None,
            },
            ..self
        }
    }
}

impl TemplateModel {
    /// All fees of the template.
    pub open spec fn fees(self) -> nat {
        transfer_fees(self.transactions) + qcash_fees(self.qcash_transactions)
    }

    /// The template whose coinbase collects the fees of its transactions, as long as they fit.
    pub open spec fn settled(self) -> Self {
        if self.fees() <= u64::MAX {
            TemplateModel { header: self.header.collecting(self.fees() as int), ..self }
        } else {
            self
        }
    }

    /// The number of transactions of both families, capped at the largest `usize`.
    pub open spec fn transaction_count(self) -> int {
        let n = self.transactions.len() + self.qcash_transactions.len();
        if n <= usize::MAX {
            n as int
        } else {
            usize::MAX as int
        }
    }

    /// The template with another state root.
    pub open spec fn rooted(self, state_root: [u8; 32]) -> Self {
        TemplateModel { header: TemplateHeader { state_root, ..self.header }, ..self }
    }
}

/// A prefix of a list pays no more than the list.
pub proof fn lemma_prefix_fees(list: Seq<SignedTransaction>, k: int)
    requires
        0 <= k <= list.len(),
    ensures
        transfer_fees(list.take(k)) <= transfer_fees(list),
    decreases list.len(),
{
    if k == list.len() {
        assert(list.take(k) =~= list);
    } else {
        lemma_prefix_fees(list.drop_last(), k);
        assert(list.drop_last().take(k) =~= list.take(k));
    }
}

/// Adds up the fees of a list of transfers, if the sum fits.
pub fn checked_transfer_fees(list: &Vec<SignedTransaction>) -> (r: Option<u64>)
    ensures
        r == (if transfer_fees(list@) <= u64::MAX {
            Some(transfer_fees(list@) as u64)
        } else {
            None
        }),
{
    let mut sum: u64 = 0;
    let mut i: usize = 0;
    while i < list.len()
        invariant
            i <= list@.len(),
            sum == transfer_fees(list@.take(i as int)),
        decreases list@.len() - i,
    {
        let next = list[i];
        proof {
            let upto = list@.take(i + 1);
            assert(upto.drop_last() =~= list@.take(i as int));
            lemma_prefix_fees(list@, i + 1);
        }
        sum =
        match sum.checked_add(next.transaction.fee.0) {
            Some(total) => total,
            None => {
                return None;
            },
        };
        i = i + 1;
    }
    assert(list@.take(i as int) =~= list@);
    Some(sum)
}

impl BlockTemplate {
    /// The number of transactions of both families, capped at the largest `usize`.
    pub fn transaction_count(&self) -> (r: usize)
        ensures
            r == self@.transaction_count(),
    {
        self.transactions.len().saturating_add(self.qcash_transactions.len())
    }

    /// An independent copy.
    pub fn duplicate(&self) -> (r: Self)
        ensures
            r@ == self@,
    {
        let r = BlockTemplate {
            header: self.header,
            transactions: copy_list(&self.transactions),
            qcash_transactions: copy_qcash(&self.qcash_transactions),
        };
        assert(r@ =~= self@);
        r
    }

    /// All fees of the template, if their sum fits.
    pub fn checked_total_fees(&self) -> (r: Option<u64>)
        ensures
            r == (if self@.fees() <= u64::MAX {
                Some(self@.fees() as u64)
            } else {
                None
            }),
    {
        let transfers: u64 = match checked_transfer_fees(&self.transactions) {
            Some(fees) => fees,
            None => {
                return None;
            },
        };
        let mut sum: u64 = transfers;
        let mut i: usize = 0;
        let ghost models = qcash_models(self.qcash_transactions@);
        while i < self.qcash_transactions.len()
            invariant
                i <= self.qcash_transactions@.len(),
                models == qcash_models(self.qcash_transactions@),
                transfers == transfer_fees(self.transactions@),
                sum == transfers + qcash_fees(models.take(i as int)),
            decreases self.qcash_transactions@.len() - i,
        {
            let fee: u64 = self.qcash_transactions[i].record.fee.0;
            proof {
                assert(models.take(i + 1).drop_last() =~= models.take(i as int));
                assert(models.take(i + 1).last() == self.qcash_transactions@[i as int]@);
                lemma_prefix_qcash_fees(models, i + 1);
            }
            sum =
            match sum.checked_add(fee) {
                Some(total) => total,
                None => {
                    return None;
                },
            };
            i = i + 1;
        }
        assert(models.take(i as int) =~= models);
        Some(sum)
    }

    /// Lets the coinbase collect the fees of the transactions, as long as they fit.
    pub fn refresh_fees(&mut self)
        ensures
            final(self)@ == old(self)@.settled(),
    {
        match self.checked_total_fees() {
            Some(fees) => {
                match self.header.coinbase {
                    Some(coinbase) => {
                        self.header.coinbase =
                        Some(
                            CoinbaseTransaction {
                                to: coinbase.to,
                                subsidy: coinbase.subsidy,
                                fees: Amount(fees),
                            },
                        );
                    },
                    None => {},
                }
            },
            None => {},
        }
    }
}

/// A prefix of a list of bearer-coin transactions pays no more than the list.
pub proof fn lemma_prefix_qcash_fees(list: Seq<QCashModel>, k: int)
    requires
        0 <= k <= list.len(),
    ensures
        qcash_fees(list.take(k)) <= qcash_fees(list),
    decreases list.len(),
{
    if k == list.len() {
        assert(list.take(k) =~= list);
    } else {
        lemma_prefix_qcash_fees(list.drop_last(), k);
        assert(list.drop_last().take(k) =~= list.take(k));
    }
}

} // verus!
