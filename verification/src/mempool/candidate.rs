//! Candidate blocks made of pending transfers.
use crate::chain::{BlockSizes, CoinbaseTransaction, Ledger, LedgerError};
use crate::ids::{zero_bytes, zeros, Address, Amount, BlockHash, Height, Nonce};
use crate::mempool::mempool::Mempool;
use crate::mempool::policy::going_rate;
use crate::mempool::pool::{drawn, queue_heads, Pool};
use crate::template::{
    checked_transfer_fees, lemma_prefix_fees, transfer_fees, BlockRules, BlockTemplate,
    TemplateHeader, TemplateModel,
};
use crate::transaction::SignedTransaction;
use vstd::prelude::*;

verus! {

/// The height of the block after the tip; the chain starts at zero and stays at the highest height
/// there is.
pub open spec fn height_after(tip: Option<Height>) -> Height {
    match tip {
        Some(height) => if height.0 < u64::MAX {
            Height((height.0 + 1) as u64)
        } else {
            height
        },
        None => Height(0),
    }
}

/// The height of the block after the tip.
pub fn next_height(tip: Option<Height>) -> (r: Height)
    ensures
        r == height_after(tip),
{
    match tip {
        Some(height) => Height(height.0.saturating_add(1)),
        None => Height(0),
    }
}

/// The hash that the block after the tip refers to; the first block refers to zeros.
pub open spec fn parent_hash(tip: Option<BlockHash>) -> BlockHash {
    match tip {
        Some(hash) => hash,
        None => BlockHash(zero_bytes()),
    }
}

/// The transfers that a candidate starts out with.
pub open spec fn chosen(
    pool: Pool,
    tip: Option<Height>,
    limit: usize,
    min_fee_rate: int,
) -> Seq<SignedTransaction> {
    drawn(pool, queue_heads(pool), limit as nat, min_fee_rate, Some(height_after(tip)))
}

/// The candidate that holds the first `k` of the chosen transfers.
pub open spec fn candidate(
    ledger: &Ledger,
    miner: Address,
    timestamp: u64,
    nonce: Nonce,
    rules: BlockRules,
    transfers: Seq<SignedTransaction>,
    k: int,
) -> TemplateModel {
    let height = height_after(ledger.tip().0);
    let previous_hash = parent_hash(ledger.tip().1);
    TemplateModel {
        header: TemplateHeader {
            height,
            previous_hash,
            miner_address: miner,
            difficulty: rules.difficulty_start,
            timestamp,
            nonce,
            state_root: zero_bytes(),
            coinbase: if height.0 == 0 && previous_hash == BlockHash(zero_bytes()) {
                None
            } else {
                Some(
                    CoinbaseTransaction {
                        to: miner,
                        subsidy: ledger.subsidy_due(),
                        fees: Amount(transfer_fees(transfers.take(k)) as u64),
                    },
                )
            },
        },
        transactions: transfers.take(k),
        qcash_transactions: Seq::empty(),
    }
}

/// `measure` may find that this template keeps the limits, or breaks them.
pub open spec fn measured<M: Fn(&BlockTemplate) -> BlockSizes>(
    measure: M,
    template: TemplateModel,
    rules: BlockRules,
    fits: bool,
) -> bool {
    exists|t: BlockTemplate, sizes: BlockSizes| #[trigger]
        call_ensures(measure, (&t,), sizes) && t@ == template && rules.allow(sizes) == fits
}

/// `execute` may yield this outcome for this template.
pub open spec fn executed<E: Fn(&BlockTemplate) -> Result<[u8; 32], LedgerError>>(
    execute: E,
    template: TemplateModel,
    outcome: Result<[u8; 32], LedgerError>,
) -> bool {
    exists|t: BlockTemplate| #[trigger] call_ensures(execute, (&t,), outcome) && t@ == template
}

/// The candidate is cut back to the first `k` transfers because every longer one breaks the limits,
/// and is cut no further than needed.
pub open spec fn cut_back_to<M: Fn(&BlockTemplate) -> BlockSizes>(
    measure: M,
    ledger: &Ledger,
    miner: Address,
    timestamp: u64,
    nonce: Nonce,
    rules: BlockRules,
    transfers: Seq<SignedTransaction>,
    k: int,
) -> bool {
    &&& 0 <= k <= transfers.len()
    &&& forall|j: int|
        k < j <= transfers.len() ==> measured(
            measure,
            #[trigger] candidate(ledger, miner, timestamp, nonce, rules, transfers, j),
            rules,
            false,
        )
    &&& k > 0 ==> measured(
        measure,
        candidate(ledger, miner, timestamp, nonce, rules, transfers, k),
        rules,
        true,
    )
}

/// The candidate that is cut back to `k` transfers is handed out with the state root that `execute`
/// yields, or the error of `execute` is.
pub open spec fn candidate_built<
    M: Fn(&BlockTemplate) -> BlockSizes,
    E: Fn(&BlockTemplate) -> Result<[u8; 32], LedgerError>,
>(
    measure: M,
    execute: E,
    ledger: &Ledger,
    miner: Address,
    timestamp: u64,
    nonce: Nonce,
    rules: BlockRules,
    transfers: Seq<SignedTransaction>,
    k: int,
    r: Result<BlockTemplate, LedgerError>,
) -> bool {
    let block = candidate(ledger, miner, timestamp, nonce, rules, transfers, k);
    &&& cut_back_to(measure, ledger, miner, timestamp, nonce, rules, transfers, k)
    &&& match r {
        Ok(template) => {
            &&& executed(
                execute,
                block,
                Ok::<[u8; 32], LedgerError>(template@.header.state_root),
            )
            &&& template@ == block.rooted(template@.header.state_root)
        },
        Err(error) => executed(execute, block, Err::<[u8; 32], LedgerError>(error)),
    }
}

impl Mempool {
    /// The fees that a candidate collects before it is cut to size, if their sum fits.
    pub fn candidate_fees(
        &self,
        ledger: &Ledger,
        transaction_limit: usize,
        min_fee_rate: u64,
    ) -> (r: Option<u64>)
        requires
            self.wf(),
            ledger.wf(),
        ensures
            ({
                let fees = transfer_fees(
                    chosen(self.pool(), ledger.tip().0, transaction_limit, min_fee_rate as int),
                );
                r == (if fees <= u64::MAX {
                    Some(fees as u64)
                } else {
                    None
                })
            }),
    {
        let height = next_height(ledger.tip_height());
        let transfers = self.select_for_block_at_height(transaction_limit, min_fee_rate, height);
        checked_transfer_fees(&transfers)
    }

    /// Builds the block after the tip from pending transfers that pay at least `min_fee_rate`. The
    /// last ones are dropped until `measure` finds that the block keeps the limits; `execute` then
    /// yields the state root.
    pub fn create_candidate_block_with_min_fee_rate<
        M: Fn(&BlockTemplate) -> BlockSizes,
        E: Fn(&BlockTemplate) -> Result<[u8; 32], LedgerError>,
    >(
        &self,
        ledger: &Ledger,
        miner_address: Address,
        timestamp: u64,
        nonce: Nonce,
        transaction_limit: usize,
        min_fee_rate: u64,
        rules: &BlockRules,
        measure: M,
        execute: E,
    ) -> (r: Result<BlockTemplate, LedgerError>)
        requires
            self.wf(),
            ledger.wf(),
            forall|t: BlockTemplate| #[trigger] call_requires(measure, (&t,)),
            forall|t: BlockTemplate| #[trigger] call_requires(execute, (&t,)),
            transfer_fees(
                chosen(self.pool(), ledger.tip().0, transaction_limit, min_fee_rate as int),
            ) <= u64::MAX,
        ensures
            exists|k: int| #[trigger]
                candidate_built(
                    measure,
                    execute,
                    ledger,
                    miner_address,
                    timestamp,
                    nonce,
                    *rules,
                    chosen(
                        self.pool(),
                        ledger.tip().0,
                        transaction_limit,
                        min_fee_rate as int,
                    ),
                    k,
                    r,
                ),
    {
        let tip_height = ledger.tip_height();
        let height = next_height(tip_height);
        let zeros: [u8; 32] = zeros();
        let previous_hash = match ledger.tip_hash() {
            Some(hash) => hash,
            None => BlockHash(zeros),
        };
        let transfers = self.select_for_block_at_height(transaction_limit, min_fee_rate, height);
        let ghost all = transfers@;
        let fees: u64 = match checked_transfer_fees(&transfers) {
            Some(fees) => fees,
            None => 0,
        };
        let coinbase = if height.0 == 0 && previous_hash.same(&BlockHash(zeros)) {
            None
        } else {
            Some(
                CoinbaseTransaction {
                    to: miner_address,
                    subsidy: ledger.mintable_subsidy(),
                    fees: Amount(fees),
                },
            )
        };
        let mut block = BlockTemplate {
            header: TemplateHeader {
                height,
                previous_hash,
                miner_address,
                difficulty: rules.difficulty_start,
                timestamp,
                nonce,
                state_root: zeros,
                coinbase,
            },
            transactions: transfers,
            qcash_transactions: Vec::new(),
        };
        proof {
            assert(all.take(all.len() as int) =~= all);
            assert(block@ =~= candidate(
                ledger,
                miner_address,
                timestamp,
                nonce,
                *rules,
                all,
                all.len() as int,
            ));
        }
        let mut settled = false;
        while !settled
            invariant
                forall|t: BlockTemplate| #[trigger] call_requires(measure, (&t,)),
                transfer_fees(all) <= u64::MAX,
                block@.transactions.len() <= all.len(),
                block@ == candidate(
                    ledger,
                    miner_address,
                    timestamp,
                    nonce,
                    *rules,
                    all,
                    block@.transactions.len() as int,
                ),
                forall|j: int|
                    block@.transactions.len() < j <= all.len() ==> measured(
                        measure,
                        #[trigger] candidate(
                            ledger,
                            miner_address,
                            timestamp,
                            nonce,
                            *rules,
                            all,
                            j,
                        ),
                        *rules,
                        false,
                    ),
                settled ==> cut_back_to(
                    measure,
                    ledger,
                    miner_address,
                    timestamp,
                    nonce,
                    *rules,
                    all,
                    block@.transactions.len() as int,
                ),
            decreases block@.transactions.len(), (if settled { 0int } else { 1int }),
        {
            let sizes = measure(&block);
            let ghost k = block@.transactions.len() as int;
            if rules.allows(&sizes) {
                assert(call_ensures(measure, (&block,), sizes));
                settled = true;
                continue ;
            }
            let ghost full = block@;
            assert(measured(measure, full, *rules, false)) by {
                assert(call_ensures(measure, (&block,), sizes));
            }
            match block.transactions.pop() {
                Some(_) => {
                    proof {
                        assert(all.take(k).drop_last() =~= all.take(k - 1));
                        assert(block.transactions@ =~= all.take(k - 1));
                        lemma_prefix_fees(all, k - 1);
                    }
                    match block.header.coinbase {
                        Some(coinbase) => {
                            let rest: u64 = match checked_transfer_fees(&block.transactions) {
                                Some(fees) => fees,
                                None => 0,
                            };
                            block.header.coinbase =
                            Some(
                                CoinbaseTransaction {
                                    to: coinbase.to,
                                    subsidy: coinbase.subsidy,
                                    fees: Amount(rest),
                                },
                            );
                        },
                        None => {},
                    }
                    assert(block@ =~= candidate(
                        ledger,
                        miner_address,
                        timestamp,
                        nonce,
                        *rules,
                        all,
                        k - 1,
                    ));
                },
                None => {
                    settled = true;
                },
            }
        }
        let ghost k = block@.transactions.len() as int;
        let ghost bare = block@;
        let outcome = execute(&block);
        assert(executed(execute, bare, outcome)) by {
            assert(call_ensures(execute, (&block,), outcome));
        }
        let r = match outcome {
            Ok(state_root) => {
                block.header.state_root = state_root;
                assert(block@ =~= bare.rooted(state_root));
                Ok(block)
            },
            Err(error) => Err(error),
        };
        assert(candidate_built(
            measure,
            execute,
            ledger,
            miner_address,
            timestamp,
            nonce,
            *rules,
            all,
            k,
            r,
        ));
        r
    }

    /// Builds the block after the tip from pending transfers that pay at least the market rate.
    pub fn create_candidate_block<
        M: Fn(&BlockTemplate) -> BlockSizes,
        E: Fn(&BlockTemplate) -> Result<[u8; 32], LedgerError>,
    >(
        &self,
        ledger: &Ledger,
        miner_address: Address,
        timestamp: u64,
        nonce: Nonce,
        transaction_limit: usize,
        rules: &BlockRules,
        measure: M,
        execute: E,
    ) -> (r: Result<BlockTemplate, LedgerError>)
        requires
            self.wf(),
            ledger.wf(),
            forall|t: BlockTemplate| #[trigger] call_requires(measure, (&t,)),
            forall|t: BlockTemplate| #[trigger] call_requires(execute, (&t,)),
            transfer_fees(
                chosen(
                    self.pool(),
                    ledger.tip().0,
                    transaction_limit,
                    going_rate(self.settings(), self.bytes(), self.pool().len() as int),
                ),
            ) <= u64::MAX,
        ensures
            exists|k: int| #[trigger]
                candidate_built(
                    measure,
                    execute,
                    ledger,
                    miner_address,
                    timestamp,
                    nonce,
                    *rules,
                    chosen(
                        self.pool(),
                        ledger.tip().0,
                        transaction_limit,
                        going_rate(self.settings(), self.bytes(), self.pool().len() as int),
                    ),
                    k,
                    r,
                ),
    {
        let rate: u64 = self.dynamic_market_fee_rate();
        self.create_candidate_block_with_min_fee_rate(
            ledger,
            miner_address,
            timestamp,
            nonce,
            transaction_limit,
            rate,
            rules,
            measure,
            execute,
        )
    }
}

} // verus!
