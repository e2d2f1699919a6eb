//! The pool of pending transactions of every family but transfers.
//!
//! One pending transaction per signer keeps account nonces in order across the families of a block,
//! and each bearer coin is spent by one pending transaction at most.
use crate::chain::{protocol_models, qcash_models, Block, BlockSizes, LedgerError};
use crate::ids::{Address, CashCoinId, Height, TransactionHash};
use crate::mempool::candidate::{height_after, measured, next_height};
use crate::mempool::error::MempoolError;
use crate::mempool::fee::{fee_rate_key, rate_of_fee};
use crate::order::{Pair, Reversed, Sortable};
use crate::params::MAX_MEMPOOL_TXS;
use crate::sorted_map::{ascending, SortedMap};
use crate::template::{qcash_fees, BlockRules, BlockTemplate, TemplateModel};
use crate::transaction::{
    ProtocolModel, QCashModel, QCashTransactionKind, SignedProtocolTransaction, TransactionFamily,
};
use vstd::prelude::*;

verus! {

/// The pending transactions by hash.
pub type ExtensionPool = Map<TransactionHash, ProtocolModel>;

/// The key by which transactions are ranked for a block: higher rate first, lower hash first.
pub type RankKey = Pair<Reversed<u64>, TransactionHash>;

/// A signer has a pending transaction.
pub open spec fn signer_pending(pool: ExtensionPool, signer: Address) -> bool {
    exists|h: TransactionHash| #[trigger] pool.contains_key(h) && pool[h].signer() == signer
}

/// A pending transaction spends a coin.
pub open spec fn coin_reserved(pool: ExtensionPool, coin: CashCoinId) -> bool {
    exists|h: TransactionHash| #[trigger] pool.contains_key(h) && pool[h].coins().contains(coin)
}

/// Why the pool refuses a transaction before the chain is asked, if so.
pub open spec fn extension_error(pool: ExtensionPool, tx: ProtocolModel) -> Option<MempoolError> {
    if tx.family() == TransactionFamily::Transfer {
        Some(MempoolError::UnsupportedFamily)
    } else if pool.len() >= MAX_MEMPOOL_TXS {
        Some(MempoolError::MempoolFull)
    } else if pool.contains_key(tx.hash()) || signer_pending(pool, tx.signer()) {
        Some(MempoolError::DuplicateTransaction)
    } else if exists|i: int| 0 <= i < tx.coins().len() && coin_reserved(pool, #[trigger] tx.coins()[i]) {
        Some(MempoolError::CashCoinReserved)
    } else {
        None
    }
}

/// The error of an outcome, if it is one.
pub open spec fn refusal_of(outcome: Result<(), LedgerError>) -> Option<LedgerError> {
    match outcome {
        Ok(_) => None,
        Err(error) => Some(error),
    }
}

/// The chain may accept a transaction at a height, or refuse it with an error.
pub open spec fn applied<A: Fn(&SignedProtocolTransaction, Height) -> Result<(), LedgerError>>(
    apply: A,
    tx: ProtocolModel,
    height: Height,
    refusal: Option<LedgerError>,
) -> bool {
    exists|t: SignedProtocolTransaction, outcome: Result<(), LedgerError>| #[trigger]
        call_ensures(apply, (&t, height), outcome) && t@ == tx && refusal_of(outcome) == refusal
}

/// The rank of a transaction.
pub open spec fn rank_key(tx: ProtocolModel) -> RankKey {
    Pair(
        Reversed(rate_of_fee(tx.fee().0 as int, tx.virtual_size() as int) as u64),
        tx.hash(),
    )
}

/// Whether a transaction may enter a block at this height and minimum rate.
pub open spec fn extension_eligible(tx: ProtocolModel, height: Height, min_rate: int) -> bool {
    &&& tx.validity().holds_at(height)
    &&& rate_of_fee(tx.fee().0 as int, tx.virtual_size() as int) >= min_rate
}

/// The list of all eligible transactions, best rank first.
pub open spec fn is_ranking(
    list: Seq<ProtocolModel>,
    pool: ExtensionPool,
    height: Height,
    min_rate: int,
) -> bool {
    &&& forall|i: int, j: int|
        0 <= i < j < list.len() ==> rank_key(#[trigger] list[i]).before(rank_key(#[trigger] list[j]))
    &&& forall|i: int| 0 <= i < list.len() ==> {
        let tx = #[trigger] list[i];
        pool.contains_key(tx.hash()) && pool[tx.hash()] == tx && extension_eligible(
            tx,
            height,
            min_rate,
        )
    }
    &&& forall|h: TransactionHash| #[trigger]
        pool.contains_key(h) && extension_eligible(pool[h], height, min_rate) ==> list.contains(
            pool[h],
        )
}

/// The first `limit` entries of a list.
pub open spec fn at_most<T>(list: Seq<T>, limit: int) -> Seq<T> {
    if limit <= list.len() {
        list.take(limit)
    } else {
        list
    }
}

/// The template after one more bearer-coin transaction, with the fees settled.
pub open spec fn grown(template: TemplateModel, tx: QCashModel) -> TemplateModel {
    TemplateModel { qcash_transactions: template.qcash_transactions.push(tx), ..template }.settled()
}

/// The template after a list of transactions was tried in turn and some were kept.
pub open spec fn packed(
    template: TemplateModel,
    list: Seq<QCashModel>,
    kept: Seq<bool>,
) -> TemplateModel
    decreases list.len(),
{
    if list.len() == 0 {
        template
    } else {
        let before = packed(template, list.drop_last(), kept.drop_last());
        if kept.last() {
            grown(before, list.last())
        } else {
            before.settled()
        }
    }
}

/// Each transaction was kept exactly if the template that it made was measured to keep the limits.
pub open spec fn kept_by_size<M: Fn(&BlockTemplate) -> BlockSizes>(
    measure: M,
    rules: BlockRules,
    template: TemplateModel,
    list: Seq<QCashModel>,
    kept: Seq<bool>,
) -> bool {
    &&& kept.len() == list.len()
    &&& forall|i: int|
        0 <= i < list.len() ==> measured(
            measure,
            grown(packed(template, list.take(i), kept.take(i)), #[trigger] list[i]),
            rules,
            kept[i],
        )
}

/// The bearer-coin transactions of a list.
pub open spec fn qcash_parts(list: Seq<ProtocolModel>) -> Seq<QCashModel> {
    Seq::new(list.len(), |i: int| list[i]->QCash_0)
}

/// A template was filled from a ranking of the pool, and `kept` says which transactions stayed.
pub open spec fn filled_with<M: Fn(&BlockTemplate) -> BlockSizes>(
    measure: M,
    rules: BlockRules,
    pool: ExtensionPool,
    before: TemplateModel,
    transaction_limit: usize,
    min_rate: int,
    after: TemplateModel,
    ranking: Seq<ProtocolModel>,
    kept: Seq<bool>,
) -> bool {
    let room = transaction_limit - before.transaction_count();
    let list = qcash_parts(
        at_most(
            ranking,
            if room >= 0 {
                room
            } else {
                0
            },
        ),
    );
    &&& is_ranking(ranking, pool, before.header.height, min_rate)
    &&& kept_by_size(measure, rules, before, list, kept)
    &&& after == packed(before, list, kept).settled()
}

/// A template was filled with the best eligible transactions of the pool, as far as the transaction
/// limit and the size limits allow, and its fees were settled.
pub open spec fn appended<M: Fn(&BlockTemplate) -> BlockSizes>(
    measure: M,
    rules: BlockRules,
    pool: ExtensionPool,
    before: TemplateModel,
    transaction_limit: usize,
    min_rate: int,
    after: TemplateModel,
) -> bool {
    exists|ranking: Seq<ProtocolModel>, kept: Seq<bool>| #[trigger]
        filled_with(
            measure,
            rules,
            pool,
            before,
            transaction_limit,
            min_rate,
            after,
            ranking,
            kept,
        )
}

/// Taking the last transaction back and settling the fees leads back to the settled template.
proof fn lemma_undone(before: TemplateModel, tx: QCashModel, popped: TemplateModel)
    requires
        popped.header == grown(before, tx).header,
        popped.transactions == before.transactions,
        popped.qcash_transactions == grown(before, tx).qcash_transactions.drop_last(),
    ensures
        popped.settled() == before.settled(),
{
    let pushed = before.qcash_transactions.push(tx);
    assert(pushed.drop_last() =~= before.qcash_transactions);
    assert(pushed.last() == tx);
    assert(qcash_fees(pushed) >= qcash_fees(before.qcash_transactions));
    assert(popped.qcash_transactions == before.qcash_transactions);
    assert(popped.fees() == before.fees());
    assert(popped.settled() =~= before.settled());
}

/// One more measured decision extends the run.
proof fn lemma_one_more<M: Fn(&BlockTemplate) -> BlockSizes>(
    measure: M,
    rules: BlockRules,
    base: TemplateModel,
    list: Seq<QCashModel>,
    kept: Seq<bool>,
    i: int,
    fits: bool,
)
    requires
        0 <= i < list.len(),
        kept.len() == i,
        kept_by_size(measure, rules, base, list.take(i), kept),
        measured(measure, grown(packed(base, list.take(i), kept), list[i]), rules, fits),
    ensures
        kept_by_size(measure, rules, base, list.take(i + 1), kept.push(fits)),
        packed(base, list.take(i + 1), kept.push(fits)) == (if fits {
            grown(packed(base, list.take(i), kept), list[i])
        } else {
            packed(base, list.take(i), kept).settled()
        }),
{
    let after = kept.push(fits);
    let upto = list.take(i + 1);
    assert(upto.drop_last() =~= list.take(i));
    assert(after.drop_last() =~= kept);
    assert(upto.last() == list[i]);
    assert forall|j: int| 0 <= j < upto.len() implies measured(
        measure,
        grown(packed(base, upto.take(j), after.take(j)), #[trigger] upto[j]),
        rules,
        after[j],
    ) by {
        if j < i {
            assert(upto.take(j) =~= list.take(i).take(j));
            assert(after.take(j) =~= kept.take(j));
            assert(upto[j] == list.take(i)[j]);
        } else {
            assert(upto.take(j) =~= list.take(i));
            assert(after.take(j) =~= kept);
        }
    }
}

/// The pool without the transactions of a block.
pub open spec fn extension_unconfirmed(
    pool: ExtensionPool,
    confirmed: Seq<QCashModel>,
) -> ExtensionPool {
    Map::new(
        |h: TransactionHash|
            pool.contains_key(h) && forall|i: int|
                0 <= i < confirmed.len() ==> (#[trigger] confirmed[i]).record.hash != h,
        |h: TransactionHash| pool[h],
    )
}

/// A list that holds exactly the pending transactions with a property, in ascending hash order.
pub open spec fn lists_extension(
    list: Seq<ProtocolModel>,
    pool: ExtensionPool,
    wanted: spec_fn(ProtocolModel) -> bool,
) -> bool {
    &&& forall|i: int, j: int|
        0 <= i < j < list.len() ==> (#[trigger] list[i]).hash().before((#[trigger] list[j]).hash())
    &&& forall|i: int| 0 <= i < list.len() ==> {
        let tx = #[trigger] list[i];
        pool.contains_key(tx.hash()) && pool[tx.hash()] == tx && wanted(tx)
    }
    &&& forall|h: TransactionHash| #[trigger]
        pool.contains_key(h) && wanted(pool[h]) ==> list.contains(pool[h])
}

/// Pending transactions of every family but transfers.
#[derive(Clone, Debug)]
pub struct ExtensionMempool {
    transactions: SortedMap<TransactionHash, SignedProtocolTransaction>,
    by_signer: SortedMap<Address, TransactionHash>,
    reserved_coins: SortedMap<CashCoinId, TransactionHash>,
}

fn deposit_coin_ids(transaction: &SignedProtocolTransaction) -> (r: Vec<CashCoinId>)
    ensures
        r@ == transaction@.coins(),
{
    match transaction {
        SignedProtocolTransaction::QCash(tx) => match tx.record.kind {
            QCashTransactionKind::DepositCash { .. } => crate::chain::copy_list(
                &tx.deposited_coins,
            ),
            QCashTransactionKind::WithdrawCash { .. } => {
                let none: Vec<CashCoinId> = Vec::new();
                assert(none@ =~= Seq::empty());
                none
            },
        },
        SignedProtocolTransaction::Transfer(_) => {
            let none: Vec<CashCoinId> = Vec::new();
            assert(none@ =~= Seq::empty());
            none
        },
    }
}

/// The rate that a fee amounts to.
pub fn fee_rate(fee: u64, virtual_size: usize) -> (r: u64)
    ensures
        r == rate_of_fee(fee as int, virtual_size as int),
{
    fee_rate_key(fee, virtual_size)
}

impl ExtensionMempool {
    /// The pending transactions by hash.
    pub closed spec fn pool(&self) -> ExtensionPool {
        Map::new(
            |h: TransactionHash| self.transactions@.contains_key(h),
            |h: TransactionHash| self.transactions@[h]@,
        )
    }

    /// Transactions are filed under their hashes, none is a transfer, the signer index is right, and
    /// each coin is reserved by the transaction that spends it.
    pub closed spec fn wf(&self) -> bool {
        let pool = self.pool();
        &&& self.transactions.wf()
        &&& self.by_signer.wf()
        &&& self.reserved_coins.wf()
        &&& pool.len() <= MAX_MEMPOOL_TXS
        &&& forall|h: TransactionHash| #[trigger]
            pool.contains_key(h) ==> {
                &&& pool[h].hash() == h
                &&& pool[h].family() != TransactionFamily::Transfer
                &&& self.by_signer@.contains_key(pool[h].signer())
                &&& self.by_signer@[pool[h].signer()] == h
            }
        &&& forall|s: Address| #[trigger]
            self.by_signer@.contains_key(s) ==> pool.contains_key(self.by_signer@[s])
                && pool[self.by_signer@[s]].signer() == s
        &&& forall|h: TransactionHash, i: int|
            #![trigger pool.contains_key(h), pool[h].coins()[i]]
            pool.contains_key(h) && 0 <= i < pool[h].coins().len()
                ==> self.reserved_coins@.contains_key(pool[h].coins()[i])
                && self.reserved_coins@[pool[h].coins()[i]] == h
        &&& forall|c: CashCoinId| #[trigger]
            self.reserved_coins@.contains_key(c) ==> pool.contains_key(self.reserved_coins@[c])
                && pool[self.reserved_coins@[c]].coins().contains(c)
    }

    /// A pool holds at most one transaction per signer, no transfer, at most one transaction that
    /// spends a given coin, and never more than its limit.
    pub proof fn pool_keeps_its_promises(&self)
        requires
            self.wf(),
        ensures
            self.pool().len() <= MAX_MEMPOOL_TXS,
            forall|g: TransactionHash, h: TransactionHash| #[trigger]
                self.pool().contains_key(g) && #[trigger] self.pool().contains_key(h)
                    && self.pool()[g].signer() == self.pool()[h].signer() ==> g == h,
            forall|g: TransactionHash, h: TransactionHash, c: CashCoinId|
                #![trigger self.pool()[g].coins().contains(c), self.pool()[h].coins().contains(c)]
                self.pool().contains_key(g) && self.pool().contains_key(h)
                    && self.pool()[g].coins().contains(c) && self.pool()[h].coins().contains(c)
                    ==> g == h,
            forall|h: TransactionHash| #[trigger]
                self.pool().contains_key(h) ==> self.pool()[h].hash() == h
                    && self.pool()[h].family() != TransactionFamily::Transfer,
    {
        let pool = self.pool();
        assert forall|g: TransactionHash, h: TransactionHash, c: CashCoinId|
            #![trigger pool[g].coins().contains(c), pool[h].coins().contains(c)]
            pool.contains_key(g) && pool.contains_key(h) && pool[g].coins().contains(c)
                && pool[h].coins().contains(c) implies g == h by {
            let i = pool[g].coins().index_of(c);
            let j = pool[h].coins().index_of(c);
            assert(self.reserved_coins@[pool[g].coins()[i]] == g);
            assert(self.reserved_coins@[pool[h].coins()[j]] == h);
        }
    }

    /// As long as a transaction is pending, every other one of its signer, and every other one that
    /// spends one of its coins, is refused. Once it is removed, neither its signer nor its coins stand
    /// in the way of another.
    pub proof fn pending_transactions_block_rivals(&self, h: TransactionHash, rival: ProtocolModel)
        requires
            self.wf(),
            self.pool().contains_key(h),
        ensures
            rival.signer() == self.pool()[h].signer() ==> extension_error(self.pool(), rival) is Some,
            forall|i: int|
                0 <= i < rival.coins().len() && self.pool()[h].coins().contains(
                    #[trigger] rival.coins()[i],
                ) ==> extension_error(self.pool(), rival) is Some,
            !signer_pending(self.pool().remove(h), self.pool()[h].signer()),
            forall|c: CashCoinId| #[trigger]
                self.pool()[h].coins().contains(c) ==> !coin_reserved(self.pool().remove(h), c),
    {
        self.pool_keeps_its_promises();
        let pool = self.pool();
        assert forall|i: int| 0 <= i < rival.coins().len() && pool[h].coins().contains(
            #[trigger] rival.coins()[i],
        ) implies extension_error(pool, rival) is Some by {
            assert(coin_reserved(pool, rival.coins()[i]));
        }
        assert forall|g: TransactionHash| #[trigger] pool.remove(h).contains_key(
            g,
        ) implies pool.contains_key(g) && g != h by {
        }
        assert forall|c: CashCoinId| #[trigger] pool[h].coins().contains(c) implies !coin_reserved(
            pool.remove(h),
            c,
        ) by {
            if coin_reserved(pool.remove(h), c) {
                let g = choose|g: TransactionHash| #[trigger]
                    pool.remove(h).contains_key(g) && pool.remove(h)[g].coins().contains(c);
                assert(pool[g].coins().contains(c));
            }
        }
    }

    /// An empty pool.
    pub fn new() -> (r: Self)
        ensures
            r.wf(),
            r.pool() == Map::<TransactionHash, ProtocolModel>::empty(),
    {
        let r = ExtensionMempool {
            transactions: SortedMap::new(),
            by_signer: SortedMap::new(),
            reserved_coins: SortedMap::new(),
        };
        proof {
            assert(r.pool() =~= Map::<TransactionHash, ProtocolModel>::empty());
            assert(r.pool().dom() =~= Set::empty());
        }
        r
    }

    proof fn lemma_pool_len(&self)
        requires
            self.transactions.wf(),
        ensures
            self.pool().dom() =~= self.transactions@.dom(),
            self.pool().dom().finite(),
            self.pool().len() == self.transactions@.len(),
    {
        self.transactions.lemma_order();
        assert(self.pool().dom() =~= self.transactions@.dom());
    }

    /// Adds a transaction. `apply` is the chain's answer to it in the next block, and is asked only
    /// if nothing else stands against it.
    pub fn insert_validated<
        A: Fn(&SignedProtocolTransaction, Height) -> Result<(), LedgerError>,
    >(
        &mut self,
        tip_height: Option<Height>,
        transaction: SignedProtocolTransaction,
        apply: A,
    ) -> (r: Result<TransactionHash, MempoolError>)
        requires
            old(self).wf(),
            forall|t: SignedProtocolTransaction, h: Height| #[trigger]
                call_requires(apply, (&t, h)),
        ensures
            final(self).wf(),
            match extension_error(old(self).pool(), transaction@) {
                Some(error) => r == Err::<TransactionHash, MempoolError>(error)
                    && final(self).pool() == old(self).pool(),
                None => match r {
                    Ok(hash) => {
                        &&& hash == transaction@.hash()
                        &&& applied(apply, transaction@, height_after(tip_height), None)
                        &&& final(self).pool() == old(self).pool().insert(hash, transaction@)
                    },
                    Err(refusal) => {
                        &&& final(self).pool() == old(self).pool()
                        &&& exists|error: LedgerError|
                            refusal == MempoolError::InvalidLedger(error) && #[trigger] applied(
                                apply,
                                transaction@,
                                height_after(tip_height),
                                Some(error),
                            )
                    },
                },
            },
    {
        let ghost pool = self.pool();
        let ghost tx = transaction@;
        if transaction.family() == TransactionFamily::Transfer {
            return Err(MempoolError::UnsupportedFamily);
        }
        proof {
            self.lemma_pool_len();
        }
        if self.transactions.len() >= MAX_MEMPOOL_TXS {
            return Err(MempoolError::MempoolFull);
        }
        let hash = transaction.hash();
        let signer = transaction.signer();
        if self.transactions.contains_key(&hash) || self.by_signer.contains_key(&signer) {
            proof {
                if self.by_signer@.contains_key(signer) {
                    assert(pool.contains_key(self.by_signer@[signer]));
                    assert(signer_pending(pool, signer));
                }
            }
            return Err(MempoolError::DuplicateTransaction);
        }
        proof {
            assert(!signer_pending(pool, signer));
        }
        let coin_ids = deposit_coin_ids(&transaction);
        let mut i: usize = 0;
        while i < coin_ids.len()
            invariant
                self.wf(),
                pool == self.pool(),
                tx == transaction@,
                coin_ids@ == tx.coins(),
                i <= coin_ids@.len(),
                tx.family() != TransactionFamily::Transfer,
                pool.len() < MAX_MEMPOOL_TXS,
                !pool.contains_key(tx.hash()),
                !signer_pending(pool, tx.signer()),
                pool == old(self).pool(),
                *self == *old(self),
                forall|j: int| 0 <= j < i ==> !coin_reserved(pool, #[trigger] coin_ids@[j]),
            decreases coin_ids@.len() - i,
        {
            let ghost coin = coin_ids@[i as int];
            if self.reserved_coins.contains_key(&coin_ids[i]) {
                proof {
                    assert(pool.contains_key(self.reserved_coins@[coin]));
                    assert(coin_reserved(pool, tx.coins()[i as int]));
                }
                return Err(MempoolError::CashCoinReserved);
            }
            proof {
                assert(!coin_reserved(pool, coin)) by {
                    if coin_reserved(pool, coin) {
                        let h = choose|h: TransactionHash| #[trigger]
                            pool.contains_key(h) && pool[h].coins().contains(coin);
                        let k = pool[h].coins().index_of(coin);
                        assert(self.reserved_coins@.contains_key(pool[h].coins()[k]));
                    }
                }
            }
            i = i + 1;
        }
        let height = next_height(tip_height);
        let outcome = apply(&transaction, height);
        assert(applied(apply, tx, height, refusal_of(outcome))) by {
            assert(call_ensures(apply, (&transaction, height), outcome));
        }
        match outcome {
            Err(error) => {
                return Err(MempoolError::InvalidLedger(error));
            },
            Ok(_) => {},
        }
        let ghost reserved = self.reserved_coins@;
        let mut j: usize = 0;
        while j < coin_ids.len()
            invariant
                coin_ids@ == tx.coins(),
                j <= coin_ids@.len(),
                self.reserved_coins.wf(),
                self.transactions == old(self).transactions,
                self.by_signer == old(self).by_signer,
                forall|c: CashCoinId| #[trigger]
                    self.reserved_coins@.contains_key(c) ==> (reserved.contains_key(c)
                        && self.reserved_coins@[c] == reserved[c]) || (coin_ids@.contains(c)
                        && self.reserved_coins@[c] == hash),
                forall|c: CashCoinId| #[trigger]
                    reserved.contains_key(c) && !coin_ids@.contains(c)
                        ==> self.reserved_coins@.contains_key(c) && self.reserved_coins@[c]
                        == reserved[c],
                forall|k: int|
                    0 <= k < j ==> self.reserved_coins@.contains_key(#[trigger] coin_ids@[k])
                        && self.reserved_coins@[coin_ids@[k]] == hash,
            decreases coin_ids@.len() - j,
        {
            assert(coin_ids@.contains(coin_ids@[j as int]));
            self.reserved_coins.insert(coin_ids[j], hash);
            j = j + 1;
        }
        self.by_signer.insert(signer, hash);
        self.transactions.insert(hash, transaction);
        proof {
            let after = self.pool();
            assert(after =~= pool.insert(hash, tx));
            assert(after.dom() =~= pool.dom().insert(hash));
            assert forall|h: TransactionHash| #[trigger] after.contains_key(h) implies after[h].hash()
                == h && after[h].family() != TransactionFamily::Transfer
                && self.by_signer@.contains_key(after[h].signer())
                && self.by_signer@[after[h].signer()] == h by {
                if h != hash {
                    assert(pool.contains_key(h));
                }
            }
            assert forall|s: Address| #[trigger] self.by_signer@.contains_key(s) implies after.contains_key(
                self.by_signer@[s],
            ) && after[self.by_signer@[s]].signer() == s by {
                if s != signer {
                    assert(old(self).by_signer@.contains_key(s));
                }
            }
            assert forall|h: TransactionHash, i: int|
                #![trigger after.contains_key(h), after[h].coins()[i]]
                after.contains_key(h) && 0 <= i
                    < after[h].coins().len() implies self.reserved_coins@.contains_key(
                after[h].coins()[i],
            ) && self.reserved_coins@[after[h].coins()[i]] == h by {
                if h != hash {
                    assert(pool.contains_key(h));
                    let c = pool[h].coins()[i];
                    assert(reserved.contains_key(c) && reserved[c] == h);
                    if coin_ids@.contains(c) {
                        let k = coin_ids@.index_of(c);
                        assert(!coin_reserved(pool, coin_ids@[k]));
                        assert(pool[h].coins().contains(c));
                    }
                }
            }
            assert forall|c: CashCoinId| #[trigger]
                self.reserved_coins@.contains_key(c) implies after.contains_key(
                self.reserved_coins@[c],
            ) && after[self.reserved_coins@[c]].coins().contains(c) by {
                if reserved.contains_key(c) && self.reserved_coins@[c] == reserved[c] {
                    assert(pool.contains_key(reserved[c]));
                }
            }
        }
        Ok(hash)
    }

    /// Whether a transaction is pending.
    pub fn contains(&self, hash: &TransactionHash) -> (r: bool)
        requires
            self.wf(),
        ensures
            r == self.pool().contains_key(*hash),
    {
        self.transactions.contains_key(hash)
    }

    /// Whether a signer has a pending transaction.
    pub fn contains_signer(&self, signer: Address) -> (r: bool)
        requires
            self.wf(),
        ensures
            r == signer_pending(self.pool(), signer),
    {
        proof {
            if self.by_signer@.contains_key(signer) {
                assert(self.pool().contains_key(self.by_signer@[signer]));
            }
        }
        self.by_signer.contains_key(&signer)
    }

    /// A pending transaction by its hash.
    pub fn get(&self, hash: &TransactionHash) -> (r: Option<&SignedProtocolTransaction>)
        requires
            self.wf(),
        ensures
            match r {
                Some(tx) => self.pool().contains_key(*hash) && tx@ == self.pool()[*hash],
                None => !self.pool().contains_key(*hash),
            },
    {
        self.transactions.get(hash)
    }

    /// The number of pending transactions.
    pub fn len(&self) -> (r: usize)
        requires
            self.wf(),
        ensures
            r == self.pool().len(),
    {
        proof {
            self.lemma_pool_len();
        }
        self.transactions.len()
    }

    /// Whether nothing is pending.
    pub fn is_empty(&self) -> (r: bool)
        requires
            self.wf(),
        ensures
            r == (self.pool() == Map::<TransactionHash, ProtocolModel>::empty()),
    {
        let n: usize = self.transactions.len();
        proof {
            self.lemma_pool_len();
            let pool = self.pool();
            if n == 0 {
                assert(pool.dom() =~= Set::empty());
                assert(pool =~= Map::<TransactionHash, ProtocolModel>::empty());
            } else {
                assert(Map::<TransactionHash, ProtocolModel>::empty().dom() =~= Set::empty());
            }
        }
        n == 0
    }

    /// The pending transactions of one family, in hash order.
    pub fn transactions_for_family(&self, family: TransactionFamily) -> (list: Vec<
        SignedProtocolTransaction,
    >)
        requires
            self.wf(),
        ensures
            lists_extension(
                protocol_models(list@),
                self.pool(),
                |tx: ProtocolModel| tx.family() == family,
            ),
    {
        let mut list: Vec<SignedProtocolTransaction> = Vec::new();
        let n: usize = self.transactions.len();
        let ghost order = self.transactions.order();
        let ghost pool = self.pool();
        proof {
            self.transactions.lemma_order();
        }
        let mut i: usize = 0;
        while i < n
            invariant
                self.wf(),
                order == self.transactions.order(),
                ascending(order),
                pool == self.pool(),
                n == order.len(),
                i <= n,
                forall|j: int| 0 <= j < n ==> pool.contains_key(#[trigger] order[j]),
                forall|a: int, b: int|
                    0 <= a < b < list@.len() ==> (#[trigger] list@[a])@.hash().before(
                        (#[trigger] list@[b])@.hash(),
                    ),
                forall|a: int|
                    0 <= a < list@.len() ==> {
                        let tx = (#[trigger] list@[a])@;
                        &&& pool.contains_key(tx.hash())
                        &&& pool[tx.hash()] == tx
                        &&& tx.family() == family
                        &&& i < n ==> tx.hash().before(order[i as int])
                    },
                forall|j: int|
                    0 <= j < i && pool[#[trigger] order[j]].family() == family ==> exists|a: int|
                        0 <= a < list@.len() && (#[trigger] list@[a])@ == pool[order[j]],
            decreases n - i,
        {
            let tx = self.transactions.value_at(i);
            let ghost before = list@;
            assert(pool.contains_key(order[i as int]));
            if tx.family() == family {
                list.push(tx.duplicate());
                assert(list@[before.len() as int]@ == pool[order[i as int]]);
            }
            proof {
                assert forall|j: int| 0 <= j < i + 1 && pool[#[trigger] order[j]].family()
                    == family implies exists|a: int|
                    0 <= a < list@.len() && (#[trigger] list@[a])@ == pool[order[j]] by {
                    if j < i {
                        let a = choose|a: int|
                            0 <= a < before.len() && (#[trigger] before[a])@ == pool[order[j]];
                        assert(list@[a]@ == pool[order[j]]);
                    }
                }
                if i + 1 < n {
                    assert forall|a: int| 0 <= a < list@.len() implies (
                    #[trigger] list@[a])@.hash().before(order[i + 1]) by {
                        if a < before.len() {
                            TransactionHash::order_transitive(
                                list@[a]@.hash(),
                                order[i as int],
                                order[i + 1],
                            );
                        }
                    }
                }
            }
            i = i + 1;
        }
        proof {
            let models = protocol_models(list@);
            assert forall|h: TransactionHash| #[trigger] pool.contains_key(h) && pool[h].family()
                == family implies models.contains(pool[h]) by {
                assert(order.contains(h));
                let j = order.index_of(h);
                assert(pool[order[j]].family() == family);
                let a = choose|a: int|
                    0 <= a < list@.len() && (#[trigger] list@[a])@ == pool[order[j]];
                assert(models[a] == pool[h]);
            }
            assert forall|a: int| 0 <= a < models.len() implies {
                let tx = #[trigger] models[a];
                pool.contains_key(tx.hash()) && pool[tx.hash()] == tx && tx.family() == family
            } by {
                assert(models[a] == list@[a]@);
            }
            assert forall|a: int, b: int| 0 <= a < b < models.len() implies (
            #[trigger] models[a]).hash().before((#[trigger] models[b]).hash()) by {
                assert(models[a] == list@[a]@ && models[b] == list@[b]@);
            }
        }
        list
    }

    /// All pending transactions in hash order.
    pub fn transactions(&self) -> (list: Vec<SignedProtocolTransaction>)
        requires
            self.wf(),
        ensures
            lists_extension(protocol_models(list@), self.pool(), |tx: ProtocolModel| true),
    {
        let list = self.transactions_for_family(TransactionFamily::QCash);
        proof {
            let pool = self.pool();
            let models = protocol_models(list@);
            assert forall|h: TransactionHash| #[trigger]
                pool.contains_key(h) implies models.contains(pool[h]) by {
                assert(pool[h].family() == TransactionFamily::QCash);
            }
        }
        list
    }

    /// Takes a transaction out of the pool and frees its coins.
    pub fn remove(&mut self, hash: &TransactionHash) -> (r: Option<SignedProtocolTransaction>)
        requires
            old(self).wf(),
        ensures
            final(self).wf(),
            final(self).pool() == old(self).pool().remove(*hash),
            match r {
                Some(tx) => old(self).pool().contains_key(*hash) && tx@ == old(
                    self,
                ).pool()[*hash],
                None => !old(self).pool().contains_key(*hash),
            },
    {
        let ghost pool = self.pool();
        proof {
            self.lemma_pool_len();
        }
        let transaction = match self.transactions.remove(hash) {
            Some(transaction) => transaction,
            None => {
                assert(pool.remove(*hash) =~= pool);
                return None;
            },
        };
        let ghost tx = transaction@;
        assert(tx == pool[*hash]);
        let ghost signers = self.by_signer@;
        let ghost reserved = self.reserved_coins@;
        let signer = transaction.signer();
        let _ = self.by_signer.remove(&signer);
        let coin_ids = deposit_coin_ids(&transaction);
        let mut i: usize = 0;
        while i < coin_ids.len()
            invariant
                pool == old(self).pool(),
                old(self).wf(),
                pool.contains_key(*hash),
                tx == pool[*hash],
                reserved == old(self).reserved_coins@,
                coin_ids@ == tx.coins(),
                i <= coin_ids@.len(),
                self.reserved_coins.wf(),
                self.transactions.wf(),
                self.by_signer.wf(),
                self.transactions@ == old(self).transactions@.remove(*hash),
                self.by_signer@ == signers.remove(signer),
                forall|c: CashCoinId| #[trigger]
                    self.reserved_coins@.contains_key(c) ==> reserved.contains_key(c)
                        && self.reserved_coins@[c] == reserved[c],
                forall|c: CashCoinId| #[trigger]
                    reserved.contains_key(c) && reserved[c] != *hash
                        ==> self.reserved_coins@.contains_key(c),
                forall|k: int|
                    0 <= k < i ==> !self.reserved_coins@.contains_key(#[trigger] coin_ids@[k]),
            decreases coin_ids@.len() - i,
        {
            let coin = coin_ids[i];
            let ours = match self.reserved_coins.get(&coin) {
                Some(owner) => owner.same(hash),
                None => false,
            };
            proof {
                assert(reserved.contains_key(tx.coins()[i as int]) && reserved[tx.coins()[i as int]]
                    == *hash);
            }
            if ours {
                let _ = self.reserved_coins.remove(&coin);
            }
            i = i + 1;
        }
        proof {
            let after = self.pool();
            assert(after =~= pool.remove(*hash));
            assert(after.dom() =~= pool.dom().remove(*hash));
            assert forall|h: TransactionHash| #[trigger] after.contains_key(h) implies after[h].hash()
                == h && after[h].family() != TransactionFamily::Transfer
                && self.by_signer@.contains_key(after[h].signer())
                && self.by_signer@[after[h].signer()] == h by {
                assert(pool.contains_key(h));
                assert(pool.contains_key(*hash));
            }
            assert forall|s: Address| #[trigger] self.by_signer@.contains_key(s) implies after.contains_key(
                self.by_signer@[s],
            ) && after[self.by_signer@[s]].signer() == s by {
                assert(signers.contains_key(s));
            }
            assert forall|h: TransactionHash, i: int|
                #![trigger after.contains_key(h), after[h].coins()[i]]
                after.contains_key(h) && 0 <= i
                    < after[h].coins().len() implies self.reserved_coins@.contains_key(
                after[h].coins()[i],
            ) && self.reserved_coins@[after[h].coins()[i]] == h by {
                assert(pool.contains_key(h));
                let c = pool[h].coins()[i];
                assert(reserved.contains_key(c) && reserved[c] == h);
            }
            assert forall|c: CashCoinId| #[trigger]
                self.reserved_coins@.contains_key(c) implies after.contains_key(
                self.reserved_coins@[c],
            ) && after[self.reserved_coins@[c]].coins().contains(c) by {
                assert(reserved.contains_key(c));
                if reserved[c] == *hash {
                    let k = tx.coins().index_of(c);
                    assert(coin_ids@[k] == c);
                }
            }
        }
        Some(transaction)
    }

    /// Takes the transactions of a block out of the pool.
    pub fn remove_confirmed(&mut self, block: &Block)
        requires
            old(self).wf(),
        ensures
            final(self).wf(),
            final(self).pool() == extension_unconfirmed(
                old(self).pool(),
                block@.qcash_transactions,
            ),
    {
        let ghost confirmed = block@.qcash_transactions;
        let ghost pool = self.pool();
        let mut i: usize = 0;
        assert(extension_unconfirmed(pool, confirmed.take(0)) =~= pool);
        while i < block.qcash_transactions.len()
            invariant
                self.wf(),
                confirmed == qcash_models(block.qcash_transactions@),
                i <= confirmed.len(),
                self.pool() == extension_unconfirmed(pool, confirmed.take(i as int)),
            decreases confirmed.len() - i,
        {
            let hash = block.qcash_transactions[i].record.hash;
            let _ = self.remove(&hash);
            proof {
                let more = extension_unconfirmed(pool, confirmed.take(i + 1));
                assert(self.pool() =~= more) by {
                    assert forall|h: TransactionHash| self.pool().contains_key(h)
                        == more.contains_key(h) by {
                        assert(confirmed.take(i + 1)[i as int].record.hash == hash);
                        assert forall|k: int| 0 <= k < i implies #[trigger] confirmed.take(i + 1)[k]
                            == confirmed.take(i as int)[k] by {}
                        if self.pool().contains_key(h) {
                            assert forall|k: int| 0 <= k < confirmed.take(i + 1).len() implies (
                            #[trigger] confirmed.take(i + 1)[k]).record.hash != h by {
                                if k < i {
                                    assert(confirmed.take(i as int)[k].record.hash != h);
                                }
                            }
                        }
                        if more.contains_key(h) {
                            assert forall|k: int| 0 <= k < confirmed.take(i as int).len() implies (
                            #[trigger] confirmed.take(i as int)[k]).record.hash != h by {
                                assert(confirmed.take(i + 1)[k].record.hash != h);
                            }
                        }
                    }
                }
            }
            i = i + 1;
        }
        assert(confirmed.take(i as int) =~= confirmed);
    }

    /// The best eligible transactions for a block, up to a limit.
    pub fn select_for_block(
        &self,
        height: Height,
        limit: usize,
        min_fee_rate: u64,
    ) -> (selected: Vec<SignedProtocolTransaction>)
        requires
            self.wf(),
        ensures
            exists|ranking: Seq<ProtocolModel>| #[trigger]
                is_ranking(ranking, self.pool(), height, min_fee_rate as int) && protocol_models(
                    selected@,
                ) == at_most(ranking, limit as int),
    {
        let ghost pool = self.pool();
        let mut ranked: SortedMap<RankKey, TransactionHash> = SortedMap::new();
        let n: usize = self.transactions.len();
        let ghost order = self.transactions.order();
        proof {
            self.transactions.lemma_order();
        }
        let mut i: usize = 0;
        while i < n
            invariant
                self.wf(),
                pool == self.pool(),
                order == self.transactions.order(),
                n == order.len(),
                i <= n,
                ranked.wf(),
                forall|j: int| 0 <= j < n ==> pool.contains_key(#[trigger] order[j]),
                forall|k: RankKey| #[trigger]
                    ranked@.contains_key(k) ==> {
                        &&& pool.contains_key(k.1)
                        &&& k == rank_key(pool[k.1])
                        &&& ranked@[k] == k.1
                        &&& extension_eligible(pool[k.1], height, min_fee_rate as int)
                    },
                forall|j: int|
                    0 <= j < i && extension_eligible(
                        pool[#[trigger] order[j]],
                        height,
                        min_fee_rate as int,
                    ) ==> ranked@.contains_key(rank_key(pool[order[j]])),
            decreases n - i,
        {
            let tx = self.transactions.value_at(i);
            let hash = self.transactions.key_at(i);
            assert(pool.contains_key(order[i as int]));
            assert(tx@ == pool[hash]);
            let rate: u64 = fee_rate(tx.fee().0, tx.virtual_size());
            if tx.validity().validate_at(height).is_ok() && rate >= min_fee_rate {
                ranked.insert(Pair(Reversed(rate), hash), hash);
            }
            i = i + 1;
        }
        let mut selected: Vec<SignedProtocolTransaction> = Vec::new();
        let total: usize = ranked.len();
        let count: usize = if limit <= total {
            limit
        } else {
            total
        };
        let ghost keys = ranked.order();
        let ghost ranking = Seq::new(keys.len(), |j: int| pool[keys[j].1]);
        proof {
            ranked.lemma_order();
            assert forall|j: int| 0 <= j < keys.len() implies ranked@.contains_key(
                #[trigger] keys[j],
            ) by {
                assert(keys.contains(keys[j]));
            }
            assert(is_ranking(ranking, pool, height, min_fee_rate as int)) by {
                assert forall|a: int, b: int| 0 <= a < b < ranking.len() implies rank_key(
                    #[trigger] ranking[a],
                ).before(rank_key(#[trigger] ranking[b])) by {
                    assert(keys[a].before(keys[b]));
                }
                assert forall|a: int| 0 <= a < ranking.len() implies {
                    let tx = #[trigger] ranking[a];
                    pool.contains_key(tx.hash()) && pool[tx.hash()] == tx && extension_eligible(
                        tx,
                        height,
                        min_fee_rate as int,
                    )
                } by {
                    assert(ranked@.contains_key(keys[a]));
                }
                assert forall|h: TransactionHash| #[trigger]
                    pool.contains_key(h) && extension_eligible(
                        pool[h],
                        height,
                        min_fee_rate as int,
                    ) implies ranking.contains(pool[h]) by {
                    assert(order.contains(h));
                    let j = order.index_of(h);
                    assert(order[j] == h);
                    let k = rank_key(pool[h]);
                    assert(ranked@.contains_key(k));
                    assert(keys.contains(k));
                    let a = keys.index_of(k);
                    assert(ranking[a] == pool[h]);
                }
            }
        }
        let mut j: usize = 0;
        while j < count
            invariant
                self.wf(),
                pool == self.pool(),
                ranked.wf(),
                keys == ranked.order(),
                count <= keys.len(),
                j <= count,
                ranking == Seq::new(keys.len(), |j: int| pool[keys[j].1]),
                forall|a: int| 0 <= a < keys.len() ==> ranked@.contains_key(#[trigger] keys[a]),
                forall|k: RankKey| #[trigger]
                    ranked@.contains_key(k) ==> pool.contains_key(k.1) && ranked@[k] == k.1,
                selected@.len() == j,
                forall|a: int| 0 <= a < j ==> (#[trigger] selected@[a])@ == ranking[a],
            decreases count - j,
        {
            let hash = *ranked.value_at(j);
            assert(ranked@.contains_key(keys[j as int]));
            match self.transactions.get(&hash) {
                Some(tx) => {
                    selected.push(tx.duplicate());
                },
                None => {},
            }
            j = j + 1;
        }
        assert(protocol_models(selected@) =~= at_most(ranking, limit as int));
        selected
    }

    /// Adds the best eligible transactions to a template, as far as the transaction limit and the
    /// size limits allow, and settles the fees.
    pub fn append_selected_to_block<M: Fn(&BlockTemplate) -> BlockSizes>(
        &self,
        block: &mut BlockTemplate,
        transaction_limit: usize,
        min_fee_rate: u64,
        rules: &BlockRules,
        measure: M,
    )
        requires
            self.wf(),
            forall|t: BlockTemplate| #[trigger] call_requires(measure, (&t,)),
        ensures
            appended(
                measure,
                *rules,
                self.pool(),
                old(block)@,
                transaction_limit,
                min_fee_rate as int,
                final(block)@,
            ),
    {
        let ghost base = block@;
        let ghost pool = self.pool();
        let ghost height = block@.header.height;
        let remaining: usize = transaction_limit.saturating_sub(block.transaction_count());
        let selected = self.select_for_block(block.header.height, remaining, min_fee_rate);
        let ghost ranking = choose|ranking: Seq<ProtocolModel>| #[trigger]
            is_ranking(ranking, pool, height, min_fee_rate as int) && protocol_models(selected@)
                == at_most(ranking, remaining as int);
        let ghost models = protocol_models(selected@);
        let ghost list = qcash_parts(models);
        let ghost mut kept: Seq<bool> = Seq::empty();
        proof {
            assert forall|j: int| 0 <= j < models.len() implies (#[trigger] models[j]) is QCash by {
                assert(models[j] == ranking[j]);
                assert(pool.contains_key(ranking[j].hash()));
            }
            assert(list.take(0) =~= Seq::<QCashModel>::empty());
        }
        let mut i: usize = 0;
        while i < selected.len()
            invariant
                forall|t: BlockTemplate| #[trigger] call_requires(measure, (&t,)),
                i <= selected@.len(),
                models == protocol_models(selected@),
                list == qcash_parts(models),
                forall|j: int| 0 <= j < models.len() ==> (#[trigger] models[j]) is QCash,
                kept.len() == i,
                kept_by_size(measure, *rules, base, list.take(i as int), kept),
                block@ == packed(base, list.take(i as int), kept),
            decreases selected@.len() - i,
        {
            let ghost before = block@;
            let ghost next = list[i as int];
            assert(models[i as int] is QCash);
            assert(models[i as int] == selected@[i as int]@);
            match &selected[i] {
                SignedProtocolTransaction::QCash(tx) => {
                    block.qcash_transactions.push(tx.duplicate());
                },
                SignedProtocolTransaction::Transfer(_) => {},
            }
            proof {
                let pushed = TemplateModel {
                    qcash_transactions: before.qcash_transactions.push(next),
                    ..before
                };
                assert(block@ =~= pushed);
            }
            block.refresh_fees();
            assert(block@ == grown(before, next));
            let ghost full = block@;
            let sizes = measure(&*block);
            let fits = rules.allows(&sizes);
            assert(measured(measure, full, *rules, fits)) by {
                assert(call_ensures(measure, (&*block,), sizes));
            }
            if !fits {
                let _ = block.qcash_transactions.pop();
                proof {
                    assert(block@.qcash_transactions =~= full.qcash_transactions.drop_last());
                    lemma_undone(before, next, block@);
                }
                block.refresh_fees();
            }
            proof {
                lemma_one_more(measure, *rules, base, list, kept, i as int, fits);
                kept = kept.push(fits);
            }
            i = i + 1;
        }
        block.refresh_fees();
        proof {
            assert(list.take(i as int) =~= list);
            assert(filled_with(
                measure,
                *rules,
                pool,
                base,
                transaction_limit,
                min_fee_rate as int,
                block@,
                ranking,
                kept,
            ));
        }
    }
}

} // verus!
