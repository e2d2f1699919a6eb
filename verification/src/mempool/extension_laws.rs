//! What the pool of bearer-coin transactions admits, and what it adds to a block.
use crate::ids::{Address, CashCoinId, Height, TransactionHash};
use crate::mempool::error::MempoolError;
use crate::mempool::extension::{
    at_most, coin_reserved, extension_error, extension_unconfirmed, is_ranking, lists_extension,
    rank_key, signer_pending, ExtensionMempool, ExtensionPool,
};
use crate::mempool::fee::rate_of_fee;
use crate::mempool::selection_laws::{covers, rates_are_what_fees_cover};
use crate::order::{Pair, Reversed, Sortable};
use crate::params::MAX_MEMPOOL_TXS;
use crate::transaction::{ProtocolModel, QCashModel, SignedProtocolTransaction, TransactionFamily};
use vstd::prelude::*;

verus! {

/// A transaction deposits a coin: it is a deposit, and the coin stands somewhere in its list.
pub open spec fn deposits(tx: ProtocolModel, coin: CashCoinId) -> bool {
    &&& tx is QCash
    &&& tx->QCash_0.record.kind is DepositCash
    &&& exists|i: int| 0 <= i < tx->QCash_0.coins.len() && #[trigger] tx->QCash_0.coins[i] == coin
}

/// A transaction is signed by an account.
pub open spec fn signed_by(tx: ProtocolModel, account: Address) -> bool {
    match tx {
        ProtocolModel::Transfer(transfer) => transfer.transaction.from == account,
        ProtocolModel::QCash(qcash) => qcash.record.signer == account,
    }
}

/// A deposit spends every coin of its list, and nothing else spends any.
pub proof fn deposits_spend_all_their_coins(tx: SignedProtocolTransaction)
    ensures
        forall|coin: CashCoinId| #[trigger]
            tx@.coins().contains(coin) <==> tx is QCash && tx->QCash_0.record.kind is DepositCash
                && tx->QCash_0.deposited_coins@.contains(coin),
        forall|coin: CashCoinId| #[trigger]
            tx@.coins().contains(coin) <==> deposits(tx@, coin),
        tx is QCash && tx->QCash_0.record.kind is DepositCash ==> tx@.coins().len()
            == tx->QCash_0.deposited_coins@.len(),
{
    assert forall|coin: CashCoinId| #[trigger] tx@.coins().contains(coin) <==> deposits(
        tx@,
        coin,
    ) by {
        lemma_deposits(tx@, coin);
    }
}

proof fn lemma_deposits(tx: ProtocolModel, coin: CashCoinId)
    ensures
        tx.coins().contains(coin) <==> deposits(tx, coin),
{
    if tx.coins().contains(coin) {
        let i = tx.coins().index_of(coin);
        assert(tx->QCash_0.coins[i] == coin);
    }
    if deposits(tx, coin) {
        let i = choose|i: int|
            0 <= i < tx->QCash_0.coins.len() && #[trigger] tx->QCash_0.coins[i] == coin;
        assert(tx.coins()[i] == coin);
    }
}

/// No coin is deposited by two pending transactions, wherever in their lists it stands.
pub proof fn pending_deposits_share_no_coin(
    mempool: &ExtensionMempool,
    g: TransactionHash,
    h: TransactionHash,
    i: int,
    j: int,
)
    requires
        mempool.wf(),
        mempool.pool().contains_key(g),
        mempool.pool().contains_key(h),
        mempool.pool()[g] is QCash,
        mempool.pool()[h] is QCash,
        mempool.pool()[g]->QCash_0.record.kind is DepositCash,
        mempool.pool()[h]->QCash_0.record.kind is DepositCash,
        0 <= i < mempool.pool()[g]->QCash_0.coins.len(),
        0 <= j < mempool.pool()[h]->QCash_0.coins.len(),
        mempool.pool()[g]->QCash_0.coins[i] == mempool.pool()[h]->QCash_0.coins[j],
    ensures
        g == h,
{
    mempool.pool_keeps_its_promises();
    let coin = mempool.pool()[g]->QCash_0.coins[i];
    lemma_deposits(mempool.pool()[g], coin);
    lemma_deposits(mempool.pool()[h], coin);
    assert(mempool.pool()[g].coins().contains(coin));
    assert(mempool.pool()[h].coins().contains(coin));
}

/// Everything pending is a bearer-coin transaction filed under its own hash, and no account has
/// signed two of them.
pub proof fn pending_signers_differ(mempool: &ExtensionMempool)
    requires
        mempool.wf(),
    ensures
        forall|h: TransactionHash| #[trigger]
            mempool.pool().contains_key(h) ==> mempool.pool()[h] is QCash
                && mempool.pool()[h]->QCash_0.record.hash == h,
        forall|g: TransactionHash, h: TransactionHash| #[trigger]
            mempool.pool().contains_key(g) && #[trigger] mempool.pool().contains_key(h)
                && mempool.pool()[g]->QCash_0.record.signer
                == mempool.pool()[h]->QCash_0.record.signer ==> g == h,
        mempool.pool().len() <= MAX_MEMPOOL_TXS,
{
    mempool.pool_keeps_its_promises();
    assert forall|g: TransactionHash, h: TransactionHash| #[trigger]
        mempool.pool().contains_key(g) && #[trigger] mempool.pool().contains_key(h)
            && mempool.pool()[g]->QCash_0.record.signer
            == mempool.pool()[h]->QCash_0.record.signer implies g == h by {
        assert(mempool.pool()[g].family() != TransactionFamily::Transfer);
        assert(mempool.pool()[h].family() != TransactionFamily::Transfer);
        assert(mempool.pool()[g].signer() == mempool.pool()[h].signer());
    }
}

/// A coin of one transaction is deposited by a pending one.
pub open spec fn shares_a_coin(pool: ExtensionPool, tx: ProtocolModel) -> bool {
    exists|h: TransactionHash, coin: CashCoinId|
        #![trigger deposits(pool[h], coin)]
        pool.contains_key(h) && deposits(pool[h], coin) && deposits(tx, coin)
}

/// A transaction of this hash, or of the account that signed this one, is pending.
pub open spec fn is_second(pool: ExtensionPool, tx: QCashModel) -> bool {
    ||| pool.contains_key(tx.record.hash)
    ||| exists|h: TransactionHash| #[trigger]
        pool.contains_key(h) && signed_by(pool[h], tx.record.signer)
}

/// The pool refuses transfers; everything if it is full; a second transaction of an account or a
/// hash; and a deposit of a coin that a pending transaction deposits. It refuses nothing else.
pub proof fn refusals_have_their_reasons(pool: ExtensionPool, tx: ProtocolModel)
    ensures
        extension_error(pool, tx) == Some(MempoolError::UnsupportedFamily) <==> tx is Transfer,
        extension_error(pool, tx) == Some(MempoolError::MempoolFull) <==> tx is QCash && pool.len()
            >= MAX_MEMPOOL_TXS,
        extension_error(pool, tx) == Some(MempoolError::DuplicateTransaction) <==> tx is QCash
            && pool.len() < MAX_MEMPOOL_TXS && is_second(pool, tx->QCash_0),
        extension_error(pool, tx) == Some(MempoolError::CashCoinReserved) <==> tx is QCash
            && pool.len() < MAX_MEMPOOL_TXS && !is_second(pool, tx->QCash_0) && shares_a_coin(
            pool,
            tx,
        ),
        extension_error(pool, tx) is None <==> tx is QCash && pool.len() < MAX_MEMPOOL_TXS
            && !is_second(pool, tx->QCash_0) && !shares_a_coin(pool, tx),
{
    if tx is QCash {
        let signer = tx->QCash_0.record.signer;
        if signer_pending(pool, signer) {
            let h = choose|h: TransactionHash| #[trigger]
                pool.contains_key(h) && pool[h].signer() == signer;
            assert(pool.contains_key(h) && signed_by(pool[h], signer));
        }
        if exists|h: TransactionHash| #[trigger]
            pool.contains_key(h) && signed_by(pool[h], signer) {
            let h = choose|h: TransactionHash| #[trigger]
                pool.contains_key(h) && signed_by(pool[h], signer);
            assert(pool.contains_key(h) && pool[h].signer() == signer);
        }
        if exists|i: int|
            0 <= i < tx.coins().len() && coin_reserved(pool, #[trigger] tx.coins()[i]) {
            let i = choose|i: int|
                0 <= i < tx.coins().len() && coin_reserved(pool, #[trigger] tx.coins()[i]);
            let coin = tx.coins()[i];
            let h = choose|h: TransactionHash| #[trigger]
                pool.contains_key(h) && pool[h].coins().contains(coin);
            lemma_deposits(pool[h], coin);
            lemma_deposits(tx, coin);
            assert(deposits(pool[h], coin));
        }
        if shares_a_coin(pool, tx) {
            let (h, coin) = choose|h: TransactionHash, coin: CashCoinId|
                #![trigger deposits(pool[h], coin)]
                pool.contains_key(h) && deposits(pool[h], coin) && deposits(tx, coin);
            lemma_deposits(pool[h], coin);
            lemma_deposits(tx, coin);
            let i = tx.coins().index_of(coin);
            assert(pool.contains_key(h) && pool[h].coins().contains(coin));
            assert(coin_reserved(pool, tx.coins()[i]));
        }
    }
}

/// While a deposit is pending, a deposit that has one of its coins anywhere in its list is refused.
pub proof fn coins_are_deposited_once(
    pool: ExtensionPool,
    h: TransactionHash,
    second: QCashModel,
    i: int,
    j: int,
)
    requires
        pool.contains_key(h),
        pool[h] is QCash,
        pool[h]->QCash_0.record.kind is DepositCash,
        second.record.kind is DepositCash,
        0 <= i < pool[h]->QCash_0.coins.len(),
        0 <= j < second.coins.len(),
        pool[h]->QCash_0.coins[i] == second.coins[j],
    ensures
        extension_error(pool, ProtocolModel::QCash(second)) is Some,
{
    let tx = ProtocolModel::QCash(second);
    let coin = second.coins[j];
    refusals_have_their_reasons(pool, tx);
    assert(deposits(pool[h], coin) && deposits(tx, coin));
}

/// What a block holds leaves the pool, and nothing else does.
pub proof fn unconfirmed_transactions_stay(pool: ExtensionPool, confirmed: Seq<QCashModel>)
    ensures
        forall|i: int|
            0 <= i < confirmed.len() ==> !extension_unconfirmed(pool, confirmed).contains_key(
                (#[trigger] confirmed[i]).record.hash,
            ),
        forall|h: TransactionHash|
            pool.contains_key(h) && !#[trigger] extension_unconfirmed(pool, confirmed).contains_key(
                h,
            ) ==> exists|i: int|
                0 <= i < confirmed.len() && (#[trigger] confirmed[i]).record.hash == h,
        forall|h: TransactionHash| #[trigger]
            extension_unconfirmed(pool, confirmed).contains_key(h) ==> pool.contains_key(h)
                && extension_unconfirmed(pool, confirmed)[h] == pool[h],
{
}

/// A listing holds each pending transaction with the property once, and nothing else, in ascending
/// hash order.
pub proof fn listings_are_exact(
    list: Seq<ProtocolModel>,
    mempool: &ExtensionMempool,
    wanted: spec_fn(ProtocolModel) -> bool,
)
    requires
        mempool.wf(),
        lists_extension(list, mempool.pool(), wanted),
    ensures
        forall|h: TransactionHash| #[trigger]
            mempool.pool().contains_key(h) && wanted(mempool.pool()[h]) ==> exists|i: int|
                0 <= i < list.len() && #[trigger] list[i] == mempool.pool()[h],
        forall|i: int|
            0 <= i < list.len() ==> (#[trigger] list[i]) is QCash && wanted(list[i])
                && mempool.pool().contains_key(list[i]->QCash_0.record.hash)
                && mempool.pool()[list[i]->QCash_0.record.hash] == list[i],
        forall|i: int, j: int|
            0 <= i < j < list.len() ==> (#[trigger] list[i])->QCash_0.record.hash.before(
                (#[trigger] list[j])->QCash_0.record.hash,
            ),
{
    pending_signers_differ(mempool);
    let pool = mempool.pool();
    assert forall|h: TransactionHash| #[trigger]
        pool.contains_key(h) && wanted(pool[h]) implies exists|i: int|
        0 <= i < list.len() && #[trigger] list[i] == pool[h] by {
        let i = list.index_of(pool[h]);
        assert(list[i] == pool[h]);
    }
    assert forall|i: int| 0 <= i < list.len() implies (#[trigger] list[i]) is QCash && wanted(
        list[i],
    ) && pool.contains_key(list[i]->QCash_0.record.hash) && pool[list[i]->QCash_0.record.hash]
        == list[i] by {
        assert(pool.contains_key(list[i].hash()));
    }
    assert forall|i: int, j: int| 0 <= i < j < list.len() implies (
    #[trigger] list[i])->QCash_0.record.hash.before((#[trigger] list[j])->QCash_0.record.hash) by {
        assert(pool.contains_key(list[i].hash()));
        assert(pool.contains_key(list[j].hash()));
    }
}

/// A bearer-coin transaction pays at least this rate.
pub open spec fn pays(tx: QCashModel, rate: int) -> bool {
    covers(tx.record.fee.0 as int, tx.record.virtual_size as int, rate)
}

/// A bearer-coin transaction may enter a block at this height and minimum rate.
pub open spec fn may_be_packed(tx: QCashModel, height: Height, min_rate: int) -> bool {
    &&& tx.record.validity.valid_from.0 <= height.0
    &&& height.0 <= tx.record.validity.valid_until.0
    &&& pays(tx, min_rate)
}

/// One transaction is packed before another: it pays every rate that the other pays, and where the
/// other pays every rate of the first too, the first has the lower hash.
pub open spec fn packed_before(first: QCashModel, other: QCashModel) -> bool {
    &&& forall|rate: int| #[trigger] pays(other, rate) ==> pays(first, rate)
    &&& (forall|rate: int| #[trigger] pays(first, rate) ==> pays(other, rate))
        ==> first.record.hash.before(other.record.hash)
}

proof fn lemma_packed_before(first: QCashModel, other: QCashModel)
    requires
        rank_key(ProtocolModel::QCash(first)).before(rank_key(ProtocolModel::QCash(other))),
    ensures
        packed_before(first, other),
{
    let a = rate_of_fee(first.record.fee.0 as int, first.record.virtual_size as int);
    let b = rate_of_fee(other.record.fee.0 as int, other.record.virtual_size as int);
    rates_are_what_fees_cover(first.record.fee.0, first.record.virtual_size, a);
    rates_are_what_fees_cover(other.record.fee.0, other.record.virtual_size, b);
    assert forall|rate: int| #[trigger] pays(other, rate) implies pays(first, rate) by {
        rates_are_what_fees_cover(first.record.fee.0, first.record.virtual_size, rate);
        rates_are_what_fees_cover(other.record.fee.0, other.record.virtual_size, rate);
    }
    if forall|rate: int| #[trigger] pays(first, rate) ==> pays(other, rate) {
        assert(pays(first, a));
        assert(pays(other, a));
        rates_are_what_fees_cover(other.record.fee.0, other.record.virtual_size, a);
    }
}

/// A ranking holds every pending transaction that may enter, once, and nothing else; each is packed
/// before those behind it.
pub proof fn rankings_put_the_best_payer_first(
    ranking: Seq<ProtocolModel>,
    mempool: &ExtensionMempool,
    height: Height,
    min_rate: int,
)
    requires
        mempool.wf(),
        is_ranking(ranking, mempool.pool(), height, min_rate),
    ensures
        forall|i: int|
            0 <= i < ranking.len() ==> (#[trigger] ranking[i]) is QCash && may_be_packed(
                ranking[i]->QCash_0,
                height,
                min_rate,
            ) && mempool.pool().contains_key(ranking[i]->QCash_0.record.hash)
                && mempool.pool()[ranking[i]->QCash_0.record.hash] == ranking[i],
        forall|h: TransactionHash| #[trigger]
            mempool.pool().contains_key(h) && may_be_packed(
                mempool.pool()[h]->QCash_0,
                height,
                min_rate,
            ) ==> exists|i: int|
                0 <= i < ranking.len() && #[trigger] ranking[i] == mempool.pool()[h],
        forall|i: int, j: int|
            0 <= i < j < ranking.len() ==> packed_before(
                (#[trigger] ranking[i])->QCash_0,
                (#[trigger] ranking[j])->QCash_0,
            ) && ranking[i] != ranking[j],
{
    pending_signers_differ(mempool);
    let pool = mempool.pool();
    assert forall|i: int| 0 <= i < ranking.len() implies (#[trigger] ranking[i]) is QCash
        && may_be_packed(ranking[i]->QCash_0, height, min_rate) && pool.contains_key(
        ranking[i]->QCash_0.record.hash,
    ) && pool[ranking[i]->QCash_0.record.hash] == ranking[i] by {
        assert(pool.contains_key(ranking[i].hash()));
        let record = ranking[i]->QCash_0.record;
        rates_are_what_fees_cover(record.fee.0, record.virtual_size, min_rate);
    }
    assert forall|h: TransactionHash| #[trigger]
        pool.contains_key(h) && may_be_packed(
            pool[h]->QCash_0,
            height,
            min_rate,
        ) implies exists|i: int| 0 <= i < ranking.len() && #[trigger] ranking[i] == pool[h] by {
        let record = pool[h]->QCash_0.record;
        rates_are_what_fees_cover(record.fee.0, record.virtual_size, min_rate);
        let i = ranking.index_of(pool[h]);
        assert(ranking[i] == pool[h]);
    }
    assert forall|i: int, j: int| 0 <= i < j < ranking.len() implies packed_before(
        (#[trigger] ranking[i])->QCash_0,
        (#[trigger] ranking[j])->QCash_0,
    ) && ranking[i] != ranking[j] by {
        assert(ranking[i] is QCash && ranking[j] is QCash);
        let a = ranking[i]->QCash_0;
        let b = ranking[j]->QCash_0;
        assert(ranking[i] == ProtocolModel::QCash(a) && ranking[j] == ProtocolModel::QCash(b));
        lemma_packed_before(a, b);
        Pair::<Reversed<u64>, TransactionHash>::order_irreflexive(rank_key(ranking[i]));
    }
}

/// A selection takes as many as the limit allows; it leaves a transaction that may enter out only if
/// the limit is reached, and then all those selected are packed before it.
pub proof fn selections_stop_only_at_the_limit(
    ranking: Seq<ProtocolModel>,
    mempool: &ExtensionMempool,
    height: Height,
    limit: usize,
    min_rate: int,
    h: TransactionHash,
)
    requires
        mempool.wf(),
        is_ranking(ranking, mempool.pool(), height, min_rate),
        mempool.pool().contains_key(h),
        may_be_packed(mempool.pool()[h]->QCash_0, height, min_rate),
        !at_most(ranking, limit as int).contains(mempool.pool()[h]),
    ensures
        at_most(ranking, limit as int).len() == limit,
        forall|i: int|
            0 <= i < limit ==> packed_before(
                (#[trigger] at_most(ranking, limit as int)[i])->QCash_0,
                mempool.pool()[h]->QCash_0,
            ),
{
    rankings_put_the_best_payer_first(ranking, mempool, height, min_rate);
    let k = choose|k: int| 0 <= k < ranking.len() && #[trigger] ranking[k] == mempool.pool()[h];
    let selected = at_most(ranking, limit as int);
    if k < selected.len() {
        assert(selected[k] == mempool.pool()[h]);
    }
    assert forall|i: int| 0 <= i < limit implies packed_before(
        (#[trigger] selected[i])->QCash_0,
        mempool.pool()[h]->QCash_0,
    ) by {
        assert(selected[i] == ranking[i]);
    }
}

} // verus!
