//! What stays in the mempool, what a listing holds and what enters a block.
use crate::ids::{Address, Height, TransactionHash};
use crate::mempool::fee::{capped, fullness, market_rate, rate_of_fee};
use crate::mempool::laws::{available, best_available, nonces_have_successors, selection_is_greedy};
use crate::mempool::policy::{going_rate, pressure, MempoolConfig};
use crate::mempool::pool::{
    coherent, competing_key, drawn, first_from, is_first_from, lemma_first_from_exists, lists,
    lists_all, queue_heads, queued_from, unconfirmed, unexpired, Pool,
};
use crate::order::Sortable;
use crate::params::{DYNAMIC_MARKET_FEE_MAX_MULTIPLIER, FEE_RATE_UNIT_BYTES};
use crate::transaction::SignedTransaction;
use vstd::prelude::*;

verus! {

/// What expired by a time leaves the pool, and nothing else does.
pub proof fn the_living_stay(pool: Pool, now: u64)
    ensures
        forall|h: TransactionHash| #[trigger]
            unexpired(pool, now).contains_key(h) <==> pool.contains_key(h) && now
                < pool[h].expires_at,
        forall|h: TransactionHash| #[trigger]
            unexpired(pool, now).contains_key(h) ==> unexpired(pool, now)[h] == pool[h],
{
}

/// What a block holds leaves the pool, and nothing else does.
pub proof fn the_unconfirmed_stay(pool: Pool, confirmed: Seq<SignedTransaction>)
    ensures
        forall|i: int|
            0 <= i < confirmed.len() ==> !unconfirmed(pool, confirmed).contains_key(
                (#[trigger] confirmed[i]).hash,
            ),
        forall|h: TransactionHash|
            pool.contains_key(h) && !#[trigger] unconfirmed(pool, confirmed).contains_key(h)
                ==> exists|i: int| 0 <= i < confirmed.len() && (#[trigger] confirmed[i]).hash == h,
        forall|h: TransactionHash| #[trigger]
            unconfirmed(pool, confirmed).contains_key(h) ==> pool.contains_key(h) && unconfirmed(
                pool,
                confirmed,
            )[h] == pool[h],
{
}

/// A list of pending transactions with a property holds each of them once and nothing else, in
/// ascending hash order.
pub proof fn listings_are_exact(
    list: Seq<SignedTransaction>,
    pool: Pool,
    wanted: spec_fn(SignedTransaction) -> bool,
)
    requires
        coherent(pool),
        lists(list, pool, wanted),
    ensures
        forall|h: TransactionHash|
            #![trigger pool.contains_key(h)]
            pool.contains_key(h) && wanted(pool[h].transaction) <==> exists|i: int|
                0 <= i < list.len() && (#[trigger] list[i]).hash == h && pool.contains_key(h)
                    && pool[h].transaction == list[i] && wanted(list[i]),
        forall|i: int|
            0 <= i < list.len() ==> pool.contains_key((#[trigger] list[i]).hash)
                && pool[list[i].hash].transaction == list[i] && wanted(list[i]),
        forall|i: int, j: int|
            0 <= i < j < list.len() ==> (#[trigger] list[i]).hash.before((#[trigger] list[j]).hash)
                && list[i].hash != list[j].hash,
{
    assert forall|h: TransactionHash|
        #![trigger pool.contains_key(h)]
        pool.contains_key(h) && wanted(pool[h].transaction) implies exists|i: int|
        0 <= i < list.len() && (#[trigger] list[i]).hash == h && pool.contains_key(h)
            && pool[h].transaction == list[i] && wanted(list[i]) by {
        let i = list.index_of(pool[h].transaction);
        assert(list[i] == pool[h].transaction);
    }
    assert forall|i: int, j: int| 0 <= i < j < list.len() implies (#[trigger] list[i]).hash.before(
        (#[trigger] list[j]).hash,
    ) && list[i].hash != list[j].hash by {
        TransactionHash::order_irreflexive(list[i].hash);
    }
}

/// The list of all pending transactions leaves none out.
pub proof fn full_listings_are_full(list: Seq<SignedTransaction>, pool: Pool)
    requires
        coherent(pool),
        lists_all(list, pool),
    ensures
        forall|h: TransactionHash| #[trigger]
            pool.contains_key(h) ==> exists|i: int|
                0 <= i < list.len() && (#[trigger] list[i]) == pool[h].transaction,
        forall|i: int|
            0 <= i < list.len() ==> pool.contains_key((#[trigger] list[i]).hash)
                && pool[list[i].hash].transaction == list[i],
{
    assert forall|h: TransactionHash| #[trigger] pool.contains_key(h) implies exists|i: int|
        0 <= i < list.len() && (#[trigger] list[i]) == pool[h].transaction by {
        let i = list.index_of(pool[h].transaction);
        assert(list[i] == pool[h].transaction);
    }
}

/// A sender is known exactly if it has something pending, and its queue is headed by the pending
/// transaction of its lowest nonce.
pub proof fn heads_have_the_lowest_nonce(pool: Pool, sender: Address)
    requires
        coherent(pool),
    ensures
        queued_from(pool, sender, 0) <==> exists|h: TransactionHash| #[trigger]
            pool.contains_key(h) && pool[h].transaction.transaction.from == sender,
        queued_from(pool, sender, 0) <==> queue_heads(pool).contains_key(sender),
        queued_from(pool, sender, 0) ==> {
            let head = first_from(pool, sender, 0);
            &&& queue_heads(pool)[sender] == head
            &&& pool.contains_key(head)
            &&& pool[head].transaction.transaction.from == sender
            &&& forall|h: TransactionHash| #[trigger]
                pool.contains_key(h) && pool[h].transaction.transaction.from == sender
                    ==> pool[head].transaction.transaction.nonce.0
                    <= pool[h].transaction.transaction.nonce.0
        },
{
    if exists|h: TransactionHash| #[trigger]
        pool.contains_key(h) && pool[h].transaction.transaction.from == sender {
        let h = choose|h: TransactionHash| #[trigger]
            pool.contains_key(h) && pool[h].transaction.transaction.from == sender;
        assert(pool[h].sender() == sender && pool[h].nonce() >= 0);
        lemma_first_from_exists(pool, sender, 0);
        let head = first_from(pool, sender, 0);
        assert(is_first_from(pool, sender, 0, head));
        assert forall|g: TransactionHash| #[trigger]
            pool.contains_key(g) && pool[g].transaction.transaction.from == sender implies pool[head].transaction.transaction.nonce.0
            <= pool[g].transaction.transaction.nonce.0 by {
            assert(pool[g].sender() == sender && pool[g].nonce() >= 0);
            assert(pool[head].nonce() <= pool[g].nonce());
        }
    }
}

/// A pool is as full as its bytes or its transactions, whichever is worse: at `p` hundredths of a
/// percent one of the two has reached that share of its limit, and neither has reached the next.
pub proof fn pressure_is_the_worse_share(config: MempoolConfig, bytes: int, count: int)
    requires
        0 <= bytes <= config.max_bytes,
        0 <= count <= config.max_transactions,
        config.max_bytes > 0,
        config.max_transactions > 0,
    ensures
        ({
            let p = pressure(config, bytes, count);
            &&& 0 <= p <= 10_000
            &&& p * config.max_bytes <= bytes * 10_000 || p * config.max_transactions <= count
                * 10_000
            &&& bytes * 10_000 < (p + 1) * config.max_bytes
            &&& count * 10_000 < (p + 1) * config.max_transactions
        }),
{
    lemma_share(bytes, config.max_bytes as int);
    lemma_share(count, config.max_transactions as int);
    let a = fullness(bytes, config.max_bytes as int);
    let b = fullness(count, config.max_transactions as int);
    let p = pressure(config, bytes, count);
    assert((a + 1) * config.max_bytes <= (p + 1) * config.max_bytes) by (nonlinear_arith)
        requires
            a <= p,
    ;
    assert((b + 1) * config.max_transactions <= (p + 1) * config.max_transactions)
        by (nonlinear_arith)
        requires
            b <= p,
    ;
}

proof fn lemma_share(used: int, capacity: int)
    requires
        0 <= used <= capacity,
        capacity > 0,
    ensures
        fullness(used, capacity) == used * 10_000 / capacity,
        0 <= fullness(used, capacity) <= 10_000,
        fullness(used, capacity) * capacity <= used * 10_000,
        used * 10_000 < (fullness(used, capacity) + 1) * capacity,
{
    let q = used * 10_000 / capacity;
    assert(q * capacity <= used * 10_000 && used * 10_000 < (q + 1) * capacity && 0 <= q <= 10_000)
        by (nonlinear_arith)
        requires
            q == used * 10_000 / capacity,
            0 <= used <= capacity,
            capacity > 0,
    ;
}

/// The going rate is the greater of the two configured rates, raised by the multiplier in proportion
/// to the pressure and rounded up.
pub proof fn the_going_rate_rises_in_proportion(config: MempoolConfig, bytes: int, count: int)
    requires
        0 <= pressure(config, bytes, count) <= 10_000,
        config.market_fee * DYNAMIC_MARKET_FEE_MAX_MULTIPLIER * 10_001 + 9_999 <= u64::MAX,
        config.min_relay_fee * DYNAMIC_MARKET_FEE_MAX_MULTIPLIER * 10_001 + 9_999 <= u64::MAX,
    ensures
        ({
            let base = if config.market_fee >= config.min_relay_fee {
                config.market_fee as int
            } else {
                config.min_relay_fee as int
            };
            let raised = base * DYNAMIC_MARKET_FEE_MAX_MULTIPLIER * pressure(config, bytes, count);
            let rate = going_rate(config, bytes, count);
            &&& (rate - base) * 10_000 >= raised
            &&& (rate - base) * 10_000 < raised + 10_000
        }),
{
    let base = if config.market_fee >= config.min_relay_fee {
        config.market_fee as int
    } else {
        config.min_relay_fee as int
    };
    let p = pressure(config, bytes, count);
    let scaled = base * DYNAMIC_MARKET_FEE_MAX_MULTIPLIER;
    assert(0 <= scaled * p <= scaled * 10_000) by (nonlinear_arith)
        requires
            0 <= p <= 10_000,
            scaled >= 0,
    ;
    assert(going_rate(config, bytes, count) == market_rate(base, p));
}

/// A fee covers a size at a rate; what has no size reaches every rate there is.
pub open spec fn covers(fee: int, size: int, rate: int) -> bool {
    &&& rate * size <= fee * FEE_RATE_UNIT_BYTES || size == 0
    &&& rate * size <= u64::MAX
    &&& rate <= u64::MAX
}

/// A transfer pays at least this rate.
pub open spec fn reaches(tx: SignedTransaction, rate: int) -> bool {
    covers(tx.transaction.fee.0 as int, tx.virtual_size as int, rate)
}

/// Rates are compared by what they cover.
pub proof fn rates_are_what_fees_cover(fee: u64, size: usize, rate: int)
    ensures
        covers(fee as int, size as int, rate) <==> rate <= rate_of_fee(fee as int, size as int),
        0 <= rate_of_fee(fee as int, size as int) <= u64::MAX,
{
    if size > 0 {
        let pay = capped(fee * FEE_RATE_UNIT_BYTES);
        let n = size as int;
        assert(0 <= pay / n <= pay) by (nonlinear_arith)
            requires
                n > 0,
                pay >= 0,
        ;
        assert(rate * n <= pay <==> rate <= pay / n) by (nonlinear_arith)
            requires
                n > 0,
                pay >= 0,
        ;
        if rate * n <= u64::MAX && rate > u64::MAX {
            assert(rate * n >= rate) by (nonlinear_arith)
                requires
                    n > 0,
                    rate > 0,
            ;
        }
    }
}

/// A transfer may enter a block at this height and minimum rate.
pub open spec fn may_enter(tx: SignedTransaction, min_rate: int, height: Option<Height>) -> bool {
    &&& reaches(tx, min_rate)
    &&& height matches Some(at) ==> tx.transaction.validity.valid_from.0 <= at.0
        && at.0 <= tx.transaction.validity.valid_until.0
}

/// One transfer goes before another: it reaches every rate that the other reaches; where the other
/// reaches every rate of the first too, the first pays no less; at the same fee it has the lower
/// nonce, and at the same nonce the lower hash.
pub open spec fn goes_before(first: SignedTransaction, other: SignedTransaction) -> bool {
    &&& forall|rate: int| #[trigger] reaches(other, rate) ==> reaches(first, rate)
    &&& (forall|rate: int| #[trigger] reaches(first, rate) ==> reaches(other, rate)) ==> {
        &&& first.transaction.fee.0 >= other.transaction.fee.0
        &&& first.transaction.fee.0 == other.transaction.fee.0 ==> {
            &&& first.transaction.nonce.0 <= other.transaction.nonce.0
            &&& first.transaction.nonce.0 == other.transaction.nonce.0 ==> first.hash.before(
                other.hash,
            )
        }
    }
}

proof fn lemma_reach(tx: SignedTransaction, rate: int)
    ensures
        reaches(tx, rate) <==> rate <= rate_of_fee(
            tx.transaction.fee.0 as int,
            tx.virtual_size as int,
        ),
        0 <= rate_of_fee(tx.transaction.fee.0 as int, tx.virtual_size as int) <= u64::MAX,
{
    rates_are_what_fees_cover(tx.transaction.fee.0, tx.virtual_size, rate);
}

proof fn lemma_goes_before(first: SignedTransaction, other: SignedTransaction)
    requires
        competing_key(other).before(competing_key(first)),
    ensures
        goes_before(first, other),
{
    let a = rate_of_fee(first.transaction.fee.0 as int, first.virtual_size as int);
    let b = rate_of_fee(other.transaction.fee.0 as int, other.virtual_size as int);
    lemma_reach(first, 0);
    lemma_reach(other, 0);
    assert forall|rate: int| #[trigger] reaches(other, rate) implies reaches(first, rate) by {
        lemma_reach(other, rate);
        lemma_reach(first, rate);
    }
    if forall|rate: int| #[trigger] reaches(first, rate) ==> reaches(other, rate) {
        lemma_reach(first, a);
        lemma_reach(other, a);
        assert(a == b);
    }
}

/// At each turn the transfer that is packed goes before everything else that has its turn and may
/// enter. Selection ends early only if nothing that has its turn may enter.
pub proof fn selection_prefers_the_best_payer(
    pool: Pool,
    limit: nat,
    min_rate: int,
    height: Option<Height>,
)
    requires
        coherent(pool),
        nonces_have_successors(pool),
    ensures
        ({
            let list = drawn(pool, queue_heads(pool), limit, min_rate, height);
            &&& list.len() <= limit
            &&& forall|i: int, h: TransactionHash|
                #![trigger list[i], available(pool, list.take(i), h)]
                0 <= i < list.len() && available(pool, list.take(i), h) && may_enter(
                    pool[h].transaction,
                    min_rate,
                    height,
                ) && h != list[i].hash ==> goes_before(list[i], pool[h].transaction)
            &&& forall|i: int|
                0 <= i < list.len() ==> may_enter(#[trigger] list[i], min_rate, height) && available(
                    pool,
                    list.take(i),
                    list[i].hash,
                ) && pool[list[i].hash].transaction == list[i]
            &&& list.len() < limit ==> forall|h: TransactionHash| #[trigger]
                available(pool, list, h) ==> !may_enter(pool[h].transaction, min_rate, height)
        }),
{
    selection_is_greedy(pool, limit, min_rate, height);
    let list = drawn(pool, queue_heads(pool), limit, min_rate, height);
    assert forall|i: int| 0 <= i < list.len() implies may_enter(
        #[trigger] list[i],
        min_rate,
        height,
    ) && available(pool, list.take(i), list[i].hash) && pool[list[i].hash].transaction
        == list[i] by {
        lemma_reach(list[i], min_rate);
    }
    assert forall|i: int, h: TransactionHash|
        #![trigger list[i], available(pool, list.take(i), h)]
        0 <= i < list.len() && available(pool, list.take(i), h) && may_enter(
            pool[h].transaction,
            min_rate,
            height,
        ) && h != list[i].hash implies goes_before(list[i], pool[h].transaction) by {
        lemma_reach(pool[h].transaction, min_rate);
        assert(best_available(pool, list.take(i), list[i], min_rate, height));
        lemma_goes_before(list[i], pool[h].transaction);
    }
    if list.len() < limit {
        assert forall|h: TransactionHash| #[trigger] available(pool, list, h) implies !may_enter(
            pool[h].transaction,
            min_rate,
            height,
        ) by {
            lemma_reach(pool[h].transaction, min_rate);
        }
    }
}

} // verus!
