//! What admission to the mempool means, in plain numbers.
use crate::chain::{Account, LedgerError, StateError};
use crate::ids::{Address, TransactionHash};
use crate::mempool::error::MempoolError;
use crate::mempool::mempool::{offered, Mempool};
use crate::mempool::policy::{
    admission_error, affords, expiry_time, fit_error, going_rate, insert_error,
    insert_validated_error, ledger_fit, place_holder, place_taken, pool_without, relay_error,
    MempoolConfig, SignatureVerdicts,
};
use crate::mempool::pool::{
    coherent, first_from, following, is_first_from, lemma_first_from_exists, queue_from,
    queued_from, Pool,
};
use crate::order::Pair;
use crate::params::{
    FEE_RATE_UNIT_BYTES, MAX_RELAY_TRANSACTION_AGE_SECS, MAX_RELAY_TRANSACTION_FUTURE_SECS,
    MIN_RELAY_FEE_FLOOR,
};
use crate::transaction::{SignedTransaction, TransactionError};
use vstd::prelude::*;

verus! {

/// What a list of transfers takes from its sender: all amounts and all fees.
pub open spec fn commitment(list: Seq<SignedTransaction>) -> int
    decreases list.len(),
{
    if list.len() == 0 {
        0
    } else {
        commitment(list.drop_last()) + list.last().transaction.amount.0
            + list.last().transaction.fee.0
    }
}

/// All pending transfers of a sender but the one that is left out, in ascending nonce order.
pub open spec fn is_sender_queue(
    list: Seq<SignedTransaction>,
    pool: Pool,
    sender: Address,
    left_out: Option<TransactionHash>,
) -> bool {
    &&& forall|i: int, j: int|
        0 <= i < j < list.len() ==> (#[trigger] list[i]).transaction.nonce.0 < (
        #[trigger] list[j]).transaction.nonce.0
    &&& forall|i: int|
        0 <= i < list.len() ==> {
            let tx = #[trigger] list[i];
            &&& pool.contains_key(tx.hash)
            &&& pool[tx.hash].transaction == tx
            &&& tx.transaction.from == sender
            &&& Some(tx.hash) != left_out
        }
    &&& forall|h: TransactionHash| #[trigger]
        pool.contains_key(h) && pool[h].transaction.transaction.from == sender && Some(h)
            != left_out ==> list.contains(pool[h].transaction)
}

/// The nonce that a sender's `i`th transfer from now on has to carry; nonces end at the highest.
pub open spec fn nonce_in_turn(first: u64, i: int) -> int {
    if first + i <= u64::MAX {
        first + i
    } else {
        u64::MAX as int
    }
}

/// A sender's queue is listed in nonce order, whole, and with nothing else in it.
pub proof fn queues_are_whole(pool: Pool, sender: Address, floor: int)
    requires
        coherent(pool),
    ensures
        ({
            let queue = queue_from(pool, sender, floor);
            &&& forall|i: int, j: int|
                0 <= i < j < queue.len() ==> (#[trigger] queue[i]).transaction.nonce.0 < (
                #[trigger] queue[j]).transaction.nonce.0
            &&& forall|i: int|
                0 <= i < queue.len() ==> {
                    let tx = #[trigger] queue[i];
                    &&& pool.contains_key(tx.hash)
                    &&& pool[tx.hash].transaction == tx
                    &&& tx.transaction.from == sender
                    &&& tx.transaction.nonce.0 >= floor
                }
            &&& forall|h: TransactionHash| #[trigger]
                pool.contains_key(h) && pool[h].transaction.transaction.from == sender
                    && pool[h].transaction.transaction.nonce.0 >= floor ==> queue.contains(
                    pool[h].transaction,
                )
        }),
    decreases u64::MAX + 1 - floor,
{
    let queue = queue_from(pool, sender, floor);
    if queued_from(pool, sender, floor) {
        lemma_first_from_exists(pool, sender, floor);
        let h = first_from(pool, sender, floor);
        assert(is_first_from(pool, sender, floor, h));
        let next = pool[h].nonce() + 1;
        let tail = queue_from(pool, sender, next);
        queues_are_whole(pool, sender, next);
        assert(queue == seq![pool[h].transaction] + tail);
        assert forall|i: int| 0 <= i < queue.len() implies {
            let tx = #[trigger] queue[i];
            &&& pool.contains_key(tx.hash)
            &&& pool[tx.hash].transaction == tx
            &&& tx.transaction.from == sender
            &&& tx.transaction.nonce.0 >= floor
        } by {
            if i > 0 {
                assert(queue[i] == tail[i - 1]);
            }
        }
        assert forall|i: int, j: int| 0 <= i < j < queue.len() implies (
        #[trigger] queue[i]).transaction.nonce.0 < (#[trigger] queue[j]).transaction.nonce.0 by {
            assert(queue[j] == tail[j - 1]);
            if i > 0 {
                assert(queue[i] == tail[i - 1]);
            }
        }
        assert forall|g: TransactionHash| #[trigger]
            pool.contains_key(g) && pool[g].transaction.transaction.from == sender
                && pool[g].transaction.transaction.nonce.0 >= floor implies queue.contains(
            pool[g].transaction,
        ) by {
            if pool[g].nonce() >= next {
                let k = tail.index_of(pool[g].transaction);
                assert(queue[k + 1] == pool[g].transaction);
            } else {
                assert(pool[g].slot() == pool[h].slot());
                assert(queue[0] == pool[g].transaction);
            }
        }
    } else {
        assert forall|g: TransactionHash| #[trigger]
            pool.contains_key(g) && pool[g].transaction.transaction.from == sender
                && pool[g].transaction.transaction.nonce.0 >= floor implies queue.contains(
            pool[g].transaction,
        ) by {
            assert(pool[g].sender() == sender && pool[g].nonce() >= floor);
        }
    }
}

/// Two lists of one sender's pending transfers are the same list.
proof fn lemma_one_queue(
    a: Seq<SignedTransaction>,
    b: Seq<SignedTransaction>,
    pool: Pool,
    sender: Address,
    left_out: Option<TransactionHash>,
)
    requires
        is_sender_queue(a, pool, sender, left_out),
        is_sender_queue(b, pool, sender, left_out),
    ensures
        a == b,
{
    lemma_ranks(a, b, pool, sender, left_out, 0);
    lemma_ranks(b, a, pool, sender, left_out, 0);
    assert(a =~= b) by {
        assert forall|i: int| 0 <= i < a.len() implies a[i] == b[i] by {
            lemma_ranks(a, b, pool, sender, left_out, i);
        }
    }
}

/// The entry at a place of one list stands at the same place of the other.
proof fn lemma_ranks(
    a: Seq<SignedTransaction>,
    b: Seq<SignedTransaction>,
    pool: Pool,
    sender: Address,
    left_out: Option<TransactionHash>,
    n: int,
)
    requires
        is_sender_queue(a, pool, sender, left_out),
        is_sender_queue(b, pool, sender, left_out),
        0 <= n,
    ensures
        a.len() == b.len(),
        n < a.len() ==> a[n] == b[n],
{
    lemma_same_prefix(a, b, pool, sender, left_out, a.len() as int);
    lemma_same_prefix(b, a, pool, sender, left_out, b.len() as int);
}

proof fn lemma_same_prefix(
    a: Seq<SignedTransaction>,
    b: Seq<SignedTransaction>,
    pool: Pool,
    sender: Address,
    left_out: Option<TransactionHash>,
    n: int,
)
    requires
        is_sender_queue(a, pool, sender, left_out),
        is_sender_queue(b, pool, sender, left_out),
        0 <= n <= a.len(),
    ensures
        n <= b.len(),
        forall|i: int| 0 <= i < n ==> #[trigger] a[i] == b[i],
    decreases n,
{
    if n > 0 {
        lemma_same_prefix(a, b, pool, sender, left_out, n - 1);
        let x = a[n - 1];
        assert(pool.contains_key(x.hash));
        assert(b.contains(x));
        let j = b.index_of(x);
        assert(b[j] == x);
        if j < n - 1 {
            assert(a[j] == b[j]);
            assert(a[j].transaction.nonce.0 < a[n - 1].transaction.nonce.0);
        }
        let y = b[n - 1];
        assert(pool.contains_key(y.hash));
        assert(a.contains(y));
        let k = a.index_of(y);
        assert(a[k] == y);
        if k < n - 1 {
            assert(a[k] == b[k]);
            assert(b[k].transaction.nonce.0 < b[n - 1].transaction.nonce.0);
        }
        if k > n - 1 {
            assert(a[n - 1].transaction.nonce.0 < a[k].transaction.nonce.0);
            if j > n - 1 {
                assert(b[n - 1].transaction.nonce.0 < b[j].transaction.nonce.0);
            }
        }
    }
}

proof fn lemma_commitment_split(list: Seq<SignedTransaction>, k: int)
    requires
        0 <= k <= list.len(),
    ensures
        commitment(list) == commitment(list.take(k)) + commitment(list.skip(k)),
        commitment(list) >= 0,
    decreases list.len(),
{
    if list.len() == 0 {
    } else if k == list.len() {
        assert(list.take(k) =~= list);
        assert(list.skip(k) =~= Seq::empty());
        lemma_commitment_split(list.drop_last(), 0);
    } else {
        lemma_commitment_split(list.drop_last(), k);
        assert(list.drop_last().take(k) =~= list.take(k));
        assert(list.skip(k).drop_last() =~= list.drop_last().skip(k));
        assert(list.skip(k).last() == list.last());
    }
}

/// A queue that is afforded in turn is one whose nonces are in turn and whose whole cost is covered;
/// otherwise the error names the first entry that breaks this.
pub proof fn queues_are_afforded_as_a_whole(queue: Seq<SignedTransaction>, nonce: u64, spendable: u64)
    ensures
        affords(queue, nonce, spendable) is Ok <==> {
            &&& forall|i: int|
                0 <= i < queue.len() ==> (#[trigger] queue[i]).transaction.nonce.0
                    == nonce_in_turn(nonce, i)
            &&& commitment(queue) <= spendable
        },
        affords(queue, nonce, spendable) matches Err(error) ==> exists|k: int|
            breaks_at(queue, nonce, spendable, k, error),
    decreases queue.len(),
{
    lemma_commitment_split(queue, 0);
    if queue.len() > 0 {
        let payload = queue[0].transaction;
        let total = payload.amount.0 + payload.fee.0;
        let rest = queue.skip(1);
        lemma_commitment_split(queue, 1);
        lemma_commitment_split(rest, 0);
        assert(queue.take(1).drop_last() =~= Seq::empty());
        assert(queue.take(1).last() == queue[0]);
        assert(commitment(queue.take(1)) == total) by {
            reveal_with_fuel(commitment, 2);
        }
        assert(commitment(queue) == total + commitment(rest));
        if payload.nonce.0 != nonce || total > spendable {
            assert(queue[0].transaction.nonce.0 == payload.nonce.0);
            assert(nonce_in_turn(nonce, 0) == nonce);
            assert(queue.take(0) =~= Seq::empty());
            match affords(queue, nonce, spendable) {
                Ok(_) => {},
                Err(error) => {
                    assert(breaks_at(queue, nonce, spendable, 0, error));
                },
            }
        } else {
            let next = following(nonce as int) as u64;
            let left = (spendable - total) as u64;
            queues_are_afforded_as_a_whole(rest, next, left);
            assert forall|i: int| 0 <= i implies #[trigger] nonce_in_turn(next, i) == nonce_in_turn(
                nonce,
                i + 1,
            ) by {}
            if forall|i: int|
                0 <= i < queue.len() ==> (#[trigger] queue[i]).transaction.nonce.0
                    == nonce_in_turn(nonce, i) {
                assert forall|i: int| 0 <= i < rest.len() implies (
                #[trigger] rest[i]).transaction.nonce.0 == nonce_in_turn(next, i) by {
                    assert(rest[i] == queue[i + 1]);
                }
            }
            if forall|i: int|
                0 <= i < rest.len() ==> (#[trigger] rest[i]).transaction.nonce.0 == nonce_in_turn(
                    next,
                    i,
                ) {
                assert forall|i: int| 0 <= i < queue.len() implies (
                #[trigger] queue[i]).transaction.nonce.0 == nonce_in_turn(nonce, i) by {
                    if i > 0 {
                        assert(rest[i - 1] == queue[i]);
                        assert(nonce_in_turn(next, i - 1) == nonce_in_turn(nonce, i));
                    }
                }
            }
            match affords(rest, next, left) {
                Ok(_) => {},
                Err(error) => {
                    let k = choose|k: int| breaks_at(rest, next, left, k, error);
                    assert(breaks_at(queue, nonce, spendable, k + 1, error)) by {
                        assert(rest[k] == queue[k + 1]);
                        assert(nonce_in_turn(next, k) == nonce_in_turn(nonce, k + 1));
                        assert forall|i: int| 0 <= i < k + 1 implies (
                        #[trigger] queue[i]).transaction.nonce.0 == nonce_in_turn(nonce, i) by {
                            if i > 0 {
                                assert(rest[i - 1] == queue[i]);
                                assert(nonce_in_turn(next, i - 1) == nonce_in_turn(nonce, i));
                            }
                        }
                        lemma_commitment_split(queue.take(k + 1), 1);
                        assert(queue.take(k + 1).take(1) =~= queue.take(1));
                        assert(queue.take(k + 1).skip(1) =~= rest.take(k));
                        lemma_commitment_split(queue.take(k + 2), 1);
                        assert(queue.take(k + 2).take(1) =~= queue.take(1));
                        assert(queue.take(k + 2).skip(1) =~= rest.take(k + 1));
                    }
                },
            }
        }
    }
}

/// The `k`th entry of a queue is the first that cannot be served, and this is why.
pub open spec fn breaks_at(
    queue: Seq<SignedTransaction>,
    nonce: u64,
    spendable: u64,
    k: int,
    error: LedgerError,
) -> bool {
    &&& 0 <= k < queue.len()
    &&& forall|i: int|
        0 <= i < k ==> (#[trigger] queue[i]).transaction.nonce.0 == nonce_in_turn(nonce, i)
    &&& commitment(queue.take(k)) <= spendable
    &&& {
        let payload = queue[k].transaction;
        if payload.nonce.0 != nonce_in_turn(nonce, k) {
            error == LedgerError::InvalidState(StateError::InvalidNonce)
        } else if payload.amount.0 + payload.fee.0 > u64::MAX {
            error == LedgerError::InvalidState(StateError::BalanceOverflow)
        } else {
            &&& error == LedgerError::InvalidState(StateError::InsufficientBalance)
            &&& commitment(queue.take(k + 1)) > spendable
        }
    }
}

/// A transfer fits the chain exactly if its sender has an account, its nonce follows the sender's
/// pending transfers without a gap, and the sender's available balance covers the amounts and fees of
/// all of them together with its own. A transfer that is replaced is left out.
pub proof fn transfers_fit_if_the_sum_is_covered(
    pool: Pool,
    accounts: Map<Address, Account>,
    tx: SignedTransaction,
    left_out: Option<TransactionHash>,
    queue: Seq<SignedTransaction>,
)
    requires
        coherent(pool),
        is_sender_queue(queue, pool, tx.transaction.from, left_out),
    ensures
        ({
            let sender = tx.transaction.from;
            let account = accounts[sender];
            let fit = ledger_fit(pool, accounts, tx, left_out);
            &&& fit is Ok <==> {
                &&& accounts.contains_key(sender)
                &&& forall|i: int|
                    0 <= i < queue.len() ==> (#[trigger] queue[i]).transaction.nonce.0
                        == account.nonce.0 + i
                &&& tx.transaction.nonce.0 == nonce_in_turn(account.nonce.0, queue.len() as int)
                &&& commitment(queue) + tx.transaction.amount.0 + tx.transaction.fee.0
                    <= account.available.0
            }
            &&& !accounts.contains_key(sender) ==> fit == Err::<(), LedgerError>(
                LedgerError::AccountNotFound,
            )
            &&& accounts.contains_key(sender) && fit is Err ==> exists|k: int| #[trigger]
                breaks_at(
                    queue.push(tx),
                    account.nonce.0,
                    account.available.0,
                    k,
                    fit->Err_0,
                )
        }),
{
    let sender = tx.transaction.from;
    let rest = pool_without(pool, left_out);
    assert(rest.dom().subset_of(pool.dom()));
    vstd::set_lib::lemma_set_subset_finite(pool.dom(), rest.dom());
    assert forall|h: TransactionHash| #[trigger] rest.contains_key(h) <==> pool.contains_key(h)
        && Some(h) != left_out by {}
    assert forall|h: TransactionHash| #[trigger] rest.contains_key(h) implies rest[h] == pool[h] by {}
    assert(coherent(rest)) by {
        assert forall|g: TransactionHash, h: TransactionHash| #[trigger]
            rest.contains_key(g) && #[trigger] rest.contains_key(h) && rest[g].slot()
                == rest[h].slot() implies g == h by {
            assert(pool.contains_key(g) && pool.contains_key(h));
        }
    }
    let listed = queue_from(rest, sender, 0);
    queues_are_whole(rest, sender, 0);
    assert(is_sender_queue(listed, pool, sender, left_out)) by {
        assert forall|h: TransactionHash| #[trigger]
            pool.contains_key(h) && pool[h].transaction.transaction.from == sender && Some(h)
                != left_out implies listed.contains(pool[h].transaction) by {
            assert(rest.contains_key(h));
        }
        assert forall|i: int| 0 <= i < listed.len() implies {
            let t = #[trigger] listed[i];
            &&& pool.contains_key(t.hash)
            &&& pool[t.hash].transaction == t
            &&& t.transaction.from == sender
            &&& Some(t.hash) != left_out
        } by {
            assert(rest.contains_key(listed[i].hash));
        }
    }
    lemma_one_queue(queue, listed, pool, sender, left_out);
    if accounts.contains_key(sender) {
        let account = accounts[sender];
        let whole = queue.push(tx);
        queues_are_afforded_as_a_whole(whole, account.nonce.0, account.available.0);
        assert(whole.drop_last() =~= queue);
        assert(commitment(whole) == commitment(queue) + tx.transaction.amount.0
            + tx.transaction.fee.0);
        let first = account.nonce.0;
        if forall|i: int|
            0 <= i < whole.len() ==> (#[trigger] whole[i]).transaction.nonce.0 == nonce_in_turn(
                first,
                i,
            ) {
            assert(whole[queue.len() as int] == tx);
            assert forall|i: int| 0 <= i < queue.len() implies (
            #[trigger] queue[i]).transaction.nonce.0 == first + i by {
                assert(whole[i] == queue[i]);
                if first + i > u64::MAX {
                    assert(whole[i - 1] == queue[i - 1]);
                    assert(queue[i - 1].transaction.nonce.0 < queue[i].transaction.nonce.0);
                }
            }
        }
        if (forall|i: int|
            0 <= i < queue.len() ==> (#[trigger] queue[i]).transaction.nonce.0 == first + i)
            && tx.transaction.nonce.0 == nonce_in_turn(first, queue.len() as int) {
            assert forall|i: int| 0 <= i < whole.len() implies (
            #[trigger] whole[i]).transaction.nonce.0 == nonce_in_turn(first, i) by {
                if i < queue.len() {
                    assert(whole[i] == queue[i]);
                } else {
                    assert(whole[i] == tx);
                }
            }
        }
        match affords(whole, first, account.available.0) {
            Ok(_) => {},
            Err(error) => {
                let k = choose|k: int|
                    breaks_at(whole, first, account.available.0, k, error);
                assert(breaks_at(queue.push(tx), first, account.available.0, k, error));
            },
        }
    }
}

/// A timestamp lies in the window in which transactions are relayed.
pub open spec fn is_timely(tx: SignedTransaction, now: u64) -> bool {
    let latest = now + MAX_RELAY_TRANSACTION_FUTURE_SECS;
    &&& tx.transaction.timestamp <= latest
    &&& now <= tx.transaction.timestamp + MAX_RELAY_TRANSACTION_AGE_SECS
}

/// A transaction pays the floor, and the greater of floor and relay fee for every unit of its size.
/// The largest fee there is always does.
pub open spec fn pays_for_relay(config: MempoolConfig, tx: SignedTransaction) -> bool {
    let fee = tx.transaction.fee.0;
    &&& fee >= MIN_RELAY_FEE_FLOOR
    &&& {
        ||| fee == u64::MAX
        ||| {
            &&& fee * FEE_RATE_UNIT_BYTES >= config.min_relay_fee * tx.virtual_size
            &&& fee * FEE_RATE_UNIT_BYTES >= MIN_RELAY_FEE_FLOOR * tx.virtual_size
        }
    }
}

/// A transaction passes the relay checks exactly if its timestamp lies in the relay window, its
/// signature was found valid, and it pays for its size. The first of these that fails is named.
pub proof fn relay_asks_for_time_signature_and_fee(
    config: MempoolConfig,
    tx: SignedTransaction,
    now: u64,
    signed: Result<(), TransactionError>,
)
    ensures
        ({
            let error = relay_error(config, tx, now, signed);
            &&& error is None <==> is_timely(tx, now) && signed is Ok && pays_for_relay(config, tx)
            &&& error == Some(MempoolError::FeeTooLow) <==> is_timely(tx, now) && signed is Ok
                && !pays_for_relay(config, tx)
            &&& is_timely(tx, now) && signed is Err ==> error == Some(
                MempoolError::InvalidTransaction(signed->Err_0),
            )
            &&& tx.transaction.timestamp > now + MAX_RELAY_TRANSACTION_FUTURE_SECS ==> error == Some(
                MempoolError::InvalidTransaction(TransactionError::FromFuture),
            )
            &&& now > tx.transaction.timestamp + MAX_RELAY_TRANSACTION_AGE_SECS ==> error == Some(
                MempoolError::InvalidTransaction(TransactionError::Expired),
            )
        }),
{
    let fee = tx.transaction.fee.0 as int;
    let size = tx.virtual_size as int;
    let rate = if config.min_relay_fee >= MIN_RELAY_FEE_FLOOR {
        config.min_relay_fee as int
    } else {
        MIN_RELAY_FEE_FLOOR as int
    };
    assert(size * rate >= config.min_relay_fee * size && size * rate >= MIN_RELAY_FEE_FLOOR * size
        && (size * rate == config.min_relay_fee * size || size * rate == MIN_RELAY_FEE_FLOOR * size)
        && size * rate >= 0) by (nonlinear_arith)
        requires
            size >= 0,
            rate >= config.min_relay_fee,
            rate >= MIN_RELAY_FEE_FLOOR,
            rate == config.min_relay_fee || rate == MIN_RELAY_FEE_FLOOR,
    ;
    if size == 0 || rate == 0 {
        assert(size * rate == 0) by (nonlinear_arith)
            requires
                size == 0 || rate == 0,
        ;
    }
}

/// A transaction that would leave its place taken twice, or the pool too full, gets no room; every
/// other one does.
pub open spec fn has_room(
    pool: Pool,
    bytes: int,
    config: MempoolConfig,
    tx: SignedTransaction,
    replaced: Option<TransactionHash>,
) -> bool {
    let freed = match replaced {
        Some(h) => pool[h].transaction.serialized_size as int,
        None => 0,
    };
    let left = if freed <= bytes {
        bytes - freed
    } else {
        0
    };
    &&& !pool.contains_key(tx.hash)
    &&& forall|h: TransactionHash| #[trigger]
        pool.contains_key(h) && pool[h].transaction.transaction.from == tx.transaction.from
            && pool[h].transaction.transaction.nonce == tx.transaction.nonce ==> replaced == Some(h)
    &&& replaced is None ==> pool.len() < config.max_transactions
    &&& config.max_bytes < usize::MAX ==> left + tx.serialized_size <= config.max_bytes
}

/// Room is given exactly where there is some. A second transaction of one hash or place is a
/// duplicate; otherwise the pool is full.
pub proof fn room_is_given_where_there_is_some(
    pool: Pool,
    bytes: int,
    config: MempoolConfig,
    tx: SignedTransaction,
    replaced: Option<TransactionHash>,
)
    requires
        bytes >= 0,
    ensures
        ({
            let error = admission_error(pool, bytes, config, tx, replaced);
            let duplicate = pool.contains_key(tx.hash) || exists|h: TransactionHash| #[trigger]
                pool.contains_key(h) && pool[h].transaction.transaction.from == tx.transaction.from
                    && pool[h].transaction.transaction.nonce == tx.transaction.nonce && replaced
                    != Some(h);
            &&& error is None <==> has_room(pool, bytes, config, tx, replaced)
            &&& duplicate <==> error == Some(MempoolError::DuplicateTransaction)
            &&& error is Some && !duplicate ==> error == Some(MempoolError::MempoolFull)
        }),
{
    if place_taken(pool, tx, replaced) {
        let h = choose|h: TransactionHash| #[trigger]
            pool.contains_key(h) && pool[h].slot() == Pair(tx.transaction.from, tx.transaction.nonce)
                && Some(h) != replaced;
        assert(pool.contains_key(h));
    }
    assert forall|h: TransactionHash| #[trigger] pool.contains_key(h) implies (pool[h].slot()
        == Pair(tx.transaction.from, tx.transaction.nonce)) == (
    pool[h].transaction.transaction.from == tx.transaction.from
        && pool[h].transaction.transaction.nonce == tx.transaction.nonce) by {}
}

/// The pending transaction of the same sender and nonce.
pub open spec fn is_rival(pool: Pool, tx: SignedTransaction, h: TransactionHash) -> bool {
    &&& pool.contains_key(h)
    &&& pool[h].transaction.transaction.from == tx.transaction.from
    &&& pool[h].transaction.transaction.nonce == tx.transaction.nonce
}

/// Only a rival is replaced, and a rival is replaced by whatever is admitted.
pub proof fn only_rivals_are_replaced(pool: Pool, tx: SignedTransaction)
    requires
        coherent(pool),
    ensures
        match place_holder(pool, tx) {
            Some(h) => is_rival(pool, tx, h),
            None => forall|h: TransactionHash| !is_rival(pool, tx, h),
        },
        forall|h: TransactionHash| #[trigger]
            is_rival(pool, tx, h) ==> place_holder(pool, tx) == Some(h),
{
    assert forall|h: TransactionHash| #[trigger] is_rival(pool, tx, h) implies place_holder(pool, tx)
        == Some(h) by {
        assert(pool[h].slot() == Pair(tx.transaction.from, tx.transaction.nonce));
        assert(place_taken(pool, tx, None));
    }
}

/// A transfer is admitted against the chain exactly if it passes the relay checks, pays more than the
/// pending transfer of its sender and nonce, was found valid without regard to time, is covered by its
/// sender's balance together with everything the sender has pending, follows it without a gap, and
/// finds room.
pub proof fn admission_asks_for_everything(
    pool: Pool,
    bytes: int,
    config: MempoolConfig,
    accounts: Map<Address, Account>,
    tx: SignedTransaction,
    now: u64,
    signed: SignatureVerdicts,
    rival: Option<TransactionHash>,
    queue: Seq<SignedTransaction>,
)
    requires
        bytes >= 0,
        coherent(pool),
        match rival {
            Some(h) => is_rival(pool, tx, h),
            None => forall|h: TransactionHash| !is_rival(pool, tx, h),
        },
        is_sender_queue(queue, pool, tx.transaction.from, rival),
    ensures
        ({
            let sender = tx.transaction.from;
            let account = accounts[sender];
            let error = insert_validated_error(pool, bytes, config, accounts, tx, now, signed);
            let passes = is_timely(tx, now) && signed.at_now is Ok && pays_for_relay(config, tx);
            let bids = rival matches Some(h) ==> tx.transaction.fee.0
                > pool[h].transaction.transaction.fee.0;
            let fits = {
                &&& accounts.contains_key(sender)
                &&& forall|i: int|
                    0 <= i < queue.len() ==> (#[trigger] queue[i]).transaction.nonce.0
                        == account.nonce.0 + i
                &&& tx.transaction.nonce.0 == nonce_in_turn(account.nonce.0, queue.len() as int)
                &&& commitment(queue) + tx.transaction.amount.0 + tx.transaction.fee.0
                    <= account.available.0
            };
            &&& error is None <==> passes && bids && signed.timeless is Ok && fits && has_room(
                pool,
                bytes,
                config,
                tx,
                rival,
            )
            &&& passes && !bids ==> error == Some(MempoolError::ReplacementFeeTooLow)
            &&& passes && bids && signed.timeless is Err ==> error == Some(
                MempoolError::InvalidTransaction(signed.timeless->Err_0),
            )
            &&& passes && bids && signed.timeless is Ok && !fits ==> error is Some
                && error->Some_0 is InvalidLedger
            &&& passes && bids && signed.timeless is Ok && fits && !has_room(
                pool,
                bytes,
                config,
                tx,
                rival,
            ) ==> error == Some(MempoolError::DuplicateTransaction) || error == Some(
                MempoolError::MempoolFull,
            )
        }),
{
    only_rivals_are_replaced(pool, tx);
    assert(place_holder(pool, tx) == rival);
    relay_asks_for_time_signature_and_fee(config, tx, now, signed.at_now);
    transfers_fit_if_the_sum_is_covered(pool, accounts, tx, rival, queue);
    room_is_given_where_there_is_some(pool, bytes, config, tx, rival);
}

/// Without the chain, a transfer is admitted exactly if it passes the relay checks and finds room
/// without replacing anything.
pub proof fn admission_without_the_chain(
    pool: Pool,
    bytes: int,
    config: MempoolConfig,
    tx: SignedTransaction,
    now: u64,
    signed: Result<(), TransactionError>,
)
    requires
        bytes >= 0,
    ensures
        insert_error(pool, bytes, config, tx, now, signed) is None <==> {
            &&& is_timely(tx, now)
            &&& signed is Ok
            &&& pays_for_relay(config, tx)
            &&& has_room(pool, bytes, config, tx, None)
        },
        relay_error(config, tx, now, signed) is Some ==> insert_error(
            pool,
            bytes,
            config,
            tx,
            now,
            signed,
        ) == relay_error(config, tx, now, signed),
{
    relay_asks_for_time_signature_and_fee(config, tx, now, signed);
    room_is_given_where_there_is_some(pool, bytes, config, tx, None);
}

/// A transfer is valid against the chain exactly if its signature was found valid, it pays for its
/// size, and it is covered and in turn behind its sender's pending transfers.
pub proof fn validity_asks_for_signature_fee_and_cover(
    pool: Pool,
    config: MempoolConfig,
    accounts: Map<Address, Account>,
    tx: SignedTransaction,
    left_out: Option<TransactionHash>,
    signed: Result<(), TransactionError>,
    queue: Seq<SignedTransaction>,
)
    requires
        coherent(pool),
        is_sender_queue(queue, pool, tx.transaction.from, left_out),
    ensures
        ({
            let sender = tx.transaction.from;
            let account = accounts[sender];
            let error = fit_error(pool, config, accounts, tx, left_out, signed);
            let fits = {
                &&& accounts.contains_key(sender)
                &&& forall|i: int|
                    0 <= i < queue.len() ==> (#[trigger] queue[i]).transaction.nonce.0
                        == account.nonce.0 + i
                &&& tx.transaction.nonce.0 == nonce_in_turn(account.nonce.0, queue.len() as int)
                &&& commitment(queue) + tx.transaction.amount.0 + tx.transaction.fee.0
                    <= account.available.0
            };
            &&& error is None <==> signed is Ok && pays_for_relay(config, tx) && fits
            &&& signed is Err ==> error == Some(
                MempoolError::InvalidTransaction(signed->Err_0),
            )
            &&& signed is Ok && !pays_for_relay(config, tx) ==> error == Some(
                MempoolError::FeeTooLow,
            )
            &&& signed is Ok && pays_for_relay(config, tx) && !fits ==> error is Some
                && error->Some_0 is InvalidLedger
        }),
{
    let stamped = SignedTransaction {
        transaction: crate::transaction::Transaction { timestamp: 0, ..tx.transaction },
        ..tx
    };
    relay_asks_for_time_signature_and_fee(config, stamped, 0, signed);
    transfers_fit_if_the_sum_is_covered(pool, accounts, tx, left_out, queue);
}

/// An offer that is refused changes nothing. One that is accepted adds the transaction, takes out the
/// one that it replaces, and leaves every other as it was; the byte count goes along.
pub proof fn offers_touch_nothing_else(
    after: &Mempool,
    r: Result<TransactionHash, MempoolError>,
    pool: Pool,
    bytes: int,
    tx: SignedTransaction,
    now: u64,
    replaced: Option<TransactionHash>,
    error: Option<MempoolError>,
)
    requires
        offered(after, r, pool, bytes, tx, now, replaced, error),
    ensures
        r is Ok <==> error is None,
        r is Err ==> r->Err_0 == error->Some_0 && after.pool() == pool && after.bytes() == bytes,
        r is Ok ==> {
            let freed = match replaced {
                Some(h) => pool[h].transaction.serialized_size as int,
                None => 0,
            };
            &&& r->Ok_0 == tx.hash
            &&& after.pool().contains_key(tx.hash)
            &&& after.pool()[tx.hash].transaction == tx
            &&& after.pool()[tx.hash].inserted_at == now
            &&& forall|h: TransactionHash|
                h != tx.hash ==> (#[trigger] after.pool().contains_key(h) <==> pool.contains_key(h)
                    && replaced != Some(h))
            &&& forall|h: TransactionHash| #[trigger]
                after.pool().contains_key(h) && h != tx.hash ==> after.pool()[h] == pool[h]
            &&& freed <= bytes && bytes - freed + tx.serialized_size <= usize::MAX ==> after.bytes()
                == bytes - freed + tx.serialized_size
        },
{
}

/// A transaction that pays less than the going rate for its size stays for the short time, any other
/// for the long one; it expires with the second after that.
pub proof fn lifetimes_follow_the_going_rate(
    config: MempoolConfig,
    bytes: int,
    count: int,
    tx: SignedTransaction,
    now: u64,
)
    requires
        now + config.low_fee_ttl_secs < u64::MAX,
        now + config.transaction_ttl_secs < u64::MAX,
        0 <= going_rate(config, bytes, count),
        going_rate(config, bytes, count) * tx.virtual_size <= u64::MAX,
    ensures
        expiry_time(config, bytes, count, tx, now) == now + 1 + (if tx.transaction.fee.0
            * FEE_RATE_UNIT_BYTES < going_rate(config, bytes, count) * tx.virtual_size {
            config.low_fee_ttl_secs
        } else {
            config.transaction_ttl_secs
        }),
{
    let rate = going_rate(config, bytes, count);
    let size = tx.virtual_size as int;
    assert(size * rate == rate * size && size * rate >= 0) by (nonlinear_arith)
        requires
            size >= 0,
            rate >= 0,
    ;
    if size == 0 || rate == 0 {
        assert(rate * size == 0) by (nonlinear_arith)
            requires
                size == 0 || rate == 0,
        ;
    }
}

} // verus!
