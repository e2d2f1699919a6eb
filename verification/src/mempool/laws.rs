//! What holds of a mempool across its operations.
use crate::chain::Account;
use crate::ids::{Address, Height, TransactionHash};
use crate::mempool::error::MempoolError;
use crate::mempool::policy::{
    admission_error, bytes_less, bytes_unexpired, bytes_with, bytes_without, expiry_time,
    insert_error, insert_validated_error, place_holder, place_taken, pool_with, pool_without,
    MempoolConfig, SignatureVerdicts,
};
use crate::mempool::pool::{
    coherent, competing_key, drawn, eligible, first_from, following, is_first_from, leader, leads,
    lemma_first_from_exists, lemma_first_from_unique, lemma_pool_bytes_empty,
    lemma_pool_bytes_insert, lemma_pool_bytes_split, pool_bytes, promoted, queue_heads, queued_from,
    unconfirmed, unexpired, FeeHeadKey, PendingTransaction, Pool,
};
use crate::order::{Pair, Sortable};
use crate::transaction::{SignedTransaction, TransactionError};
use vstd::prelude::*;

verus! {

/// A pending transaction whose turn it is: it is not among those done, and all its sender's pending
/// transactions with lower nonces are.
pub open spec fn available(pool: Pool, done: Seq<SignedTransaction>, h: TransactionHash) -> bool {
    &&& pool.contains_key(h)
    &&& !done.contains(pool[h].transaction)
    &&& forall|g: TransactionHash| #[trigger]
        pool.contains_key(g) && pool[g].sender() == pool[h].sender() && pool[g].nonce()
            < pool[h].nonce() ==> done.contains(pool[g].transaction)
}

/// `tx` is the best eligible transaction whose turn it is.
pub open spec fn best_available(
    pool: Pool,
    done: Seq<SignedTransaction>,
    tx: SignedTransaction,
    min_rate: int,
    height: Option<Height>,
) -> bool {
    &&& available(pool, done, tx.hash)
    &&& pool[tx.hash].transaction == tx
    &&& eligible(tx, min_rate, height)
    &&& forall|h: TransactionHash| #[trigger]
        available(pool, done, h) && eligible(pool[h].transaction, min_rate, height) && h != tx.hash
            ==> competing_key(pool[h].transaction).before(competing_key(tx))
}

/// Nothing eligible has its turn.
pub open spec fn exhausted(
    pool: Pool,
    done: Seq<SignedTransaction>,
    min_rate: int,
    height: Option<Height>,
) -> bool {
    forall|h: TransactionHash| #[trigger]
        available(pool, done, h) ==> !eligible(pool[h].transaction, min_rate, height)
}

/// No pending transaction has the highest nonce there is.
pub open spec fn nonces_have_successors(pool: Pool) -> bool {
    forall|h: TransactionHash| #[trigger] pool.contains_key(h) ==> pool[h].nonce() < u64::MAX
}

spec fn frontier(
    pool: Pool,
    done: Seq<SignedTransaction>,
    heads: Map<Address, TransactionHash>,
    min_rate: int,
    height: Option<Height>,
) -> bool {
    &&& heads.dom().finite()
    &&& forall|s: Address| #[trigger]
        heads.contains_key(s) ==> available(pool, done, heads[s]) && pool[heads[s]].sender() == s
    &&& forall|h: TransactionHash| #[trigger]
        available(pool, done, h) && eligible(pool[h].transaction, min_rate, height)
            ==> heads.contains_key(pool[h].sender()) && heads[pool[h].sender()] == h
    &&& forall|g: TransactionHash, h: TransactionHash| #[trigger]
        pool.contains_key(g) && #[trigger] pool.contains_key(h) && pool[g].sender()
            == pool[h].sender() && pool[g].nonce() < pool[h].nonce() && done.contains(
            pool[h].transaction,
        ) ==> done.contains(pool[g].transaction)
}

/// Among finitely many queue heads one leads.
proof fn lemma_leader_exists(pool: Pool, heads: Map<Address, TransactionHash>)
    requires
        coherent(pool),
        heads.dom().finite(),
        heads.dom().len() > 0,
        forall|s: Address| #[trigger]
            heads.contains_key(s) ==> pool.contains_key(heads[s]) && pool[heads[s]].sender() == s,
    ensures
        exists|s: Address| leads(pool, heads, s),
    decreases heads.dom().len(),
{
    let s = heads.dom().choose();
    assert(heads.contains_key(s));
    let rest = heads.remove(s);
    assert(rest.dom() =~= heads.dom().remove(s));
    if rest.dom().len() == 0 {
        assert forall|t: Address| #[trigger] heads.contains_key(t) implies t == s by {
            if t != s {
                assert(rest.dom().contains(t));
            }
        }
        assert(leads(pool, heads, s));
    } else {
        assert forall|t: Address| #[trigger] rest.contains_key(t) implies pool.contains_key(rest[t])
            && pool[rest[t]].sender() == t by {
            assert(heads.contains_key(t));
        }
        lemma_leader_exists(pool, rest);
        let t = choose|t: Address| leads(pool, rest, t);
        assert(rest.contains_key(t));
        let ks = competing_key(pool[heads[s]].transaction);
        let kt = competing_key(pool[heads[t]].transaction);
        FeeHeadKey::order_connected(ks, kt);
        assert(heads.contains_key(s) && heads.contains_key(t));
        assert(ks.1.1.1.0 == heads[s] && kt.1.1.1.0 == heads[t]);
        if kt.before(ks) {
            assert forall|o: Address| #[trigger] heads.contains_key(o) && o != s implies competing_key(
                pool[heads[o]].transaction,
            ).before(ks) by {
                if o != t {
                    assert(rest.contains_key(o));
                    FeeHeadKey::order_transitive(
                        competing_key(pool[heads[o]].transaction),
                        kt,
                        ks,
                    );
                }
            }
            assert(leads(pool, heads, s));
        } else {
            assert forall|o: Address| #[trigger] heads.contains_key(o) && o != t implies competing_key(
                pool[heads[o]].transaction,
            ).before(kt) by {
                if o != s {
                    assert(rest.contains_key(o));
                }
            }
            assert(leads(pool, heads, t));
        }
    }
}

/// Taking the leader's transaction keeps the frontier right.
proof fn lemma_frontier_step(
    pool: Pool,
    done: Seq<SignedTransaction>,
    heads: Map<Address, TransactionHash>,
    sender: Address,
    min_rate: int,
    height: Option<Height>,
)
    requires
        coherent(pool),
        nonces_have_successors(pool),
        frontier(pool, done, heads, min_rate, height),
        heads.contains_key(sender),
    ensures
        frontier(
            pool,
            done.push(pool[heads[sender]].transaction),
            promoted(pool, heads, sender),
            min_rate,
            height,
        ),
{
    let taken = heads[sender];
    let tx = pool[taken].transaction;
    let done2 = done.push(tx);
    let heads2 = promoted(pool, heads, sender);
    let floor = following(pool[taken].nonce());
    assert(available(pool, done, taken));
    assert(floor == pool[taken].nonce() + 1);
    assert forall|t: SignedTransaction| done2.contains(t) <==> done.contains(t) || t == tx by {
        if done.contains(t) {
            let i = done.index_of(t);
            assert(done2[i] == t);
        }
        if t == tx {
            assert(done2[done.len() as int] == t);
        }
        if done2.contains(t) {
            let i = done2.index_of(t);
            if i < done.len() {
                assert(done[i] == t);
            }
        }
    }
    assert forall|g: TransactionHash, h: TransactionHash| #[trigger]
        pool.contains_key(g) && #[trigger] pool.contains_key(h) && pool[g].transaction
            == pool[h].transaction implies g == h by {}
    if queued_from(pool, sender, floor) {
        lemma_first_from_exists(pool, sender, floor);
    }
    assert forall|s: Address| #[trigger] heads2.contains_key(s) implies available(
        pool,
        done2,
        heads2[s],
    ) && pool[heads2[s]].sender() == s by {
        if s == sender {
            let next = first_from(pool, sender, floor);
            assert(is_first_from(pool, sender, floor, next));
            assert(!done.contains(pool[next].transaction)) by {
                if done.contains(pool[next].transaction) {
                    assert(pool.contains_key(taken) && pool.contains_key(next));
                    assert(done.contains(pool[taken].transaction));
                }
            }
            assert forall|g: TransactionHash| #[trigger]
                pool.contains_key(g) && pool[g].sender() == sender && pool[g].nonce()
                    < pool[next].nonce() implies done2.contains(pool[g].transaction) by {
                if pool[g].nonce() >= floor {
                } else if pool[g].nonce() == pool[taken].nonce() {
                    assert(pool[g].slot() == pool[taken].slot());
                }
            }
        } else {
            assert(heads.contains_key(s));
            assert(available(pool, done, heads[s]));
        }
    }
    assert forall|h: TransactionHash| #[trigger] available(pool, done2, h) && eligible(
        pool[h].transaction,
        min_rate,
        height,
    ) implies heads2.contains_key(pool[h].sender()) && heads2[pool[h].sender()] == h by {
        if pool[h].sender() == sender {
            assert(pool.contains_key(h) && pool.contains_key(taken));
            assert(pool[h].nonce() > pool[taken].nonce()) by {
                if pool[h].nonce() < pool[taken].nonce() {
                    assert(done.contains(pool[h].transaction));
                } else if pool[h].nonce() == pool[taken].nonce() {
                    assert(pool[h].slot() == pool[taken].slot());
                }
            }
            assert(is_first_from(pool, sender, floor, h)) by {
                assert forall|g: TransactionHash| #[trigger]
                    pool.contains_key(g) && pool[g].sender() == sender && pool[g].nonce()
                        >= floor implies pool[h].nonce() <= pool[g].nonce() by {
                    if pool[g].nonce() < pool[h].nonce() {
                        assert(done2.contains(pool[g].transaction));
                        if done.contains(pool[g].transaction) {
                            assert(done.contains(pool[taken].transaction));
                        }
                    }
                }
            }
            lemma_first_from_unique(pool, sender, floor, h);
        } else {
            assert(available(pool, done, h)) by {
                assert forall|g: TransactionHash| #[trigger]
                    pool.contains_key(g) && pool[g].sender() == pool[h].sender() && pool[g].nonce()
                        < pool[h].nonce() implies done.contains(pool[g].transaction) by {
                    assert(done2.contains(pool[g].transaction));
                }
            }
        }
    }
    assert forall|g: TransactionHash, h: TransactionHash| #[trigger]
        pool.contains_key(g) && #[trigger] pool.contains_key(h) && pool[g].sender()
            == pool[h].sender() && pool[g].nonce() < pool[h].nonce() && done2.contains(
            pool[h].transaction,
        ) implies done2.contains(pool[g].transaction) by {
        if h == taken {
            assert(done.contains(pool[g].transaction));
        }
    }
}

proof fn lemma_drawn_is_greedy(
    pool: Pool,
    done: Seq<SignedTransaction>,
    heads: Map<Address, TransactionHash>,
    limit: nat,
    min_rate: int,
    height: Option<Height>,
)
    requires
        coherent(pool),
        nonces_have_successors(pool),
        frontier(pool, done, heads, min_rate, height),
    ensures
        ({
            let list = drawn(pool, heads, limit, min_rate, height);
            &&& list.len() <= limit
            &&& forall|i: int|
                0 <= i < list.len() ==> best_available(
                    pool,
                    done + list.take(i),
                    #[trigger] list[i],
                    min_rate,
                    height,
                )
            &&& list.len() < limit ==> exhausted(pool, done + list, min_rate, height)
        }),
    decreases limit, heads.dom().len(),
{
    let list = drawn(pool, heads, limit, min_rate, height);
    if limit > 0 && exists|s: Address| leads(pool, heads, s) {
        let sender = leader(pool, heads);
        assert(leads(pool, heads, sender));
        assert(heads.contains_key(sender));
        assert(available(pool, done, heads[sender]));
        let tx = pool[heads[sender]].transaction;
        if eligible(tx, min_rate, height) {
            let onward = promoted(pool, heads, sender);
            let tail = drawn(pool, onward, (limit - 1) as nat, min_rate, height);
            assert(list == seq![tx] + tail);
            lemma_frontier_step(pool, done, heads, sender, min_rate, height);
            lemma_drawn_is_greedy(
                pool,
                done.push(tx),
                onward,
                (limit - 1) as nat,
                min_rate,
                height,
            );
            assert forall|i: int| 0 <= i < list.len() implies best_available(
                pool,
                done + list.take(i),
                #[trigger] list[i],
                min_rate,
                height,
            ) by {
                if i == 0 {
                    assert(done + list.take(0) =~= done);
                    assert(tx.hash == heads[sender]);
                    assert forall|h: TransactionHash| #[trigger]
                        available(pool, done, h) && eligible(pool[h].transaction, min_rate, height)
                            && h != tx.hash implies competing_key(pool[h].transaction).before(
                        competing_key(tx),
                    ) by {
                        assert(heads.contains_key(pool[h].sender()));
                        assert(pool[h].sender() != sender);
                    }
                } else {
                    assert(list[i] == tail[i - 1]);
                    assert(done + list.take(i) =~= done.push(tx) + tail.take(i - 1));
                }
            }
            assert(done + list =~= done.push(tx) + tail);
        } else {
            let rest = heads.remove(sender);
            assert(rest.dom() =~= heads.dom().remove(sender));
            assert(frontier(pool, done, rest, min_rate, height)) by {
                assert forall|s: Address| #[trigger] rest.contains_key(s) implies available(
                    pool,
                    done,
                    rest[s],
                ) && pool[rest[s]].sender() == s by {
                    assert(heads.contains_key(s));
                }
            }
            lemma_drawn_is_greedy(pool, done, rest, limit, min_rate, height);
        }
    } else if limit > 0 {
        if heads.dom().len() > 0 {
            assert forall|s: Address| #[trigger] heads.contains_key(s) implies pool.contains_key(
                heads[s],
            ) && pool[heads[s]].sender() == s by {
                assert(available(pool, done, heads[s]));
            }
            lemma_leader_exists(pool, heads);
        }
        assert(heads.dom() =~= Set::empty());
        assert(done + list =~= done);
        assert forall|h: TransactionHash| #[trigger] available(pool, done, h) implies !eligible(
            pool[h].transaction,
            min_rate,
            height,
        ) by {
            if eligible(pool[h].transaction, min_rate, height) {
                assert(heads.dom().contains(pool[h].sender()));
            }
        }
    }
}

/// A block is filled greedily: each selected transaction is the best eligible one whose turn it is,
/// and selection stops only at the limit or when nothing eligible has its turn, as long as no pending
/// transaction has the highest nonce there is.
pub proof fn selection_is_greedy(pool: Pool, limit: nat, min_rate: int, height: Option<Height>)
    requires
        coherent(pool),
        nonces_have_successors(pool),
    ensures
        ({
            let list = drawn(pool, queue_heads(pool), limit, min_rate, height);
            &&& list.len() <= limit
            &&& forall|i: int|
                0 <= i < list.len() ==> best_available(
                    pool,
                    list.take(i),
                    #[trigger] list[i],
                    min_rate,
                    height,
                )
            &&& list.len() < limit ==> exhausted(pool, list, min_rate, height)
        }),
{
    let none = Seq::<SignedTransaction>::empty();
    let heads = queue_heads(pool);
    let list = drawn(pool, heads, limit, min_rate, height);
    assert(frontier(pool, none, heads, min_rate, height)) by {
        pool.dom().lemma_map_finite(|h: TransactionHash| pool[h].sender());
        let senders = pool.dom().map(|h: TransactionHash| pool[h].sender());
        assert(heads.dom().subset_of(senders)) by {
            assert forall|s: Address| heads.dom().contains(s) implies senders.contains(s) by {
                let h = choose|h: TransactionHash| #[trigger]
                    pool.contains_key(h) && pool[h].sender() == s && pool[h].nonce() >= 0;
                assert(pool.dom().contains(h));
            }
        }
        vstd::set_lib::lemma_set_subset_finite(senders, heads.dom());
        assert forall|s: Address| #[trigger] heads.contains_key(s) implies available(
            pool,
            none,
            heads[s],
        ) && pool[heads[s]].sender() == s by {
            lemma_first_from_exists(pool, s, 0);
        }
        assert forall|h: TransactionHash| #[trigger] available(pool, none, h) implies heads.contains_key(
            pool[h].sender(),
        ) && heads[pool[h].sender()] == h by {
            let s = pool[h].sender();
            assert(is_first_from(pool, s, 0, h)) by {
                assert forall|g: TransactionHash| #[trigger]
                    pool.contains_key(g) && pool[g].sender() == s && pool[g].nonce()
                        >= 0 implies pool[h].nonce() <= pool[g].nonce() by {
                    if pool[g].nonce() < pool[h].nonce() {
                        assert(none.contains(pool[g].transaction));
                    }
                }
            }
            lemma_first_from_unique(pool, s, 0, h);
        }
    }
    lemma_drawn_is_greedy(pool, none, heads, limit, min_rate, height);
    assert forall|i: int| 0 <= i < list.len() implies best_available(
        pool,
        list.take(i),
        #[trigger] list[i],
        min_rate,
        height,
    ) by {
        assert(none + list.take(i) =~= list.take(i));
    }
    assert(none + list =~= list);
}

/// A block never holds a transaction twice, and never one before a pending transaction of the same
/// sender with a lower nonce, as long as no pending transaction has the highest nonce there is: such a
/// one has no successor, stays at the head of its queue, and is drawn again and again.
pub proof fn selection_keeps_nonce_order(
    pool: Pool,
    limit: nat,
    min_rate: int,
    height: Option<Height>,
)
    requires
        coherent(pool),
        nonces_have_successors(pool),
    ensures
        ({
            let list = drawn(pool, queue_heads(pool), limit, min_rate, height);
            &&& list.no_duplicates()
            &&& forall|i: int, h: TransactionHash|
                #![trigger list[i], pool.contains_key(h)]
                0 <= i < list.len() && pool.contains_key(h) && pool[h].sender()
                    == list[i].transaction.from && pool[h].nonce() < list[i].transaction.nonce.0
                    ==> list.take(i).contains(pool[h].transaction)
        }),
{
    selection_is_greedy(pool, limit, min_rate, height);
    let list = drawn(pool, queue_heads(pool), limit, min_rate, height);
    assert forall|i: int, j: int| 0 <= i < j < list.len() implies list[i] != list[j] by {
        assert(best_available(pool, list.take(j), list[j], min_rate, height));
        assert(list.take(j)[i] == list[i]);
        assert(list.take(j).contains(list[i]));
    }
    assert forall|i: int, h: TransactionHash|
        #![trigger list[i], pool.contains_key(h)]
        0 <= i < list.len() && pool.contains_key(h) && pool[h].sender() == list[i].transaction.from
            && pool[h].nonce() < list[i].transaction.nonce.0 implies list.take(i).contains(
        pool[h].transaction,
    ) by {
        assert(best_available(pool, list.take(i), list[i], min_rate, height));
    }
}

/// Pruning twice at one time, or again at an earlier time, changes nothing more.
pub proof fn pruning_is_idempotent(pool: Pool, earlier: u64, later: u64)
    requires
        earlier <= later,
    ensures
        unexpired(unexpired(pool, later), earlier) == unexpired(pool, later),
        unexpired(unexpired(pool, earlier), later) == unexpired(pool, later),
{
    assert(unexpired(unexpired(pool, later), earlier) =~= unexpired(pool, later));
    assert(unexpired(unexpired(pool, earlier), later) =~= unexpired(pool, later));
}

/// Removing a transaction that was just added, in no one's place, gives the old pool back.
pub proof fn removal_undoes_insertion(
    pool: Pool,
    bytes: int,
    config: MempoolConfig,
    tx: SignedTransaction,
    now: u64,
)
    requires
        !pool.contains_key(tx.hash),
    ensures
        pool_with(pool, bytes, config, tx, now, None).remove(tx.hash) == pool,
{
    assert(pool_with(pool, bytes, config, tx, now, None).remove(tx.hash) =~= pool);
}

/// A transaction gives way only to one of the same sender and nonce that pays a higher fee; every
/// other pending transaction stays as it was.
pub proof fn replacement_raises_the_fee(
    pool: Pool,
    bytes: int,
    config: MempoolConfig,
    accounts: Map<Address, Account>,
    tx: SignedTransaction,
    now: u64,
    signed: SignatureVerdicts,
)
    requires
        coherent(pool),
        insert_validated_error(pool, bytes, config, accounts, tx, now, signed) is None,
    ensures
        ({
            let after = pool_with(pool, bytes, config, tx, now, place_holder(pool, tx));
            &&& coherent(after)
            &&& after.contains_key(tx.hash) && after[tx.hash].transaction == tx
            &&& forall|h: TransactionHash| #[trigger]
                pool.contains_key(h) && !after.contains_key(h) ==> {
                    &&& pool[h].slot() == after[tx.hash].slot()
                    &&& pool[h].transaction.transaction.fee.0 < tx.transaction.fee.0
                }
            &&& forall|h: TransactionHash| #[trigger]
                pool.contains_key(h) && after.contains_key(h) ==> after[h] == pool[h]
        }),
{
    let holder = place_holder(pool, tx);
    let rest = pool_without(pool, holder);
    let after = pool_with(pool, bytes, config, tx, now, holder);
    assert(after.dom() =~= rest.dom().insert(tx.hash));
    assert(rest.dom().subset_of(pool.dom()));
    vstd::set_lib::lemma_set_subset_finite(pool.dom(), rest.dom());
    if place_taken(pool, tx, None) {
        let h = choose|h: TransactionHash| #[trigger]
            pool.contains_key(h) && pool[h].slot() == Pair(tx.transaction.from, tx.transaction.nonce);
        assert(holder == Some(h));
    }
    assert(!pool.contains_key(tx.hash));
    assert forall|g: TransactionHash, h: TransactionHash| #[trigger]
        after.contains_key(g) && #[trigger] after.contains_key(h) && after[g].slot()
            == after[h].slot() implies g == h by {
        if g != tx.hash {
            assert(pool.contains_key(g));
        }
        if h != tx.hash {
            assert(pool.contains_key(h));
        }
        if g != h && (g == tx.hash || h == tx.hash) {
            let other = if g == tx.hash { h } else { g };
            assert(pool.contains_key(other));
            assert(pool[other].slot() == Pair(tx.transaction.from, tx.transaction.nonce));
            assert(place_taken(pool, tx, None));
        }
    }
}

/// A transaction lives at least one second past the shorter of the two lifetimes, and no longer than
/// one second past the longer.
pub proof fn lifetime_is_bounded(
    config: MempoolConfig,
    bytes: int,
    count: int,
    tx: SignedTransaction,
    now: u64,
)
    requires
        now + config.low_fee_ttl_secs < u64::MAX,
        now + config.transaction_ttl_secs < u64::MAX,
        config.low_fee_ttl_secs <= config.transaction_ttl_secs,
    ensures
        now + config.low_fee_ttl_secs < expiry_time(config, bytes, count, tx, now) <= now
            + config.transaction_ttl_secs + 1,
{
}

/// A pool keeps within its limits: each transaction is filed under its own hash, no two share sender
/// and nonce, there are not too many of them, and their bytes are counted. The count is exact unless
/// the byte limit is the largest `usize`, where a sum that does not fit is capped.
pub open spec fn within_limits(pool: Pool, bytes: int, config: MempoolConfig) -> bool {
    &&& coherent(pool)
    &&& pool.len() <= config.max_transactions
    &&& 0 <= bytes <= config.max_bytes
    &&& bytes <= pool_bytes(pool)
    &&& config.max_bytes < usize::MAX ==> bytes == pool_bytes(pool)
}

/// A transaction may be replaced by another only if it is in its place.
pub open spec fn fits_replaced(
    pool: Pool,
    tx: SignedTransaction,
    replaced: Option<TransactionHash>,
) -> bool {
    replaced matches Some(h) ==> pool.contains_key(h) && pool[h].slot() == Pair(
        tx.transaction.from,
        tx.transaction.nonce,
    )
}

/// A pool from which transactions were taken out.
spec fn taken_from(pool: Pool, sub: Pool) -> bool {
    forall|h: TransactionHash| #[trigger]
        sub.contains_key(h) ==> pool.contains_key(h) && sub[h] == pool[h]
}

proof fn lemma_subpool_bytes(pool: Pool, sub: Pool)
    requires
        pool.dom().finite(),
        taken_from(pool, sub),
    ensures
        sub.dom().finite(),
        pool_bytes(sub) <= pool_bytes(pool),
        sub.len() <= pool.len(),
    decreases pool.dom().len(),
{
    assert(sub.dom().subset_of(pool.dom())) by {
        assert forall|h: TransactionHash| sub.dom().contains(h) implies pool.dom().contains(h) by {
            assert(sub.contains_key(h));
        }
    }
    vstd::set_lib::lemma_set_subset_finite(pool.dom(), sub.dom());
    vstd::set_lib::lemma_len_subset(sub.dom(), pool.dom());
    if pool.dom().len() == 0 {
        assert(sub.dom() =~= Set::empty());
    } else {
        let h = pool.dom().choose();
        assert(pool.contains_key(h));
        lemma_pool_bytes_split(pool, h);
        assert(pool.remove(h).dom() =~= pool.dom().remove(h));
        if sub.contains_key(h) {
            lemma_pool_bytes_split(sub, h);
        } else {
            assert(sub.remove(h) =~= sub);
        }
        lemma_subpool_bytes(pool.remove(h), sub.remove(h));
    }
}

/// Taking transactions out of a pool keeps it within its limits.
proof fn lemma_shrunk(pool: Pool, bytes: int, config: MempoolConfig, sub: Pool)
    requires
        within_limits(pool, bytes, config),
        taken_from(pool, sub),
    ensures
        within_limits(sub, bytes_less(bytes, pool_bytes(pool) - pool_bytes(sub)), config),
{
    lemma_subpool_bytes(pool, sub);
    assert forall|g: TransactionHash, h: TransactionHash| #[trigger]
        sub.contains_key(g) && #[trigger] sub.contains_key(h) && sub[g].slot()
            == sub[h].slot() implies g == h by {
        assert(pool.contains_key(g) && pool.contains_key(h));
    }
}

/// Admission keeps a pool within its limits: a transaction that is admitted leaves it within them,
/// and one that would pass the limit of transactions or of bytes is refused because the pool is full.
pub proof fn admission_keeps_the_limits(
    pool: Pool,
    bytes: int,
    config: MempoolConfig,
    tx: SignedTransaction,
    now: u64,
    replaced: Option<TransactionHash>,
)
    requires
        within_limits(pool, bytes, config),
        fits_replaced(pool, tx, replaced),
    ensures
        admission_error(pool, bytes, config, tx, replaced) is None ==> within_limits(
            pool_with(pool, bytes, config, tx, now, replaced),
            bytes_with(pool, bytes, tx, replaced),
            config,
        ),
        ({
            &&& !pool.contains_key(tx.hash)
            &&& !place_taken(pool, tx, replaced)
            &&& {
                ||| pool_without(pool, replaced).len() + 1 > config.max_transactions
                ||| config.max_bytes < usize::MAX && pool_bytes(pool_without(pool, replaced))
                    + tx.serialized_size > config.max_bytes
            }
        }) ==> admission_error(pool, bytes, config, tx, replaced) == Some(
            MempoolError::MempoolFull,
        ),
{
    let rest = pool_without(pool, replaced);
    let left = bytes_without(pool, bytes, replaced);
    match replaced {
        Some(h) => {
            lemma_pool_bytes_split(pool, h);
            assert(rest.dom() =~= pool.dom().remove(h));
        },
        None => {},
    }
    lemma_shrunk(pool, bytes, config, rest);
    assert(within_limits(rest, left, config));
    if admission_error(pool, bytes, config, tx, replaced) is None {
        let after = pool_with(pool, bytes, config, tx, now, replaced);
        let entry = after[tx.hash];
        assert(after == rest.insert(tx.hash, entry));
        assert(!rest.contains_key(tx.hash));
        lemma_pool_bytes_insert(rest, tx.hash, entry);
        assert(after.dom() =~= rest.dom().insert(tx.hash));
        assert forall|g: TransactionHash, h: TransactionHash| #[trigger]
            after.contains_key(g) && #[trigger] after.contains_key(h) && after[g].slot()
                == after[h].slot() implies g == h by {
            if g != tx.hash {
                assert(rest.contains_key(g) && pool.contains_key(g));
            }
            if h != tx.hash {
                assert(rest.contains_key(h) && pool.contains_key(h));
            }
        }
    }
}

/// What can be done to a mempool.
pub ghost enum PoolStep {
    /// Offer a transaction without looking at the chain.
    Offer { tx: SignedTransaction, now: u64, signed: Result<(), TransactionError> },
    /// Offer a transaction that has to fit the chain.
    OfferOnChain {
        accounts: Map<Address, Account>,
        tx: SignedTransaction,
        now: u64,
        signed: SignatureVerdicts,
    },
    /// Take a transaction out.
    Remove(TransactionHash),
    /// Take the expired transactions out.
    Prune(u64),
    /// Take the transactions of a block out.
    Confirm(Seq<SignedTransaction>),
    /// Take everything out.
    Clear,
}

/// The pending transactions of a mempool and its byte count.
pub ghost struct PoolState {
    pub pool: Pool,
    pub bytes: int,
}

/// A pool after a transaction was offered: unchanged on an error, with the transaction in it
/// otherwise.
pub open spec fn after_offer(
    state: PoolState,
    config: MempoolConfig,
    tx: SignedTransaction,
    now: u64,
    replaced: Option<TransactionHash>,
    error: Option<MempoolError>,
) -> PoolState {
    match error {
        Some(_) => state,
        None => PoolState {
            pool: pool_with(state.pool, state.bytes, config, tx, now, replaced),
            bytes: bytes_with(state.pool, state.bytes, tx, replaced),
        },
    }
}

/// A pool after the expired transactions left.
pub open spec fn after_pruning(state: PoolState, now: u64) -> PoolState {
    PoolState {
        pool: unexpired(state.pool, now),
        bytes: bytes_unexpired(state.pool, state.bytes, now),
    }
}

/// A mempool after a step.
pub open spec fn after_step(state: PoolState, config: MempoolConfig, step: PoolStep) -> PoolState {
    match step {
        PoolStep::Offer { tx, now, signed } => {
            let pruned = after_pruning(state, now);
            after_offer(
                pruned,
                config,
                tx,
                now,
                None,
                insert_error(pruned.pool, pruned.bytes, config, tx, now, signed),
            )
        },
        PoolStep::OfferOnChain { accounts, tx, now, signed } => {
            let pruned = after_pruning(state, now);
            after_offer(
                pruned,
                config,
                tx,
                now,
                place_holder(pruned.pool, tx),
                insert_validated_error(
                    pruned.pool,
                    pruned.bytes,
                    config,
                    accounts,
                    tx,
                    now,
                    signed,
                ),
            )
        },
        PoolStep::Remove(h) => if state.pool.contains_key(h) {
            PoolState {
                pool: state.pool.remove(h),
                bytes: bytes_less(
                    state.bytes,
                    state.pool[h].transaction.serialized_size as int,
                ),
            }
        } else {
            state
        },
        PoolStep::Prune(now) => after_pruning(state, now),
        PoolStep::Confirm(confirmed) => {
            let pool = unconfirmed(state.pool, confirmed);
            PoolState {
                pool,
                bytes: bytes_less(state.bytes, pool_bytes(state.pool) - pool_bytes(pool)),
            }
        },
        PoolStep::Clear => PoolState { pool: Map::empty(), bytes: 0 },
    }
}

/// A mempool that started empty, after some steps.
pub open spec fn reached(config: MempoolConfig, steps: Seq<PoolStep>) -> PoolState
    decreases steps.len(),
{
    if steps.len() == 0 {
        PoolState { pool: Map::empty(), bytes: 0 }
    } else {
        after_step(reached(config, steps.drop_last()), config, steps.last())
    }
}

/// One step keeps a mempool within its limits.
pub proof fn each_step_keeps_the_limits(state: PoolState, config: MempoolConfig, step: PoolStep)
    requires
        within_limits(state.pool, state.bytes, config),
    ensures
        within_limits(
            after_step(state, config, step).pool,
            after_step(state, config, step).bytes,
            config,
        ),
{
    match step {
        PoolStep::Offer { tx, now, signed } => {
            let pruned = after_pruning(state, now);
            lemma_shrunk(state.pool, state.bytes, config, pruned.pool);
            admission_keeps_the_limits(pruned.pool, pruned.bytes, config, tx, now, None);
        },
        PoolStep::OfferOnChain { accounts, tx, now, signed } => {
            let pruned = after_pruning(state, now);
            lemma_shrunk(state.pool, state.bytes, config, pruned.pool);
            let holder = place_holder(pruned.pool, tx);
            assert(fits_replaced(pruned.pool, tx, holder));
            admission_keeps_the_limits(pruned.pool, pruned.bytes, config, tx, now, holder);
        },
        PoolStep::Remove(h) => {
            if state.pool.contains_key(h) {
                lemma_pool_bytes_split(state.pool, h);
                lemma_shrunk(state.pool, state.bytes, config, state.pool.remove(h));
            }
        },
        PoolStep::Prune(now) => {
            lemma_shrunk(state.pool, state.bytes, config, unexpired(state.pool, now));
        },
        PoolStep::Confirm(confirmed) => {
            lemma_shrunk(state.pool, state.bytes, config, unconfirmed(state.pool, confirmed));
        },
        PoolStep::Clear => {
            lemma_pool_bytes_empty();
            assert(Map::<TransactionHash, PendingTransaction>::empty().dom() =~= Set::empty());
        },
    }
}

/// Whatever is done to a mempool that started empty, it keeps within its limits: it counts the bytes
/// of its transactions, passes neither limit, and holds no two transactions of one sender and nonce.
pub proof fn limits_hold_in_every_state(config: MempoolConfig, steps: Seq<PoolStep>)
    ensures
        within_limits(reached(config, steps).pool, reached(config, steps).bytes, config),
    decreases steps.len(),
{
    if steps.len() == 0 {
        lemma_pool_bytes_empty();
        assert(Map::<TransactionHash, PendingTransaction>::empty().dom() =~= Set::empty());
    } else {
        limits_hold_in_every_state(config, steps.drop_last());
        each_step_keeps_the_limits(reached(config, steps.drop_last()), config, steps.last());
    }
}

/// Taking transactions out of a pool whose bytes are counted exactly leaves an exact count.
proof fn lemma_shrunk_count(pool: Pool, sub: Pool)
    requires
        pool.dom().finite(),
        taken_from(pool, sub),
    ensures
        bytes_less(pool_bytes(pool) as int, pool_bytes(pool) - pool_bytes(sub)) == pool_bytes(sub),
{
    lemma_subpool_bytes(pool, sub);
}

/// Offering a transaction to a pool whose bytes are counted exactly leaves an exact count, if the sum
/// of the sizes fits.
proof fn lemma_offered_count(
    state: PoolState,
    config: MempoolConfig,
    tx: SignedTransaction,
    now: u64,
    replaced: Option<TransactionHash>,
    error: Option<MempoolError>,
)
    requires
        coherent(state.pool),
        state.bytes == pool_bytes(state.pool),
        fits_replaced(state.pool, tx, replaced),
        error is None ==> !state.pool.contains_key(tx.hash),
        pool_bytes(after_offer(state, config, tx, now, replaced, error).pool) <= usize::MAX,
    ensures
        after_offer(state, config, tx, now, replaced, error).bytes == pool_bytes(
            after_offer(state, config, tx, now, replaced, error).pool,
        ),
{
    if error is None {
        let rest = pool_without(state.pool, replaced);
        match replaced {
            Some(h) => {
                lemma_pool_bytes_split(state.pool, h);
                assert(rest.dom() =~= state.pool.dom().remove(h));
            },
            None => {},
        }
        let after = pool_with(state.pool, state.bytes, config, tx, now, replaced);
        lemma_pool_bytes_insert(rest, tx.hash, after[tx.hash]);
        assert(after == rest.insert(tx.hash, after[tx.hash]));
    }
}

/// A step on a mempool that counts its bytes exactly leaves an exact count, whatever the byte limit,
/// if the sum of the sizes fits a `usize`.
pub proof fn each_step_counts_exactly(state: PoolState, config: MempoolConfig, step: PoolStep)
    requires
        coherent(state.pool),
        state.bytes == pool_bytes(state.pool),
        pool_bytes(after_step(state, config, step).pool) <= usize::MAX,
    ensures
        after_step(state, config, step).bytes == pool_bytes(after_step(state, config, step).pool),
{
    match step {
        PoolStep::Offer { tx, now, signed } => {
            let pruned = after_pruning(state, now);
            lemma_subpool_bytes(state.pool, pruned.pool);
            lemma_shrunk_count(state.pool, pruned.pool);
            lemma_offered_count(
                pruned,
                config,
                tx,
                now,
                None,
                insert_error(pruned.pool, pruned.bytes, config, tx, now, signed),
            );
        },
        PoolStep::OfferOnChain { accounts, tx, now, signed } => {
            let pruned = after_pruning(state, now);
            lemma_subpool_bytes(state.pool, pruned.pool);
            lemma_shrunk_count(state.pool, pruned.pool);
            let holder = place_holder(pruned.pool, tx);
            assert(fits_replaced(pruned.pool, tx, holder));
            lemma_offered_count(
                pruned,
                config,
                tx,
                now,
                holder,
                insert_validated_error(
                    pruned.pool,
                    pruned.bytes,
                    config,
                    accounts,
                    tx,
                    now,
                    signed,
                ),
            );
        },
        PoolStep::Remove(h) => {
            if state.pool.contains_key(h) {
                lemma_pool_bytes_split(state.pool, h);
            }
        },
        PoolStep::Prune(now) => {
            lemma_shrunk_count(state.pool, unexpired(state.pool, now));
        },
        PoolStep::Confirm(confirmed) => {
            lemma_shrunk_count(state.pool, unconfirmed(state.pool, confirmed));
        },
        PoolStep::Clear => {
            lemma_pool_bytes_empty();
        },
    }
}

/// Whatever is done to a mempool that started empty, and whatever its byte limit, it counts the bytes
/// of its transactions exactly, as long as their sum fits a `usize` after every step.
pub proof fn byte_counts_are_exact(config: MempoolConfig, steps: Seq<PoolStep>)
    requires
        forall|k: int|
            0 <= k <= steps.len() ==> pool_bytes(
                reached(config, #[trigger] steps.take(k)).pool,
            ) <= usize::MAX,
    ensures
        reached(config, steps).bytes == pool_bytes(reached(config, steps).pool),
    decreases steps.len(),
{
    if steps.len() == 0 {
        lemma_pool_bytes_empty();
    } else {
        let fewer = steps.drop_last();
        assert forall|k: int| 0 <= k <= fewer.len() implies pool_bytes(
            reached(config, #[trigger] fewer.take(k)).pool,
        ) <= usize::MAX by {
            assert(fewer.take(k) =~= steps.take(k));
        }
        byte_counts_are_exact(config, fewer);
        limits_hold_in_every_state(config, fewer);
        assert(steps.take(steps.len() as int) =~= steps);
        each_step_counts_exactly(reached(config, fewer), config, steps.last());
    }
}

} // verus!
