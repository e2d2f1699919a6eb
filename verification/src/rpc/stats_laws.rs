//! How totals and pending balances grow.
use crate::chain::{BlockModel, Ledger};
use crate::ids::{Address, Height, TransactionHash};
use crate::mempool::pool::{lists, PendingTransaction, Pool};
use crate::order::Sortable;
use crate::params::GENESIS_PREMINE;
use crate::rpc::stats::{
    counted_blocks, incoming, is_pending_balance, is_pending_for, outgoing, part_of, stats_of,
    sum_over, time_spent, totals_cover_the_chain, transferred, Part, PendingBalance,
};
use crate::transaction::SignedTransaction;
use vstd::prelude::*;

verus! {

/// What a transfer brings to an address.
pub open spec fn brought(tx: SignedTransaction, address: Address) -> int {
    if tx.transaction.to == address {
        tx.transaction.amount.0 as int
    } else {
        0
    }
}

/// What a transfer takes from an address.
pub open spec fn taken(tx: SignedTransaction, address: Address) -> int {
    if tx.transaction.from == address {
        tx.transaction.amount.0 + tx.transaction.fee.0
    } else {
        0
    }
}

/// No transfers move nothing. One more transfer brings its amount to its recipient, takes its amount
/// and its fee from its sender, and does nothing to anybody else.
pub proof fn each_transfer_counts(
    list: Seq<SignedTransaction>,
    tx: SignedTransaction,
    address: Address,
)
    ensures
        incoming(Seq::empty(), address) == 0,
        outgoing(Seq::empty(), address) == 0,
        tx.transaction.to == address ==> incoming(list.push(tx), address) == incoming(list, address)
            + tx.transaction.amount.0,
        tx.transaction.to != address ==> incoming(list.push(tx), address) == incoming(
            list,
            address,
        ),
        tx.transaction.from == address ==> outgoing(list.push(tx), address) == outgoing(
            list,
            address,
        ) + tx.transaction.amount.0 + tx.transaction.fee.0,
        tx.transaction.from != address ==> outgoing(list.push(tx), address) == outgoing(
            list,
            address,
        ),
{
    assert(list.push(tx).drop_last() =~= list);
}

proof fn lemma_flows_of_insertion(
    list: Seq<SignedTransaction>,
    k: int,
    tx: SignedTransaction,
    address: Address,
)
    requires
        0 <= k <= list.len(),
    ensures
        incoming(list.insert(k, tx), address) == incoming(list, address) + brought(tx, address),
        outgoing(list.insert(k, tx), address) == outgoing(list, address) + taken(tx, address),
    decreases list.len(),
{
    if k == list.len() {
        assert(list.insert(k, tx) =~= list.push(tx));
        each_transfer_counts(list, tx, address);
    } else {
        lemma_flows_of_insertion(list.drop_last(), k, tx, address);
        assert(list.insert(k, tx).drop_last() =~= list.drop_last().insert(k, tx));
        assert(list.insert(k, tx).last() == list.last());
    }
}

proof fn lemma_flows_nonnegative(list: Seq<SignedTransaction>, address: Address)
    ensures
        incoming(list, address) >= 0,
        outgoing(list, address) >= 0,
    decreases list.len(),
{
    if list.len() > 0 {
        lemma_flows_nonnegative(list.drop_last(), address);
    }
}

proof fn lemma_same_place(
    a: Seq<SignedTransaction>,
    b: Seq<SignedTransaction>,
    pool: Pool,
    wanted: spec_fn(SignedTransaction) -> bool,
    i: int,
)
    requires
        lists(a, pool, wanted),
        lists(b, pool, wanted),
        0 <= i < a.len(),
    ensures
        i < b.len(),
        a[i] == b[i],
    decreases i,
{
    assert forall|m: int| 0 <= m < i implies m < b.len() && a[m] == b[m] by {
        lemma_same_place(a, b, pool, wanted, m);
    }
    assert(pool.contains_key(a[i].hash) && wanted(pool[a[i].hash].transaction));
    let j = b.index_of(a[i]);
    assert(b[j] == a[i]);
    if j < i {
        assert(a[j] == b[j]);
        TransactionHash::order_irreflexive(a[i].hash);
    }
    if j > i {
        assert(pool.contains_key(b[i].hash) && wanted(pool[b[i].hash].transaction));
        let k = a.index_of(b[i]);
        assert(a[k] == b[i]);
        if k < i {
            assert(b[k] == a[k]);
            TransactionHash::order_irreflexive(b[i].hash);
        } else if k == i {
            TransactionHash::order_irreflexive(b[i].hash);
        } else {
            assert(a[i].hash.before(a[k].hash));
            assert(b[i].hash.before(b[j].hash));
            TransactionHash::order_transitive(a[i].hash, b[i].hash, a[i].hash);
            TransactionHash::order_irreflexive(a[i].hash);
        }
    }
}

/// There is only one listing of the pending transactions with a property.
pub proof fn listings_are_unique(
    a: Seq<SignedTransaction>,
    b: Seq<SignedTransaction>,
    pool: Pool,
    wanted: spec_fn(SignedTransaction) -> bool,
)
    requires
        lists(a, pool, wanted),
        lists(b, pool, wanted),
    ensures
        a == b,
{
    assert forall|i: int| 0 <= i < a.len() implies i < b.len() && a[i] == b[i] by {
        lemma_same_place(a, b, pool, wanted, i);
    }
    if a.len() < b.len() {
        lemma_same_place(b, a, pool, wanted, a.len() as int);
    }
    if b.len() < a.len() {
        lemma_same_place(a, b, pool, wanted, b.len() as int);
    }
    assert(a =~= b);
}

/// An address that sends and receives nothing has nothing pending.
pub proof fn nothing_pending_moves_nothing(pending: PendingBalance, pool: Pool, address: Address)
    requires
        is_pending_for(pending, pool, address),
        forall|h: TransactionHash| #[trigger]
            pool.contains_key(h) ==> pool[h].transaction.transaction.from != address
                && pool[h].transaction.transaction.to != address,
    ensures
        pending.incoming == 0,
        pending.outgoing == 0,
{
    let list = choose|list: Seq<SignedTransaction>| #[trigger]
        is_pending_balance(pending, list, pool, address);
    if list.len() > 0 {
        assert(pool.contains_key(list[0].hash));
    }
}

/// When one more transfer is pending, the pending balance of its recipient has grown by its amount on
/// the incoming side, that of its sender by its amount and its fee on the outgoing side, and all others
/// are what they were, up to the largest number.
pub proof fn one_more_pending_transfer_moves_its_amount(
    before: PendingBalance,
    after: PendingBalance,
    pool: Pool,
    entry: PendingTransaction,
    address: Address,
)
    requires
        is_pending_for(before, pool, address),
        is_pending_for(after, pool.insert(entry.transaction.hash, entry), address),
        !pool.contains_key(entry.transaction.hash),
        before.incoming + brought(entry.transaction, address) <= u64::MAX,
        before.outgoing + taken(entry.transaction, address) <= u64::MAX,
        before.incoming < u64::MAX,
        before.outgoing < u64::MAX,
    ensures
        after.incoming == before.incoming + brought(entry.transaction, address),
        after.outgoing == before.outgoing + taken(entry.transaction, address),
{
    let tx = entry.transaction;
    let more = pool.insert(tx.hash, entry);
    let wanted = |tx: SignedTransaction|
        tx.transaction.from == address || tx.transaction.to == address;
    let short = choose|list: Seq<SignedTransaction>| #[trigger]
        is_pending_balance(before, list, pool, address);
    let long = choose|list: Seq<SignedTransaction>| #[trigger]
        is_pending_balance(after, list, more, address);
    lemma_flows_nonnegative(short, address);
    lemma_flows_nonnegative(long, address);
    if wanted(tx) {
        assert(more.contains_key(tx.hash));
        let k = long.index_of(tx);
        assert(long[k] == tx);
        let rest = long.remove(k);
        assert(long =~= rest.insert(k, tx));
        assert forall|h: TransactionHash| #[trigger]
            pool.contains_key(h) && wanted(pool[h].transaction) implies rest.contains(
            pool[h].transaction,
        ) by {
            assert(more.contains_key(h));
            let j = long.index_of(pool[h].transaction);
            assert(long[j] == pool[h].transaction);
            assert(more[long[j].hash].transaction == long[j]);
            if j == k {
                assert(pool[h].transaction == tx);
                lemma_filed_once(short, pool, wanted, h);
            }
            assert(rest[if j < k {
                j
            } else {
                j - 1
            }] == pool[h].transaction);
        }
        assert forall|i: int| 0 <= i < rest.len() implies {
            let other = #[trigger] rest[i];
            pool.contains_key(other.hash) && pool[other.hash].transaction == other && wanted(other)
        } by {
            let j = if i < k {
                i
            } else {
                i + 1
            };
            assert(rest[i] == long[j]);
            assert(more.contains_key(long[j].hash));
            if j < k {
                assert(long[j].hash.before(long[k].hash));
            } else {
                assert(long[k].hash.before(long[j].hash));
            }
            TransactionHash::order_irreflexive(tx.hash);
        }
        assert forall|i: int, j: int| 0 <= i < j < rest.len() implies (
        #[trigger] rest[i]).hash.before((#[trigger] rest[j]).hash) by {
            let p = if i < k {
                i
            } else {
                i + 1
            };
            let q = if j < k {
                j
            } else {
                j + 1
            };
            assert(long[p].hash.before(long[q].hash));
        }
        assert(lists(rest, pool, wanted));
        listings_are_unique(rest, short, pool, wanted);
        lemma_flows_of_insertion(rest, k, tx, address);
    } else {
        assert forall|i: int| 0 <= i < long.len() implies {
            let other = #[trigger] long[i];
            pool.contains_key(other.hash) && pool[other.hash].transaction == other && wanted(other)
        } by {
            assert(more.contains_key(long[i].hash));
        }
        assert forall|h: TransactionHash| #[trigger]
            pool.contains_key(h) && wanted(pool[h].transaction) implies long.contains(
            pool[h].transaction,
        ) by {
            assert(more.contains_key(h));
        }
        assert(lists(long, pool, wanted));
        listings_are_unique(long, short, pool, wanted);
    }
}

/// What is listed is filed under the hash that it carries.
proof fn lemma_filed_once(
    list: Seq<SignedTransaction>,
    pool: Pool,
    wanted: spec_fn(SignedTransaction) -> bool,
    h: TransactionHash,
)
    requires
        lists(list, pool, wanted),
        pool.contains_key(h),
        wanted(pool[h].transaction),
    ensures
        pool.contains_key(pool[h].transaction.hash),
{
    let i = list.index_of(pool[h].transaction);
    assert(list[i] == pool[h].transaction);
}

/// What the transfers of a block move, one after the other; one without a total moves nothing.
pub open spec fn moved_by(list: Seq<SignedTransaction>) -> int
    decreases list.len(),
{
    if list.len() == 0 {
        0
    } else {
        (if list[0].total_amount is Some {
            list[0].total_amount->Some_0.0 as int
        } else {
            0
        }) + moved_by(list.skip(1))
    }
}

proof fn lemma_moved(list: Seq<SignedTransaction>)
    ensures
        transferred(list) == moved_by(list),
        moved_by(list) >= 0,
    decreases list.len(),
{
    reveal_with_fuel(transferred, 2);
    reveal_with_fuel(moved_by, 2);
    if list.len() == 1 {
        assert(list.drop_last() =~= Seq::empty());
        assert(list.skip(1) =~= Seq::empty());
    } else if list.len() > 1 {
        lemma_moved(list.drop_last());
        lemma_moved(list.skip(1));
        lemma_moved(list.drop_last().skip(1));
        assert(list.drop_last().skip(1) =~= list.skip(1).drop_last());
        assert(list.skip(1).last() == list.last());
        assert(list.drop_last()[0] == list[0]);
    }
}

proof fn lemma_one_more_block(seen: Seq<BlockModel>, block: BlockModel, part: Part)
    ensures
        sum_over(seen.push(block), part) == sum_over(seen, part) + part_of(block, part),
        sum_over(seen, part) >= 0,
        part_of(block, part) >= 0,
    decreases seen.len(),
{
    assert(seen.push(block).drop_last() =~= seen);
    lemma_moved(block.transactions);
    if seen.len() > 0 {
        lemma_one_more_block(seen.drop_last(), seen.last(), part);
        assert(seen.drop_last().push(seen.last()) =~= seen);
    }
}

/// `after` is `before` and `more`, or the largest number where that is too much.
pub open spec fn adds_up(before: u64, more: int, after: u64) -> bool {
    if before + more <= u64::MAX {
        after == before + more
    } else {
        after == u64::MAX
    }
}

/// Each block adds to the totals: one block, its subsidy to the supply, its fees and its whole reward
/// to what miners got, its transactions of both families, what its transfers move and the fees that its
/// transactions offer.
pub proof fn each_block_adds_to_the_totals(
    seen: Seq<BlockModel>,
    block: BlockModel,
    tip: u64,
    pending: int,
)
    ensures
        ({
            let before = stats_of(seen, tip, pending);
            let after = stats_of(seen.push(block), tip, pending);
            let subsidy = if block.coinbase is Some {
                block.coinbase->Some_0.subsidy.0 as int
            } else {
                0
            };
            let fees = if block.coinbase is Some {
                block.coinbase->Some_0.fees.0 as int
            } else {
                0
            };
            let offered = if block.total_fees is Some {
                block.total_fees->Some_0.0 as int
            } else {
                0
            };
            let count = block.transactions.len() + block.qcash_transactions.len();
            &&& adds_up(before.blocks, 1, after.blocks)
            &&& adds_up(before.mined_supply, subsidy, after.mined_supply)
            &&& adds_up(GENESIS_PREMINE, after.mined_supply as int, after.current_supply)
            &&& adds_up(before.total_fees_collected, fees, after.total_fees_collected)
            &&& subsidy + fees <= u64::MAX ==> adds_up(
                before.total_coinbase_rewards,
                subsidy + fees,
                after.total_coinbase_rewards,
            )
            &&& count <= usize::MAX ==> adds_up(
                before.total_transactions,
                count as int,
                after.total_transactions,
            )
            &&& adds_up(
                before.total_transfer_volume,
                moved_by(block.transactions),
                after.total_transfer_volume,
            )
            &&& adds_up(before.total_transaction_fees, offered, after.total_transaction_fees)
            &&& after.height == tip
            &&& 0 <= pending <= u64::MAX ==> after.pending_transactions == pending
        }),
{
    lemma_one_more_block(seen, block, Part::Minted);
    lemma_one_more_block(seen, block, Part::Rewarded);
    lemma_one_more_block(seen, block, Part::FeesPaid);
    lemma_one_more_block(seen, block, Part::Transactions);
    lemma_one_more_block(seen, block, Part::Transferred);
    lemma_one_more_block(seen, block, Part::FeesOffered);
    lemma_moved(block.transactions);
}

/// The totals of no block are zero, and there is no average time between blocks.
pub proof fn nothing_adds_up_to_nothing(tip: u64, pending: int)
    ensures
        ({
            let none = stats_of(Seq::empty(), tip, pending);
            &&& none.blocks == 0
            &&& none.mined_supply == 0
            &&& none.current_supply == GENESIS_PREMINE
            &&& none.total_fees_collected == 0
            &&& none.total_coinbase_rewards == 0
            &&& none.total_transactions == 0
            &&& none.total_transfer_volume == 0
            &&& none.total_transaction_fees == 0
            &&& none.average_transfer_amount == 0
            &&& none.average_block_time_secs is None
        }),
{
}

/// Timestamps never fall from block to block.
pub open spec fn time_goes_forward(seen: Seq<BlockModel>) -> bool {
    forall|i: int, j: int|
        0 <= i < j < seen.len() ==> (#[trigger] seen[i]).header.timestamp <= (
        #[trigger] seen[j]).header.timestamp
}

proof fn lemma_time_spent(seen: Seq<BlockModel>)
    requires
        seen.len() > 0,
        time_goes_forward(seen),
    ensures
        time_spent(seen) == seen.last().header.timestamp - seen[0].header.timestamp,
    decreases seen.len(),
{
    if seen.len() > 1 {
        let rest = seen.drop_last();
        assert(time_goes_forward(rest)) by {
            assert forall|i: int, j: int| 0 <= i < j < rest.len() implies (
            #[trigger] rest[i]).header.timestamp <= (#[trigger] rest[j]).header.timestamp by {
                assert(seen[i].header.timestamp <= seen[j].header.timestamp);
            }
        }
        lemma_time_spent(rest);
        assert(rest.last() == seen[seen.len() - 2]);
        assert(seen[seen.len() - 2].header.timestamp <= seen[seen.len() - 1].header.timestamp);
    }
}

/// `share` is `total` divided into `n` parts, rounded down.
pub open spec fn is_average(share: u64, total: int, n: int) -> bool {
    share * n <= total && total < (share + 1) * n
}

/// The average time between blocks is the time from the first to the last, divided by the number of
/// steps; the average transfer is the volume divided by the number of transactions.
pub proof fn averages_divide_the_totals(seen: Seq<BlockModel>, tip: u64, pending: int)
    requires
        time_goes_forward(seen),
        seen.len() <= u64::MAX,
    ensures
        ({
            let stats = stats_of(seen, tip, pending);
            &&& seen.len() >= 2 ==> stats.average_block_time_secs is Some && is_average(
                stats.average_block_time_secs->Some_0,
                seen.last().header.timestamp - seen[0].header.timestamp,
                seen.len() - 1,
            )
            &&& seen.len() < 2 ==> stats.average_block_time_secs is None
            &&& stats.total_transactions > 0 ==> is_average(
                stats.average_transfer_amount,
                stats.total_transfer_volume as int,
                stats.total_transactions as int,
            )
            &&& stats.total_transactions == 0 ==> stats.average_transfer_amount == 0
        }),
{
    let stats = stats_of(seen, tip, pending);
    if seen.len() >= 2 {
        lemma_time_spent(seen);
        assert(seen[0].header.timestamp <= seen[seen.len() - 1].header.timestamp);
        lemma_average(time_spent(seen), seen.len() - 1);
    }
    if stats.total_transactions > 0 {
        lemma_average(stats.total_transfer_volume as int, stats.total_transactions as int);
    }
}

proof fn lemma_average(total: int, n: int)
    requires
        0 <= total <= u64::MAX,
        n > 0,
    ensures
        0 <= total / n <= u64::MAX,
        is_average((total / n) as u64, total, n),
{
    assert(0 <= total / n <= total && (total / n) * n <= total && total < (total / n + 1) * n)
        by (nonlinear_arith)
        requires
            0 <= total,
            n > 0,
    ;
}

/// The totals of a chain count every block up to its tip, and none above it, in ascending order.
pub proof fn totals_reach_the_tip(ledger: &Ledger)
    requires
        ledger.wf(),
    ensures
        ({
            let list = counted_blocks(ledger);
            let chain = ledger.block_map();
            let tip = if ledger.tip().0 is Some {
                ledger.tip().0->Some_0.0
            } else {
                0
            };
            &&& forall|h: Height| #[trigger]
                chain.contains_key(h) && h.0 <= tip ==> list.contains(chain[h])
            &&& forall|i: int|
                0 <= i < list.len() ==> (#[trigger] list[i]).header.height.0 <= tip
                    && chain.contains_key(list[i].header.height) && chain[list[i].header.height]
                    == list[i]
            &&& forall|i: int, j: int|
                0 <= i < j < list.len() ==> (#[trigger] list[i]).header.height.0 < (
                #[trigger] list[j]).header.height.0
        }),
{
    ledger.records_carry_their_keys();
    let tip = if ledger.tip().0 is Some {
        ledger.tip().0->Some_0.0 as nat
    } else {
        0
    };
    totals_cover_the_chain(ledger.block_map(), tip + 1);
}

} // verus!
