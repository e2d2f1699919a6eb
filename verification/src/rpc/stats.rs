//! Totals over the whole chain, balances and metrics.
use crate::chain::{Account, Block, BlockModel, Ledger};
use crate::ids::{Address, Height};
use crate::mempool::fee::capped;
use crate::mempool::pool::{lists, Pool};
use crate::node::{tip_number, Node};
use crate::params::{BLOCK_TIME, GENESIS_PREMINE};
use crate::rpc::block::elapsed;
use crate::text::{decimal, decimal_text};
use crate::transaction::SignedTransaction;
use vstd::prelude::*;
use vstd::string::*;

verus! {

/// A number that a block has.
pub ghost enum Part {
    /// What it mints.
    Minted,
    /// What it pays to its miner in all.
    Rewarded,
    /// The fees that it pays to its miner.
    FeesPaid,
    /// How many transactions it holds.
    Transactions,
    /// What its transfers move.
    Transferred,
    /// The fees that its transactions offer.
    FeesOffered,
}

/// The number that a block has.
pub open spec fn part_of(block: BlockModel, part: Part) -> int {
    match part {
        Part::Minted => minted(block),
        Part::Rewarded => rewarded(block),
        Part::FeesPaid => fees_paid(block),
        Part::Transactions => block.transaction_count(),
        Part::Transferred => transferred(block.transactions),
        Part::FeesOffered => fees_offered(block),
    }
}

/// The sum of a number over all blocks.
pub open spec fn sum_over(blocks: Seq<BlockModel>, part: Part) -> int
    decreases blocks.len(),
{
    if blocks.len() == 0 {
        0
    } else {
        sum_over(blocks.drop_last(), part) + part_of(blocks.last(), part)
    }
}

/// What a block mints.
pub open spec fn minted(block: BlockModel) -> int {
    match block.coinbase {
        Some(coinbase) => coinbase.subsidy.0 as int,
        None => 0,
    }
}

/// The fees that a block pays to its miner.
pub open spec fn fees_paid(block: BlockModel) -> int {
    match block.coinbase {
        Some(coinbase) => coinbase.fees.0 as int,
        None => 0,
    }
}

/// What a block pays to its miner in all.
pub open spec fn rewarded(block: BlockModel) -> int {
    match block.coinbase {
        Some(coinbase) => coinbase.reward(),
        None => 0,
    }
}

/// The fees that a block's transactions offer; a sum that does not fit counts for nothing.
pub open spec fn fees_offered(block: BlockModel) -> int {
    match block.total_fees {
        Some(fees) => fees.0 as int,
        None => 0,
    }
}

/// What a list of transfers moves; one whose amount does not fit counts for nothing.
pub open spec fn transferred(transactions: Seq<SignedTransaction>) -> int
    decreases transactions.len(),
{
    if transactions.len() == 0 {
        0
    } else {
        transferred(transactions.drop_last()) + (match transactions.last().total_amount {
            Some(amount) => amount.0 as int,
            None => 0,
        })
    }
}

/// The seconds between consecutive blocks, summed up.
pub open spec fn time_spent(blocks: Seq<BlockModel>) -> int
    decreases blocks.len(),
{
    if blocks.len() <= 1 {
        0
    } else {
        time_spent(blocks.drop_last()) + elapsed(
            blocks[blocks.len() - 2].header.timestamp,
            blocks.last().header.timestamp,
        )
    }
}

proof fn lemma_sum_nonnegative(blocks: Seq<BlockModel>, part: Part)
    ensures
        sum_over(blocks, part) >= 0,
    decreases blocks.len(),
{
    if blocks.len() > 0 {
        lemma_sum_nonnegative(blocks.drop_last(), part);
        lemma_transferred_nonnegative(blocks.last().transactions);
    }
}

proof fn lemma_transferred_nonnegative(transactions: Seq<SignedTransaction>)
    ensures
        transferred(transactions) >= 0,
    decreases transactions.len(),
{
    if transactions.len() > 0 {
        lemma_transferred_nonnegative(transactions.drop_last());
    }
}

proof fn lemma_time_nonnegative(blocks: Seq<BlockModel>)
    ensures
        time_spent(blocks) >= 0,
    decreases blocks.len(),
{
    if blocks.len() > 1 {
        lemma_time_nonnegative(blocks.drop_last());
    }
}

proof fn lemma_sum_push(blocks: Seq<BlockModel>, block: BlockModel, part: Part)
    ensures
        sum_over(blocks.push(block), part) == sum_over(blocks, part) + part_of(block, part),
{
    assert(blocks.push(block).drop_last() =~= blocks);
}

/// Totals over the blocks seen so far. Each is the true sum, capped at the largest number.
#[derive(Clone, Copy, Debug, PartialEq, Eq)]
pub struct ChainTotals {
    blocks: u64,
    mined_supply: u64,
    coinbase_rewards: u64,
    fees_collected: u64,
    transactions: u64,
    transfer_volume: u64,
    transaction_fees: u64,
    previous_timestamp: Option<u64>,
    block_time_secs: u64,
    block_time_samples: u64,
}

impl ChainTotals {
    /// These are the totals over a list of blocks.
    pub closed spec fn tallies(&self, seen: Seq<BlockModel>) -> bool {
        &&& self.blocks == capped(seen.len() as int)
        &&& self.mined_supply == capped(sum_over(seen, Part::Minted))
        &&& self.coinbase_rewards == capped(sum_over(seen, Part::Rewarded))
        &&& self.fees_collected == capped(sum_over(seen, Part::FeesPaid))
        &&& self.transactions == capped(
            sum_over(seen, Part::Transactions),
        )
        &&& self.transfer_volume == capped(
            sum_over(seen, Part::Transferred),
        )
        &&& self.transaction_fees == capped(sum_over(seen, Part::FeesOffered))
        &&& self.previous_timestamp == (if seen.len() == 0 {
            None
        } else {
            Some(seen.last().header.timestamp)
        })
        &&& self.block_time_secs == capped(time_spent(seen))
        &&& self.block_time_samples == (if seen.len() == 0 {
            0int
        } else {
            capped(seen.len() - 1)
        })
    }

    /// The totals over no block.
    pub fn new() -> (r: Self)
        ensures
            r.tallies(Seq::empty()),
    {
        ChainTotals {
            blocks: 0,
            mined_supply: 0,
            coinbase_rewards: 0,
            fees_collected: 0,
            transactions: 0,
            transfer_volume: 0,
            transaction_fees: 0,
            previous_timestamp: None,
            block_time_secs: 0,
            block_time_samples: 0,
        }
    }

    /// Counts the next block.
    pub fn count(&mut self, block: &Block)
        ensures
            forall|seen: Seq<BlockModel>| #[trigger]
                old(self).tallies(seen) ==> final(self).tallies(seen.push(block@)),
    {
        let timestamp: u64 = block.header.timestamp;
        self.blocks = self.blocks.saturating_add(1);
        match self.previous_timestamp {
            Some(earlier) => {
                self.block_time_secs = self.block_time_secs.saturating_add(
                    timestamp.saturating_sub(earlier),
                );
                self.block_time_samples = self.block_time_samples.saturating_add(1);
            },
            None => {},
        }
        self.previous_timestamp = Some(timestamp);
        match block.coinbase {
            Some(coinbase) => {
                self.mined_supply = self.mined_supply.saturating_add(coinbase.subsidy.0);
                self.fees_collected = self.fees_collected.saturating_add(coinbase.fees.0);
                self.coinbase_rewards = self.coinbase_rewards.saturating_add(coinbase.total().0);
            },
            None => {},
        }
        self.transactions = self.transactions.saturating_add(block.transaction_count() as u64);
        let fees: u64 = match block.total_fees {
            Some(fees) => fees.0,
            None => 0,
        };
        self.transaction_fees = self.transaction_fees.saturating_add(fees);
        let ghost start = self.transfer_volume as int;
        let ghost counted = *self;
        let mut i: usize = 0;
        assert(block.transactions@.take(0) =~= Seq::empty());
        while i < block.transactions.len()
            invariant
                i <= block.transactions@.len(),
                self.transfer_volume == capped(
                    start + transferred(block.transactions@.take(i as int)),
                ),
                0 <= start,
                *self == (ChainTotals { transfer_volume: self.transfer_volume, ..counted }),
            decreases block.transactions@.len() - i,
        {
            proof {
                let so_far = block.transactions@.take(i + 1);
                assert(so_far.drop_last() =~= block.transactions@.take(i as int));
                lemma_transferred_nonnegative(so_far.drop_last());
            }
            let amount: u64 = match block.transactions[i].total_amount {
                Some(amount) => amount.0,
                None => 0,
            };
            self.transfer_volume = self.transfer_volume.saturating_add(amount);
            i = i + 1;
        }
        proof {
            assert(block.transactions@.take(i as int) =~= block.transactions@);
            let before = *old(self);
            let b = block@;
            assert forall|seen: Seq<BlockModel>| #[trigger] before.tallies(
                seen,
            ) implies self.tallies(seen.push(b)) by {
                lemma_sum_push(seen, b, Part::Minted);
                lemma_sum_nonnegative(seen, Part::Minted);
                lemma_sum_push(seen, b, Part::Rewarded);
                lemma_sum_nonnegative(seen, Part::Rewarded);
                lemma_sum_push(seen, b, Part::FeesPaid);
                lemma_sum_nonnegative(seen, Part::FeesPaid);
                lemma_sum_push(seen, b, Part::Transactions);
                lemma_sum_nonnegative(seen, Part::Transactions);
                lemma_sum_push(seen, b, Part::Transferred);
                lemma_sum_nonnegative(seen, Part::Transferred);
                lemma_sum_push(seen, b, Part::FeesOffered);
                lemma_sum_nonnegative(seen, Part::FeesOffered);
                lemma_transferred_nonnegative(b.transactions);
                lemma_time_nonnegative(seen);
                assert(seen.push(b).drop_last() =~= seen);
                if seen.len() > 0 {
                    assert(seen.push(b)[seen.push(b).len() - 2] == seen.last());
                }
            }
        }
    }
}

/// The blocks that a chain holds at its lowest `n` heights, in ascending order.
pub open spec fn lowest_blocks(chain: Map<Height, BlockModel>, n: nat) -> Seq<BlockModel>
    decreases n,
{
    if n == 0 {
        Seq::empty()
    } else {
        let lower = lowest_blocks(chain, (n - 1) as nat);
        let height = Height((n - 1) as u64);
        if chain.contains_key(height) {
            lower.push(chain[height])
        } else {
            lower
        }
    }
}

/// The blocks from height zero to the tip that a chain holds, in ascending order. An empty chain has
/// its tip at height zero.
pub open spec fn counted_blocks(ledger: &Ledger) -> Seq<BlockModel> {
    lowest_blocks(ledger.block_map(), (tip_number(ledger.tip().0) + 1) as nat)
}

/// The totals over the blocks of a chain from height zero to the tip; heights without a block are
/// passed over.
pub fn chain_totals(ledger: &Ledger) -> (r: ChainTotals)
    requires
        ledger.wf(),
    ensures
        r.tallies(counted_blocks(ledger)),
{
    let tip: u64 = match ledger.tip_height() {
        Some(height) => height.0,
        None => 0,
    };
    let ghost chain = ledger.block_map();
    let mut totals = ChainTotals::new();
    let mut height: u64 = 0;
    loop
        invariant_except_break
            ledger.wf(),
            chain == ledger.block_map(),
            tip == tip_number(ledger.tip().0),
            height <= tip,
            totals.tallies(lowest_blocks(chain, height as nat)),
        ensures
            totals.tallies(counted_blocks(ledger)),
        decreases tip - height,
    {
        match ledger.block(&Height(height)) {
            Some(block) => {
                totals.count(block);
            },
            None => {},
        }
        assert(totals.tallies(lowest_blocks(chain, (height + 1) as nat)));
        if height == tip {
            break;
        }
        height = height + 1;
    }
    totals
}

/// The counted blocks are exactly those at heights up to the tip, each at its own height, and each
/// height comes before the higher ones.
pub proof fn totals_cover_the_chain(chain: Map<Height, BlockModel>, n: nat)
    requires
        n <= u64::MAX + 1,
        forall|h: Height| #[trigger] chain.contains_key(h) ==> chain[h].header.height == h,
    ensures
        ({
            let list = lowest_blocks(chain, n);
            &&& forall|i: int|
                0 <= i < list.len() ==> {
                    let height = (#[trigger] list[i]).header.height;
                    height.0 < n && chain.contains_key(height) && chain[height] == list[i]
                }
            &&& forall|i: int, j: int|
                0 <= i < j < list.len() ==> (#[trigger] list[i]).header.height.0 < (
                #[trigger] list[j]).header.height.0
            &&& forall|h: Height| #[trigger]
                chain.contains_key(h) && h.0 < n ==> list.contains(chain[h])
        }),
    decreases n,
{
    if n > 0 {
        let lower = lowest_blocks(chain, (n - 1) as nat);
        let list = lowest_blocks(chain, n);
        let height = Height((n - 1) as u64);
        totals_cover_the_chain(chain, (n - 1) as nat);
        assert forall|h: Height| #[trigger] chain.contains_key(h) && h.0 < n implies list.contains(
            chain[h],
        ) by {
            if h == height {
                assert(list[lower.len() as int] == chain[h]);
            } else {
                assert(h.0 != height.0);
                let i = lower.index_of(chain[h]);
                assert(list[i] == chain[h]);
            }
        }
    }
}

/// Totals over the whole chain as an explorer shows them.
#[derive(Clone, Copy, Debug, PartialEq, Eq)]
pub struct ChainStatsResponse {
    pub height: u64,
    pub blocks: u64,
    pub average_block_time_secs: Option<u64>,
    pub target_block_time_secs: u64,
    pub genesis_premine: u64,
    pub mined_supply: u64,
    pub current_supply: u64,
    pub total_coinbase_rewards: u64,
    pub total_fees_collected: u64,
    pub total_transactions: u64,
    pub pending_transactions: u64,
    pub total_transfer_volume: u64,
    pub total_transaction_fees: u64,
    pub average_transfer_amount: u64,
}

/// Totals over a list of blocks below a tip.
pub open spec fn stats_of(seen: Seq<BlockModel>, tip: u64, pending: int) -> ChainStatsResponse {
    let mined_supply = capped(sum_over(seen, Part::Minted)) as u64;
    let transactions = capped(sum_over(seen, Part::Transactions)) as u64;
    let volume = capped(sum_over(seen, Part::Transferred)) as u64;
    ChainStatsResponse {
        height: tip,
        blocks: capped(seen.len() as int) as u64,
        average_block_time_secs: if seen.len() <= 1 {
            None
        } else {
            Some(capped(time_spent(seen)) as u64 / capped(seen.len() - 1) as u64)
        },
        target_block_time_secs: BLOCK_TIME,
        genesis_premine: GENESIS_PREMINE,
        mined_supply,
        current_supply: capped(GENESIS_PREMINE + mined_supply) as u64,
        total_coinbase_rewards: capped(sum_over(seen, Part::Rewarded)) as u64,
        total_fees_collected: capped(sum_over(seen, Part::FeesPaid)) as u64,
        total_transactions: transactions,
        pending_transactions: capped(pending) as u64,
        total_transfer_volume: volume,
        total_transaction_fees: capped(sum_over(seen, Part::FeesOffered)) as u64,
        average_transfer_amount: if transactions == 0 {
            0
        } else {
            volume / transactions
        },
    }
}

/// Shows the totals over the blocks of a chain.
pub fn chain_stats<V>(node: &Node<V>, totals: &ChainTotals) -> (r: ChainStatsResponse)
    requires
        node.wf(),
    ensures
        forall|seen: Seq<BlockModel>| #[trigger]
            totals.tallies(seen) ==> r == stats_of(
                seen,
                tip_number(node.ledger.tip().0) as u64,
                (node.mempool.pool().len() + node.extension_mempool.pool().len()) as int,
            ),
{
    let pending: u64 = (node.mempool.len() as u64).saturating_add(
        node.extension_mempool.len() as u64,
    );
    let average_block_time_secs = if totals.block_time_samples == 0 {
        None
    } else {
        Some(totals.block_time_secs / totals.block_time_samples)
    };
    let average_transfer_amount: u64 = if totals.transactions == 0 {
        0
    } else {
        totals.transfer_volume / totals.transactions
    };
    let tip: u64 = node.tip_height_or_zero();
    ChainStatsResponse {
        height: tip,
        blocks: totals.blocks,
        average_block_time_secs,
        target_block_time_secs: BLOCK_TIME,
        genesis_premine: GENESIS_PREMINE,
        mined_supply: totals.mined_supply,
        current_supply: GENESIS_PREMINE.saturating_add(totals.mined_supply),
        total_coinbase_rewards: totals.coinbase_rewards,
        total_fees_collected: totals.fees_collected,
        total_transactions: totals.transactions,
        pending_transactions: pending,
        total_transfer_volume: totals.transfer_volume,
        total_transaction_fees: totals.transaction_fees,
        average_transfer_amount,
    }
}

/// Supply never shrinks as the chain grows.
pub proof fn supply_never_shrinks(seen: Seq<BlockModel>, block: BlockModel, tip: u64, pending: int)
    ensures
        stats_of(seen, tip, pending).current_supply <= stats_of(
            seen.push(block),
            tip,
            pending,
        ).current_supply,
{
    lemma_sum_push(seen, block, Part::Minted);
    lemma_sum_nonnegative(seen, Part::Minted);
}

/// What pending transfers add to an account and take from it.
#[derive(Clone, Copy, Debug, PartialEq, Eq)]
pub struct PendingBalance {
    pub incoming: u64,
    pub outgoing: u64,
}

/// What a list of transfers brings to an address.
pub open spec fn incoming(list: Seq<SignedTransaction>, address: Address) -> int
    decreases list.len(),
{
    if list.len() == 0 {
        0
    } else {
        incoming(list.drop_last(), address) + (if list.last().transaction.to == address {
            list.last().transaction.amount.0 as int
        } else {
            0
        })
    }
}

/// What a list of transfers takes from an address, fees among it.
pub open spec fn outgoing(list: Seq<SignedTransaction>, address: Address) -> int
    decreases list.len(),
{
    if list.len() == 0 {
        0
    } else {
        outgoing(list.drop_last(), address) + (if list.last().transaction.from == address {
            list.last().transaction.amount.0 + list.last().transaction.fee.0
        } else {
            0
        })
    }
}

proof fn lemma_flows_nonnegative(list: Seq<SignedTransaction>, address: Address)
    ensures
        incoming(list, address) >= 0,
        outgoing(list, address) >= 0,
    decreases list.len(),
{
    if list.len() > 0 {
        lemma_flows_nonnegative(list.drop_last(), address);
    }
}

/// The pending flows of an address are those of the pending transfers that it sends or receives.
pub open spec fn is_pending_balance(
    pending: PendingBalance,
    list: Seq<SignedTransaction>,
    pool: Pool,
    address: Address,
) -> bool {
    &&& lists(
        list,
        pool,
        |tx: SignedTransaction| tx.transaction.from == address || tx.transaction.to == address,
    )
    &&& pending.incoming == capped(incoming(list, address))
    &&& pending.outgoing == capped(outgoing(list, address))
}

/// The pending flows of an address.
pub open spec fn is_pending_for(pending: PendingBalance, pool: Pool, address: Address) -> bool {
    exists|list: Seq<SignedTransaction>| #[trigger] is_pending_balance(pending, list, pool, address)
}

/// What pending transfers add to an account and take from it.
pub fn pending_balance<V>(node: &Node<V>, address: &Address) -> (r: PendingBalance)
    requires
        node.wf(),
    ensures
        is_pending_for(r, node.mempool.pool(), *address),
{
    let list = node.mempool.transactions_for_address(address);
    let mut pending = PendingBalance { incoming: 0, outgoing: 0 };
    let mut i: usize = 0;
    assert(list@.take(0) =~= Seq::empty());
    while i < list.len()
        invariant
            i <= list@.len(),
            pending.incoming == capped(incoming(list@.take(i as int), *address)),
            pending.outgoing == capped(outgoing(list@.take(i as int), *address)),
        decreases list@.len() - i,
    {
        let tx = list[i].transaction;
        proof {
            assert(list@.take(i + 1).drop_last() =~= list@.take(i as int));
            lemma_flows_nonnegative(list@.take(i as int), *address);
        }
        if tx.to.same(address) {
            pending.incoming = pending.incoming.saturating_add(tx.amount.0);
        }
        if tx.from.same(address) {
            pending.outgoing = pending.outgoing.saturating_add(tx.amount.0).saturating_add(
                tx.fee.0,
            );
        }
        i = i + 1;
    }
    assert(list@.take(i as int) =~= list@);
    assert(is_pending_balance(pending, list@, node.mempool.pool(), *address));
    pending
}

/// The balances of an account, pending transactions among them.
#[derive(Clone, Copy, Debug, PartialEq, Eq)]
pub struct BalanceSummary {
    pub confirmed: u64,
    pub available: u64,
    pub pending: PendingBalance,
}

/// The balances of an address, if it has an account.
pub fn balance_summary<V>(node: &Node<V>, address: &Address) -> (r: Option<BalanceSummary>)
    requires
        node.wf(),
    ensures
        match r {
            Some(summary) => {
                &&& node.ledger.account_map().contains_key(*address)
                &&& summary.confirmed == node.ledger.account_map()[*address].balance.0
                &&& summary.available == node.ledger.account_map()[*address].available.0
                &&& is_pending_for(summary.pending, node.mempool.pool(), *address)
            },
            None => !node.ledger.account_map().contains_key(*address),
        },
{
    match node.ledger.account(address) {
        Some(account) => Some(
            BalanceSummary {
                confirmed: account.balance.0,
                available: account.available.0,
                pending: pending_balance(node, address),
            },
        ),
        None => None,
    }
}

/// An account as an explorer shows it.
#[derive(Clone, Copy, Debug, PartialEq, Eq)]
pub struct AccountResponse {
    pub account: Account,
    pub pending: PendingBalance,
}

/// Shows all accounts in address order.
pub fn account_responses<V>(node: &Node<V>) -> (r: Vec<AccountResponse>)
    requires
        node.wf(),
    ensures
        forall|i: int, j: int|
            0 <= i < j < r@.len() ==> crate::order::Sortable::before(
                (#[trigger] r@[i]).account.address,
                (#[trigger] r@[j]).account.address,
            ),
        forall|i: int|
            0 <= i < r@.len() ==> {
                let shown = #[trigger] r@[i];
                &&& node.ledger.account_map().contains_key(shown.account.address)
                &&& node.ledger.account_map()[shown.account.address] == shown.account
                &&& is_pending_for(shown.pending, node.mempool.pool(), shown.account.address)
            },
        forall|a: Address| #[trigger]
            node.ledger.account_map().contains_key(a) ==> exists|i: int|
                0 <= i < r@.len() && (#[trigger] r@[i]).account.address == a,
{
    let accounts = node.ledger.accounts();
    let mut shown: Vec<AccountResponse> = Vec::new();
    let mut i: usize = 0;
    while i < accounts.len()
        invariant
            node.wf(),
            i <= accounts@.len(),
            shown@.len() == i,
            forall|j: int|
                0 <= j < i ==> (#[trigger] shown@[j]).account == accounts@[j] && is_pending_for(
                    shown@[j].pending,
                    node.mempool.pool(),
                    accounts@[j].address,
                ),
        decreases accounts@.len() - i,
    {
        let account = accounts[i];
        let pending = pending_balance(node, &account.address);
        shown.push(AccountResponse { account, pending });
        i = i + 1;
    }
    proof {
        assert forall|j: int| 0 <= j < shown@.len() implies {
            let entry = #[trigger] shown@[j];
            &&& node.ledger.account_map().contains_key(entry.account.address)
            &&& node.ledger.account_map()[entry.account.address] == entry.account
        } by {
            assert(accounts@.contains(accounts@[j]));
        }
        node.ledger.records_carry_their_keys();
        assert forall|a: Address| #[trigger]
            node.ledger.account_map().contains_key(a) implies exists|j: int|
            0 <= j < shown@.len() && (#[trigger] shown@[j]).account.address == a by {
            let account = node.ledger.account_map()[a];
            assert(accounts@.contains(account));
            let j = accounts@.index_of(account);
            assert(shown@[j].account.address == a);
        }
    }
    shown
}

/// A number under a name, in JSON.
pub open spec fn field(name: Seq<char>, value: Seq<char>) -> Seq<char> {
    ",\""@ + name + "\":"@ + value
}

/// The balances of an address in JSON.
pub open spec fn balance_text(
    address: Seq<char>,
    height: u64,
    summary: Option<BalanceSummary>,
    account: Option<Account>,
) -> Seq<char> {
    let start = "{\"address\":\""@ + address + "\""@ + field("height"@, decimal_text(
        height as nat,
    ));
    match summary {
        None => start + field("exists"@, "false"@) + field("confirmed"@, "0"@) + field(
            "available"@,
            "0"@,
        ) + field("pending_incoming"@, "0"@) + field("pending_outgoing"@, "0"@) + field(
            "nonce"@,
            "null"@,
        ) + field("unspendable"@, "0"@) + "}"@,
        Some(summary) => start + field("exists"@, "true"@) + field(
            "confirmed"@,
            decimal_text(summary.confirmed as nat),
        ) + field("available"@, decimal_text(summary.available as nat)) + field(
            "pending_incoming"@,
            decimal_text(summary.pending.incoming as nat),
        ) + field("pending_outgoing"@, decimal_text(summary.pending.outgoing as nat)) + field(
            "nonce"@,
            match account {
                Some(account) => decimal_text(account.nonce.0 as nat),
                None => "null"@,
            },
        ) + field(
            "unspendable"@,
            match account {
                Some(account) => decimal_text(account.unspendable.0 as nat),
                None => decimal_text(0),
            },
        ) + "}"@,
    }
}

fn append_field(text: &mut String, name: &str, value: &str)
    ensures
        final(text)@ == old(text)@ + field(name@, value@),
{
    text.append(",\"");
    text.append(name);
    text.append("\":");
    text.append(value);
    assert(text@ =~= old(text)@ + field(name@, value@));
}

/// The balances of an address in JSON. `address` is the address in the form that wallets use.
pub fn balance_json(
    address: &str,
    height: u64,
    summary: Option<BalanceSummary>,
    account: Option<Account>,
) -> (r: String)
    ensures
        r@ == balance_text(address@, height, summary, account),
{
    let mut text = String::from_str("{\"address\":\"");
    text.append(address);
    text.append("\"");
    append_field(&mut text, "height", decimal(height).as_str());
    match summary {
        None => {
            append_field(&mut text, "exists", "false");
            append_field(&mut text, "confirmed", "0");
            append_field(&mut text, "available", "0");
            append_field(&mut text, "pending_incoming", "0");
            append_field(&mut text, "pending_outgoing", "0");
            append_field(&mut text, "nonce", "null");
            append_field(&mut text, "unspendable", "0");
        },
        Some(summary) => {
            append_field(&mut text, "exists", "true");
            append_field(&mut text, "confirmed", decimal(summary.confirmed).as_str());
            append_field(&mut text, "available", decimal(summary.available).as_str());
            append_field(
                &mut text,
                "pending_incoming",
                decimal(summary.pending.incoming).as_str(),
            );
            append_field(
                &mut text,
                "pending_outgoing",
                decimal(summary.pending.outgoing).as_str(),
            );
            let nonce = match account {
                Some(account) => decimal(account.nonce.0),
                None => String::from_str("null"),
            };
            append_field(&mut text, "nonce", nonce.as_str());
            let unspendable: u64 = match account {
                Some(account) => account.unspendable.0,
                None => 0,
            };
            append_field(&mut text, "unspendable", decimal(unspendable).as_str());
        },
    }
    text.append("}");
    text
}

/// What a node counts about itself.
#[derive(Clone, Copy, Debug, PartialEq, Eq)]
pub struct NodeMetrics {
    pub height: u64,
    pub peer_count: u64,
    pub mempool_size: u64,
    pub validation_failures: u64,
    pub reorgs: u64,
    pub requests: u64,
    pub errors: u64,
    pub hashrate: u64,
    pub database_bytes: u64,
}

/// One metric: its type, its name and its value.
pub open spec fn metric(name: Seq<char>, kind: Seq<char>, value: Seq<char>) -> Seq<char> {
    "# TYPE "@ + name + " "@ + kind + "\n"@ + name + " "@ + value + "\n"@
}

/// The metrics of a node as text; `latency` is the time spent on requests, in seconds.
pub open spec fn metrics_spec(m: NodeMetrics, latency: Seq<char>) -> Seq<char> {
    metric("paqus_chain_height"@, "gauge"@, decimal_text(m.height as nat)) + metric(
        "paqus_peer_count"@,
        "gauge"@,
        decimal_text(m.peer_count as nat),
    ) + metric("paqus_mempool_size"@, "gauge"@, decimal_text(m.mempool_size as nat)) + metric(
        "paqus_block_validation_failures_total"@,
        "counter"@,
        decimal_text(m.validation_failures as nat),
    ) + metric("paqus_reorgs_total"@, "counter"@, decimal_text(m.reorgs as nat)) + metric(
        "paqus_rpc_requests_total"@,
        "counter"@,
        decimal_text(m.requests as nat),
    ) + metric("paqus_rpc_errors_total"@, "counter"@, decimal_text(m.errors as nat))
        + "# TYPE paqus_rpc_latency_seconds summary\npaqus_rpc_latency_seconds_sum "@ + latency
        + "\npaqus_rpc_latency_seconds_count "@ + decimal_text(m.requests as nat) + "\n"@ + metric(
        "paqus_mining_hashrate_hps"@,
        "gauge"@,
        decimal_text(m.hashrate as nat),
    ) + metric("paqus_database_size_bytes"@, "gauge"@, decimal_text(m.database_bytes as nat))
}

fn append_metric(text: &mut String, name: &str, kind: &str, value: u64)
    ensures
        final(text)@ == old(text)@ + metric(name@, kind@, decimal_text(value as nat)),
{
    text.append("# TYPE ");
    text.append(name);
    text.append(" ");
    text.append(kind);
    text.append("\n");
    text.append(name);
    text.append(" ");
    text.append(decimal(value).as_str());
    text.append("\n");
    assert(text@ =~= old(text)@ + metric(name@, kind@, decimal_text(value as nat)));
}

/// The metrics of a node as text.
pub fn metrics_text(m: &NodeMetrics, latency: &str) -> (r: String)
    ensures
        r@ == metrics_spec(*m, latency@),
{
    let mut text = String::new();
    append_metric(&mut text, "paqus_chain_height", "gauge", m.height);
    append_metric(&mut text, "paqus_peer_count", "gauge", m.peer_count);
    append_metric(&mut text, "paqus_mempool_size", "gauge", m.mempool_size);
    append_metric(
        &mut text,
        "paqus_block_validation_failures_total",
        "counter",
        m.validation_failures,
    );
    append_metric(&mut text, "paqus_reorgs_total", "counter", m.reorgs);
    append_metric(&mut text, "paqus_rpc_requests_total", "counter", m.requests);
    append_metric(&mut text, "paqus_rpc_errors_total", "counter", m.errors);
    text.append("# TYPE paqus_rpc_latency_seconds summary\npaqus_rpc_latency_seconds_sum ");
    text.append(latency);
    text.append("\npaqus_rpc_latency_seconds_count ");
    text.append(decimal(m.requests).as_str());
    text.append("\n");
    append_metric(&mut text, "paqus_mining_hashrate_hps", "gauge", m.hashrate);
    append_metric(&mut text, "paqus_database_size_bytes", "gauge", m.database_bytes);
    assert(text@ =~= metrics_spec(*m, latency@));
    text
}

} // verus!
