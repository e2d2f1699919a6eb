//! Blocks as an explorer shows them.
use crate::chain::{copy_list, protocol_models, Block, BlockModel, CoinbaseTransaction, GenesisAllocation};
use crate::command::display::{abbreviated, hash_text, short_hash};
use crate::ids::Address;
use crate::node::{tip_number, Node};
use crate::params::BLOCK_TIME;
use crate::rpc::activity::{confirmations, confirmations_at};
use crate::rpc::explorer::{
    age, block_protocol_transactions, moved_units, protocol_transaction_summary,
    protocol_tx_response, ProtocolTxResponse,
};
use crate::text::{hex_encode, hex_text};
use crate::transaction::ProtocolModel;
use vstd::prelude::*;

verus! {

/// A block's reward as an explorer shows it.
#[derive(Clone, Copy, Debug, PartialEq, Eq)]
pub struct CoinbaseResponse {
    pub to: Address,
    pub subsidy: u64,
    pub fees: u64,
    pub total: u64,
}

impl CoinbaseResponse {
    /// Shows a reward.
    pub open spec fn shows(&self, coinbase: CoinbaseTransaction) -> bool {
        &&& self.to == coinbase.to
        &&& self.subsidy == coinbase.subsidy.0
        &&& self.fees == coinbase.fees.0
        &&& self.total == coinbase.reward()
    }
}

/// A block as an explorer shows it.
#[derive(Clone, Debug, PartialEq, Eq)]
pub struct BlockResponse {
    pub version: u8,
    pub height: u64,
    pub hash: String,
    pub short_hash: String,
    pub previous_hash: String,
    pub merkle_root: String,
    pub witness_root: String,
    pub state_root: String,
    pub miner_address: Address,
    pub difficulty: u32,
    pub timestamp: u64,
    pub age_secs: u64,
    pub confirmations: u64,
    pub block_time_secs: Option<u64>,
    pub target_block_time_secs: u64,
    pub block_time_delta_secs: Option<i64>,
    pub value_moved: u64,
    pub nonce: u64,
    pub tx_count: usize,
    pub size: usize,
    pub stripped_size: usize,
    pub witness_size: usize,
    pub weight: usize,
    pub coinbase: Option<CoinbaseResponse>,
    pub genesis_allocations: Vec<GenesisAllocation>,
    pub transactions: Vec<ProtocolTxResponse>,
}

/// What a list of transactions moves; one whose amount does not fit counts for nothing.
pub open spec fn total_moved(list: Seq<ProtocolModel>) -> int
    decreases list.len(),
{
    if list.len() == 0 {
        0
    } else {
        total_moved(list.drop_last()) + (match moved_units(list.last()) {
            Some(amount) => amount as int,
            None => 0,
        })
    }
}

proof fn lemma_moved_grows(list: Seq<ProtocolModel>, n: int)
    requires
        0 <= n <= list.len(),
    ensures
        0 <= total_moved(list.take(n)) <= total_moved(list),
    decreases list.len() - n, n,
{
    if n == list.len() {
        assert(list.take(n) =~= list);
        lemma_moved_nonnegative(list);
    } else {
        assert(list.take(n + 1).drop_last() =~= list.take(n));
        lemma_moved_grows(list, n + 1);
        lemma_moved_nonnegative(list.take(n));
    }
}

proof fn lemma_moved_nonnegative(list: Seq<ProtocolModel>)
    ensures
        total_moved(list) >= 0,
    decreases list.len(),
{
    if list.len() > 0 {
        lemma_moved_nonnegative(list.drop_last());
    }
}

/// What the transactions of a block move, if the sum fits.
pub fn block_value(block: &Block) -> (r: Option<u64>)
    ensures
        r == (if total_moved(block@.all_transactions()) <= u64::MAX {
            Some(total_moved(block@.all_transactions()) as u64)
        } else {
            None
        }),
{
    let list = block_protocol_transactions(block);
    let ghost models = protocol_models(list@);
    let mut sum: u64 = 0;
    let mut i: usize = 0;
    assert(models.take(0) =~= Seq::empty());
    while i < list.len()
        invariant
            models == protocol_models(list@),
            models == block@.all_transactions(),
            i <= list@.len(),
            sum == total_moved(models.take(i as int)),
        decreases list@.len() - i,
    {
        proof {
            assert(models.take(i + 1).drop_last() =~= models.take(i as int));
            assert(models.take(i + 1).last() == list@[i as int]@);
            lemma_moved_grows(models, i + 1);
        }
        match protocol_transaction_summary(&list[i]).amount {
            Some(amount) => match sum.checked_add(amount) {
                Some(more) => {
                    sum = more;
                },
                None => {
                    return None;
                },
            },
            None => {},
        }
        i = i + 1;
    }
    assert(models.take(i as int) =~= models);
    Some(sum)
}

/// Seconds between two blocks, zero where the clock went backwards.
pub open spec fn elapsed(earlier: u64, later: u64) -> u64 {
    if later >= earlier {
        (later - earlier) as u64
    } else {
        0
    }
}

/// A number of seconds as a signed number: the upper half of the range stands for negative ones.
pub open spec fn signed(seconds: u64) -> int {
    if seconds <= i64::MAX {
        seconds as int
    } else {
        seconds - u64::MAX - 1
    }
}

/// How much longer than planned a block took, if that can be shown.
pub open spec fn lateness(earlier: u64, later: u64) -> Option<i64> {
    let delta = signed(elapsed(earlier, later)) - BLOCK_TIME;
    if delta >= i64::MIN {
        Some(delta as i64)
    } else {
        None
    }
}

/// How much longer than planned a block took, if that can be shown.
pub fn elapsed_delta(earlier: u64, later: u64) -> (r: Option<i64>)
    ensures
        r == lateness(earlier, later),
{
    let seconds: u64 = later.saturating_sub(earlier);
    let signed_seconds: i64 = if seconds <= i64::MAX as u64 {
        seconds as i64
    } else {
        -((u64::MAX - seconds) as i64) - 1
    };
    signed_seconds.checked_sub(BLOCK_TIME as i64)
}

impl BlockResponse {
    /// Shows the header, hash, sizes and rewards of a block.
    pub open spec fn shows_header(&self, block: BlockModel) -> bool {
        &&& self.version == block.header.version
        &&& self.height == block.header.height.0
        &&& self.hash@ == hex_text(block.hash.0@)
        &&& self.short_hash@ == abbreviated(hash_text(Some(block.hash.0)))
        &&& self.previous_hash@ == hex_text(block.header.previous_hash.0@)
        &&& self.merkle_root@ == hex_text(block.header.merkle_root@)
        &&& self.witness_root@ == hex_text(block.header.witness_root@)
        &&& self.state_root@ == hex_text(block.header.state_root@)
        &&& self.miner_address == block.header.miner_address
        &&& self.difficulty == block.header.difficulty
        &&& self.timestamp == block.header.timestamp
        &&& self.nonce == block.header.nonce.0
        &&& self.tx_count == block.transaction_count()
        &&& self.size == block.sizes.serialized
        &&& self.stripped_size == block.sizes.stripped
        &&& self.witness_size == block.sizes.witness
        &&& self.weight == block.sizes.weight
        &&& match block.coinbase {
            Some(coinbase) => self.coinbase matches Some(shown) && shown.shows(coinbase),
            None => self.coinbase is None,
        }
        &&& self.genesis_allocations@ == block.genesis_allocations
    }

    /// Shows how a block stands in time: below which tip, after which block, and how long ago.
    pub open spec fn shows_time(
        &self,
        block: BlockModel,
        tip: int,
        previous: Option<u64>,
        now: Option<u64>,
    ) -> bool {
        &&& self.age_secs == age(now, block.header.timestamp)
        &&& self.confirmations == confirmations_at(tip, block.header.height.0)
        &&& self.target_block_time_secs == BLOCK_TIME
        &&& match previous {
            Some(earlier) => {
                &&& self.block_time_secs == Some(elapsed(earlier, block.header.timestamp))
                &&& self.block_time_delta_secs is Some
                &&& self.block_time_delta_secs == lateness(earlier, block.header.timestamp)
            },
            None => self.block_time_secs is None && self.block_time_delta_secs is None,
        }
    }

    /// Shows the transactions of a block in their order.
    pub open spec fn shows_transactions(
        &self,
        block: BlockModel,
        status: Seq<char>,
        now: Option<u64>,
    ) -> bool {
        let list = block.all_transactions();
        &&& self.value_moved == total_moved(list)
        &&& self.transactions@.len() == list.len()
        &&& forall|i: int|
            0 <= i < list.len() ==> {
                let shown = #[trigger] self.transactions@[i];
                shown.shows(list[i], now) && shown.placed(
                    Some(block.header.height),
                    Some(block.hash),
                    status,
                )
            }
    }
}

/// The status of a block's transactions.
pub open spec fn status_text(status: Option<&'static str>) -> Seq<char> {
    match status {
        Some(word) => word@,
        None => "confirmed"@,
    }
}

/// Shows a block. `previous` is the time of the block before it, where that block is stored.
pub fn block_response<V>(
    node: &Node<V>,
    block: &Block,
    previous: Option<u64>,
    status: Option<&'static str>,
    now: Option<u64>,
) -> (r: BlockResponse)
    requires
        total_moved(block@.all_transactions()) <= u64::MAX,
        previous matches Some(earlier) ==> lateness(earlier, block@.header.timestamp) is Some,
    ensures
        r.shows_header(block@),
        r.shows_time(block@, tip_number(node.ledger.tip().0), previous, now),
        r.shows_transactions(block@, status_text(status), now),
{
    let tip: u64 = node.tip_height_or_zero();
    let height: u64 = block.header.height.0;
    let timestamp: u64 = block.header.timestamp;
    let word = match status {
        Some(word) => word,
        None => "confirmed",
    };
    let list = block_protocol_transactions(block);
    let ghost models = protocol_models(list@);
    let mut transactions: Vec<ProtocolTxResponse> = Vec::new();
    let mut i: usize = 0;
    while i < list.len()
        invariant
            models == protocol_models(list@),
            i <= list@.len(),
            transactions@.len() == i,
            forall|j: int|
                0 <= j < i ==> {
                    let shown = #[trigger] transactions@[j];
                    shown.shows(models[j], now) && shown.placed(
                        Some(block@.header.height),
                        Some(block@.hash),
                        word@,
                    )
                },
        decreases list@.len() - i,
    {
        transactions.push(
            protocol_tx_response(
                &list[i],
                Some(block.header.height),
                Some(block.hash),
                word,
                now,
            ),
        );
        i = i + 1;
    }
    proof {
        lemma_moved_nonnegative(models);
    }
    let value_moved: u64 = match block_value(block) {
        Some(sum) => sum,
        None => 0,
    };
    let block_time_secs = match previous {
        Some(earlier) => Some(timestamp.saturating_sub(earlier)),
        None => None,
    };
    let block_time_delta_secs = match previous {
        Some(earlier) => elapsed_delta(earlier, timestamp),
        None => None,
    };
    BlockResponse {
        version: block.header.version,
        height,
        hash: hex_encode(block.hash.0.as_slice()),
        short_hash: short_hash(Some(block.hash.0)),
        previous_hash: hex_encode(block.header.previous_hash.0.as_slice()),
        merkle_root: hex_encode(block.header.merkle_root.as_slice()),
        witness_root: hex_encode(block.header.witness_root.as_slice()),
        state_root: hex_encode(block.header.state_root.as_slice()),
        miner_address: block.header.miner_address,
        difficulty: block.header.difficulty,
        timestamp,
        age_secs: match now {
            Some(now) => now.saturating_sub(timestamp),
            None => 0,
        },
        confirmations: confirmations(tip, height),
        block_time_secs,
        target_block_time_secs: BLOCK_TIME,
        block_time_delta_secs,
        value_moved,
        nonce: block.header.nonce.0,
        tx_count: block.transaction_count(),
        size: block.sizes.serialized,
        stripped_size: block.sizes.stripped,
        witness_size: block.sizes.witness,
        weight: block.sizes.weight,
        coinbase: match block.coinbase {
            Some(coinbase) => Some(
                CoinbaseResponse {
                    to: coinbase.to,
                    subsidy: coinbase.subsidy.0,
                    fees: coinbase.fees.0,
                    total: coinbase.total().0,
                },
            ),
            None => None,
        },
        genesis_allocations: copy_list(&block.genesis_allocations),
        transactions,
    }
}

/// The heights of the latest ten blocks, from the tip downwards.
pub fn latest_heights(tip: u64) -> (r: Vec<u64>)
    ensures
        r@.len() == (if tip < 9 {
            tip + 1
        } else {
            10
        }),
        forall|i: int| 0 <= i < r@.len() ==> #[trigger] r@[i] == tip - i,
{
    let mut heights: Vec<u64> = Vec::new();
    heights.push(tip);
    let mut count: u64 = 1;
    while count < 10 && count <= tip
        invariant
            1 <= count <= 10,
            count <= tip + 1,
            heights@.len() == count,
            forall|i: int| 0 <= i < count ==> #[trigger] heights@[i] == tip - i,
        decreases 10 - count,
    {
        heights.push(tip - count);
        count = count + 1;
    }
    heights
}

} // verus!
