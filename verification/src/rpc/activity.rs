//! What an address has mined, sent and received.
use crate::chain::{protocol_models, Block, BlockModel};
use crate::ids::Address;
use crate::mempool::extension::lists_extension;
use crate::mempool::fee::capped;
use crate::mempool::pool::lists;
use crate::node::{tip_number, Node};
use crate::params::BLOCK_REWARD_MATURITY;
use crate::rpc::explorer::{
    as_pending, as_transfers, protocol_transaction_addresses, protocol_tx_response, report_all,
    touched_addresses, BlockLocation, Entry, ProtocolTxResponse,
};
use crate::text::{hex_encode, hex_text};
use crate::transaction::{ProtocolModel, SignedProtocolTransaction, SignedTransaction};
use vstd::prelude::*;
use vstd::string::*;

verus! {

/// A block that the index lists for a miner, and what the store holds at its height.
pub struct IndexedBlock {
    pub location: BlockLocation,
    pub block: Result<Option<Block>, String>,
}

/// A transaction that the index lists for an address, and what the store holds under its hash.
pub struct IndexedHit {
    pub location: BlockLocation,
    pub transaction: Result<Option<SignedProtocolTransaction>, String>,
}

/// A mined block as an explorer shows it.
#[derive(Clone, Debug, PartialEq, Eq)]
pub struct MinedBlockResponse {
    pub height: u64,
    pub hash: String,
    pub confirmations: u64,
    pub maturity_height: u64,
    pub matured: bool,
    pub subsidy: u64,
    pub fees: u64,
    pub total: u64,
    pub tx_count: usize,
    pub timestamp: u64,
}

/// What an address has mined, sent and received, newest first.
#[derive(Clone, Debug, PartialEq, Eq)]
pub struct AddressActivity {
    pub mined_blocks: Vec<MinedBlockResponse>,
    pub transactions: Vec<ProtocolTxResponse>,
}

/// How many blocks confirm a height, the block itself among them.
pub open spec fn confirmations_at(tip: int, height: u64) -> u64 {
    if tip >= height {
        capped(tip - height + 1) as u64
    } else {
        1
    }
}

/// How many blocks confirm a height, the block itself among them.
pub fn confirmations(tip: u64, height: u64) -> (r: u64)
    ensures
        r == confirmations_at(tip as int, height),
{
    tip.saturating_sub(height).saturating_add(1)
}

/// A block that an address mined, and the height that the index gives it.
pub ghost struct Mined {
    pub height: u64,
    pub block: BlockModel,
}

impl MinedBlockResponse {
    /// Shows a mined block below a tip.
    pub open spec fn shows(&self, mined: Mined, tip: int) -> bool {
        &&& mined.block.coinbase is Some
        &&& {
            let reward = mined.block.coinbase->Some_0;
            let maturity = capped(mined.height + BLOCK_REWARD_MATURITY) as u64;
            &&& self.height == mined.height
            &&& self.hash@ == hex_text(mined.block.hash.0@)
            &&& self.confirmations == confirmations_at(tip, mined.height)
            &&& self.maturity_height == maturity
            &&& self.matured == (tip >= maturity)
            &&& self.subsidy == reward.subsidy.0
            &&& self.fees == reward.fees.0
            &&& self.total == reward.reward()
            &&& self.tx_count == mined.block.transaction_count()
            &&& self.timestamp == mined.block.header.timestamp
        }
    }
}

/// The index and the store agree that an address mined a block and was paid for it.
pub open spec fn is_mined(listed: IndexedBlock, address: Address) -> bool {
    listed.block matches Ok(Some(block)) && block@.hash == listed.location.block_hash
        && block@.header.miner_address == address && block@.coinbase is Some
}

/// The blocks that an address mined, in the order of the index.
pub open spec fn mined_by(list: Seq<IndexedBlock>, address: Address) -> Seq<Mined>
    decreases list.len(),
{
    if list.len() == 0 {
        Seq::empty()
    } else {
        let before = mined_by(list.drop_last(), address);
        let last = list.last();
        if is_mined(last, address) {
            before.push(
                Mined {
                    height: last.location.block_height.0,
                    block: (last.block->Ok_0->Some_0)@,
                },
            )
        } else {
            before
        }
    }
}

/// The transactions that the store holds, in the order of the index.
pub open spec fn stored(list: Seq<IndexedHit>) -> Seq<Entry>
    decreases list.len(),
{
    if list.len() == 0 {
        Seq::empty()
    } else {
        let before = stored(list.drop_last());
        match list.last().transaction {
            Ok(Some(tx)) => before.push(
                Entry { tx: tx@, block: Some(list.last().location) },
            ),
            _ => before,
        }
    }
}

/// The first block that could not be loaded.
pub open spec fn block_error(list: Seq<IndexedBlock>) -> Option<Seq<char>>
    decreases list.len(),
{
    if list.len() == 0 {
        None
    } else {
        match block_error(list.drop_last()) {
            Some(error) => Some(error),
            None => match list.last().block {
                Err(error) => Some(error@),
                Ok(_) => None,
            },
        }
    }
}

/// The first transaction that could not be loaded.
pub open spec fn hit_error(list: Seq<IndexedHit>) -> Option<Seq<char>>
    decreases list.len(),
{
    if list.len() == 0 {
        None
    } else {
        match hit_error(list.drop_last()) {
            Some(error) => Some(error),
            None => match list.last().transaction {
                Err(error) => Some(error@),
                Ok(_) => None,
            },
        }
    }
}

/// The first thing that went wrong while index and store were read.
pub open spec fn reading_error(
    mined: Result<Vec<IndexedBlock>, String>,
    hits: Result<Vec<IndexedHit>, String>,
) -> Option<Seq<char>> {
    match mined {
        Err(error) => Some("failed to load miner block index: "@ + error@),
        Ok(blocks) => match block_error(blocks@) {
            Some(error) => Some("failed to load block: "@ + error),
            None => match hits {
                Err(error) => Some("failed to load address transaction index: "@ + error@),
                Ok(found) => match hit_error(found@) {
                    Some(error) => Some("failed to load indexed transaction: "@ + error),
                    None => None,
                },
            },
        },
    }
}

fn describe(prefix: &str, error: &String) -> (r: String)
    ensures
        r@ == prefix@ + error@,
{
    let mut text = String::from_str(prefix);
    text.append(error.as_str());
    text
}

/// Shows the blocks of a list from its end to its start.
pub open spec fn shown_backwards(
    responses: Seq<MinedBlockResponse>,
    mined: Seq<Mined>,
    tip: int,
) -> bool {
    &&& responses.len() == mined.len()
    &&& forall|i: int|
        0 <= i < mined.len() ==> (#[trigger] responses[i]).shows(
            mined[mined.len() - 1 - i],
            tip,
        )
}

/// Shows the blocks that an address mined, newest first, or why one could not be loaded.
fn mined_blocks(blocks: &Vec<IndexedBlock>, address: &Address, tip: u64) -> (r: Result<
    Vec<MinedBlockResponse>,
    String,
>)
    ensures
        match r {
            Ok(responses) => block_error(blocks@) is None && shown_backwards(
                responses@,
                mined_by(blocks@, *address),
                tip as int,
            ),
            Err(text) => block_error(blocks@) matches Some(error) && text@
                == "failed to load block: "@ + error,
        },
{
    let mut found: Vec<MinedBlockResponse> = Vec::new();
    let mut i: usize = 0;
    assert(blocks@.take(0) =~= Seq::empty());
    while i < blocks.len()
        invariant
            i <= blocks@.len(),
            block_error(blocks@.take(i as int)) is None,
            ({
                let mined = mined_by(blocks@.take(i as int), *address);
                &&& found@.len() == mined.len()
                &&& forall|j: int|
                    0 <= j < mined.len() ==> (#[trigger] found@[j]).shows(mined[j], tip as int)
            }),
        decreases blocks@.len() - i,
    {
        let listed = &blocks[i];
        let ghost so_far = blocks@.take(i + 1);
        proof {
            assert(so_far.drop_last() =~= blocks@.take(i as int));
            assert(so_far.last() == *listed);
        }
        match &listed.block {
            Err(error) => {
                proof {
                    lemma_block_error(blocks@, i + 1);
                }
                return Err(describe("failed to load block: ", error));
            },
            Ok(None) => {},
            Ok(Some(block)) => {
                let height: u64 = listed.location.block_height.0;
                if block.hash.same(&listed.location.block_hash) && block.header.miner_address.same(
                    address,
                ) {
                    match block.coinbase {
                        Some(coinbase) => {
                            let maturity_height: u64 = height.saturating_add(BLOCK_REWARD_MATURITY);
                            found.push(
                                MinedBlockResponse {
                                    height,
                                    hash: hex_encode(block.hash.0.as_slice()),
                                    confirmations: confirmations(tip, height),
                                    maturity_height,
                                    matured: tip >= maturity_height,
                                    subsidy: coinbase.subsidy.0,
                                    fees: coinbase.fees.0,
                                    total: coinbase.total().0,
                                    tx_count: block.transaction_count(),
                                    timestamp: block.header.timestamp,
                                },
                            );
                        },
                        None => {},
                    }
                }
            },
        }
        i = i + 1;
    }
    assert(blocks@.take(i as int) =~= blocks@);
    let ghost forward = found@;
    let mut backward: Vec<MinedBlockResponse> = Vec::new();
    let n: usize = found.len();
    while found.len() > 0
        invariant
            n == forward.len(),
            found@ == forward.take(found@.len() as int),
            found@.len() <= n,
            backward@.len() == n - found@.len(),
            forall|j: int| 0 <= j < backward@.len() ==> #[trigger] backward@[j] == forward[n - 1 - j],
        decreases found@.len(),
    {
        match found.pop() {
            Some(last) => {
                backward.push(last);
            },
            None => {},
        }
    }
    Ok(backward)
}

proof fn lemma_block_error(list: Seq<IndexedBlock>, n: int)
    requires
        0 <= n <= list.len(),
        block_error(list.take(n)) is Some,
    ensures
        block_error(list) == block_error(list.take(n)),
    decreases list.len() - n,
{
    if n == list.len() {
        assert(list.take(n) =~= list);
    } else {
        assert(list.take(n + 1).drop_last() =~= list.take(n));
        lemma_block_error(list, n + 1);
    }
}

proof fn lemma_hit_error(list: Seq<IndexedHit>, n: int)
    requires
        0 <= n <= list.len(),
        hit_error(list.take(n)) is Some,
    ensures
        hit_error(list) == hit_error(list.take(n)),
    decreases list.len() - n,
{
    if n == list.len() {
        assert(list.take(n) =~= list);
    } else {
        assert(list.take(n + 1).drop_last() =~= list.take(n));
        lemma_hit_error(list, n + 1);
    }
}

/// Shows the transactions that the store holds, or why one could not be loaded.
fn stored_transactions(hits: &Vec<IndexedHit>, now: Option<u64>) -> (r: Result<
    Vec<ProtocolTxResponse>,
    String,
>)
    ensures
        match r {
            Ok(responses) => hit_error(hits@) is None && report_all(
                responses@,
                stored(hits@),
                now,
            ),
            Err(text) => hit_error(hits@) matches Some(error) && text@
                == "failed to load indexed transaction: "@ + error,
        },
{
    let mut found: Vec<ProtocolTxResponse> = Vec::new();
    let mut i: usize = 0;
    assert(hits@.take(0) =~= Seq::empty());
    while i < hits.len()
        invariant
            i <= hits@.len(),
            hit_error(hits@.take(i as int)) is None,
            report_all(found@, stored(hits@.take(i as int)), now),
        decreases hits@.len() - i,
    {
        let hit = &hits[i];
        let ghost so_far = hits@.take(i + 1);
        proof {
            assert(so_far.drop_last() =~= hits@.take(i as int));
            assert(so_far.last() == *hit);
        }
        match &hit.transaction {
            Err(error) => {
                proof {
                    lemma_hit_error(hits@, i + 1);
                }
                return Err(describe("failed to load indexed transaction: ", error));
            },
            Ok(None) => {},
            Ok(Some(tx)) => {
                found.push(
                    protocol_tx_response(
                        tx,
                        Some(hit.location.block_height),
                        Some(hit.location.block_hash),
                        "confirmed",
                        now,
                    ),
                );
            },
        }
        i = i + 1;
    }
    assert(hits@.take(i as int) =~= hits@);
    Ok(found)
}

/// What both mempools hold for an address, each part in hash order.
pub open spec fn lists_pending_for(
    transfers: Seq<SignedTransaction>,
    others: Seq<ProtocolModel>,
    node_pool: crate::mempool::pool::Pool,
    extension: crate::mempool::extension::ExtensionPool,
    address: Address,
) -> bool {
    &&& lists(
        transfers,
        node_pool,
        |tx: SignedTransaction| tx.transaction.from == address || tx.transaction.to == address,
    )
    &&& lists_extension(
        others,
        extension,
        |tx: ProtocolModel| touched_addresses(tx).contains(address),
    )
}

/// The transactions of an address: those of blocks, after them the pending transfers, and last all
/// other pending ones.
pub open spec fn history(
    hits: Seq<IndexedHit>,
    transfers: Seq<SignedTransaction>,
    others: Seq<ProtocolModel>,
) -> Seq<Entry> {
    stored(hits) + as_pending(as_transfers(transfers)) + as_pending(others)
}

/// The transactions of the extension mempool that touch an address, in hash order.
fn extension_transactions_for<V>(node: &Node<V>, address: &Address) -> (r: Vec<
    SignedProtocolTransaction,
>)
    requires
        node.wf(),
    ensures
        lists_extension(
            protocol_models(r@),
            node.extension_mempool.pool(),
            |tx: ProtocolModel| touched_addresses(tx).contains(*address),
        ),
{
    let all = node.extension_mempool.transactions();
    let ghost models = protocol_models(all@);
    let ghost pool = node.extension_mempool.pool();
    let ghost wanted = |tx: ProtocolModel| touched_addresses(tx).contains(*address);
    let mut kept: Vec<SignedProtocolTransaction> = Vec::new();
    let mut i: usize = 0;
    while i < all.len()
        invariant
            models == protocol_models(all@),
            lists_extension(models, pool, |tx: ProtocolModel| true),
            wanted == (|tx: ProtocolModel| touched_addresses(tx).contains(*address)),
            i <= all@.len(),
            forall|a: int, b: int|
                0 <= a < b < kept@.len() ==> crate::order::Sortable::before(
                    (#[trigger] kept@[a])@.hash(),
                    (#[trigger] kept@[b])@.hash(),
                ),
            forall|a: int|
                0 <= a < kept@.len() ==> wanted((#[trigger] kept@[a])@) && exists|j: int|
                    0 <= j < i && kept@[a]@ == #[trigger] models[j],
            forall|j: int|
                0 <= j < i && wanted(#[trigger] models[j]) ==> exists|a: int|
                    0 <= a < kept@.len() && (#[trigger] kept@[a])@ == models[j],
        decreases all@.len() - i,
    {
        let addresses = protocol_transaction_addresses(&all[i]);
        let mut touched = false;
        let mut k: usize = 0;
        while k < addresses.len()
            invariant
                k <= addresses@.len(),
                touched == exists|j: int| 0 <= j < k && #[trigger] addresses@[j] == *address,
            decreases addresses@.len() - k,
        {
            if addresses[k].same(address) {
                touched = true;
            }
            k = k + 1;
        }
        let ghost before = kept@;
        assert(models[i as int] == all@[i as int]@);
        assert(touched == wanted(models[i as int]));
        if touched {
            kept.push(all[i].duplicate());
        }
        proof {
            assert forall|a: int, b: int| 0 <= a < b < kept@.len() implies crate::order::Sortable::before(
                (#[trigger] kept@[a])@.hash(),
                (#[trigger] kept@[b])@.hash(),
            ) by {
                assert(kept@[a] == before[a]);
                if b < before.len() {
                    assert(kept@[b] == before[b]);
                } else {
                    let j = choose|j: int| 0 <= j < i && before[a]@ == #[trigger] models[j];
                    assert(crate::order::Sortable::before(models[j].hash(), models[i as int].hash()));
                }
            }
            assert forall|a: int| 0 <= a < kept@.len() implies wanted((#[trigger] kept@[a])@)
                && exists|j: int| 0 <= j < i + 1 && kept@[a]@ == #[trigger] models[j] by {
                if a < before.len() {
                    assert(kept@[a] == before[a]);
                    let j = choose|j: int| 0 <= j < i && before[a]@ == #[trigger] models[j];
                    assert(kept@[a]@ == models[j]);
                } else {
                    assert(kept@[a]@ == models[i as int]);
                }
            }
            assert forall|j: int| 0 <= j < i + 1 && wanted(#[trigger] models[j]) implies exists|
                a: int,
            | 0 <= a < kept@.len() && (#[trigger] kept@[a])@ == models[j] by {
                if j < i {
                    let a = choose|a: int|
                        0 <= a < before.len() && (#[trigger] before[a])@ == models[j];
                    assert(kept@[a]@ == models[j]);
                } else {
                    assert(kept@[before.len() as int]@ == models[j]);
                }
            }
        }
        i = i + 1;
    }
    proof {
        let list = protocol_models(kept@);
        assert forall|a: int| 0 <= a < list.len() implies {
            let tx = #[trigger] list[a];
            pool.contains_key(tx.hash()) && pool[tx.hash()] == tx && wanted(tx)
        } by {
            assert(list[a] == kept@[a]@);
            let j = choose|j: int| 0 <= j < i && kept@[a]@ == #[trigger] models[j];
            assert(pool.contains_key(models[j].hash()));
        }
        assert forall|h: crate::ids::TransactionHash| #[trigger] pool.contains_key(h) && wanted(
            pool[h],
        ) implies list.contains(pool[h]) by {
            assert(models.contains(pool[h]));
            let j = models.index_of(pool[h]);
            assert(wanted(models[j]));
            let a = choose|a: int| 0 <= a < kept@.len() && (#[trigger] kept@[a])@ == models[j];
            assert(list[a] == pool[h]);
        }
        assert forall|a: int, b: int| 0 <= a < b < list.len() implies crate::order::Sortable::before(
            (#[trigger] list[a]).hash(),
            (#[trigger] list[b]).hash(),
        ) by {
            assert(list[a] == kept@[a]@ && list[b] == kept@[b]@);
        }
    }
    kept
}

/// The entries of a list from its end to its start.
fn backwards(list: Vec<ProtocolTxResponse>) -> (r: Vec<ProtocolTxResponse>)
    ensures
        r@ == list@.reverse(),
{
    let ghost forward = list@;
    let mut rest = list;
    let n: usize = rest.len();
    let mut backward: Vec<ProtocolTxResponse> = Vec::new();
    while rest.len() > 0
        invariant
            n == forward.len(),
            rest@ == forward.take(rest@.len() as int),
            rest@.len() <= n,
            backward@.len() == n - rest@.len(),
            forall|j: int| 0 <= j < backward@.len() ==> #[trigger] backward@[j] == forward[n - 1 - j],
        decreases rest@.len(),
    {
        match rest.pop() {
            Some(last) => {
                backward.push(last);
            },
            None => {},
        }
    }
    assert(backward@ =~= forward.reverse());
    backward
}

/// Shows what an address has mined, sent and received, newest first. `mined` and `hits` are what
/// index and store hold for the address; the first failure to read them is reported.
pub fn address_activity<V>(
    node: &Node<V>,
    address: &Address,
    mined: Result<Vec<IndexedBlock>, String>,
    hits: Result<Vec<IndexedHit>, String>,
    now: Option<u64>,
) -> (r: Result<AddressActivity, String>)
    requires
        node.wf(),
    ensures
        match r {
            Err(text) => reading_error(mined, hits) == Some(text@),
            Ok(activity) => {
                &&& reading_error(mined, hits) is None
                &&& shown_backwards(
                    activity.mined_blocks@,
                    mined_by(mined->Ok_0@, *address),
                    tip_number(node.ledger.tip().0),
                )
                &&& exists|transfers: Seq<SignedTransaction>, others: Seq<ProtocolModel>|
                    #[trigger] lists_pending_for(
                        transfers,
                        others,
                        node.mempool.pool(),
                        node.extension_mempool.pool(),
                        *address,
                    ) && report_all(
                        activity.transactions@,
                        history(hits->Ok_0@, transfers, others).reverse(),
                        now,
                    )
            },
        },
{
    let tip: u64 = node.tip_height_or_zero();
    let blocks = match &mined {
        Err(error) => {
            return Err(describe("failed to load miner block index: ", error));
        },
        Ok(blocks) => blocks,
    };
    let mined_responses = match mined_blocks(blocks, address, tip) {
        Err(text) => {
            return Err(text);
        },
        Ok(responses) => responses,
    };
    let found = match &hits {
        Err(error) => {
            return Err(describe("failed to load address transaction index: ", error));
        },
        Ok(found) => found,
    };
    let mut responses = match stored_transactions(found, now) {
        Err(text) => {
            return Err(text);
        },
        Ok(responses) => responses,
    };
    let transfers = node.mempool.transactions_for_address(address);
    let others = extension_transactions_for(node, address);
    let ghost entries = history(found@, transfers@, protocol_models(others@));
    let ghost base = responses@.len();
    assert(entries.take(base as int) =~= stored(found@));
    let mut i: usize = 0;
    while i < transfers.len()
        invariant
            i <= transfers@.len(),
            entries == history(found@, transfers@, protocol_models(others@)),
            base == stored(found@).len(),
            report_all(responses@, entries.take(base + i), now),
        decreases transfers@.len() - i,
    {
        let tx = SignedProtocolTransaction::Transfer(transfers[i]);
        responses.push(protocol_tx_response(&tx, None, None, "pending", now));
        i = i + 1;
    }
    let ghost base2 = base + transfers@.len();
    let mut k: usize = 0;
    while k < others.len()
        invariant
            k <= others@.len(),
            entries == history(found@, transfers@, protocol_models(others@)),
            base2 == stored(found@).len() + transfers@.len(),
            report_all(responses@, entries.take(base2 + k), now),
        decreases others@.len() - k,
    {
        responses.push(protocol_tx_response(&others[k], None, None, "pending", now));
        k = k + 1;
    }
    assert(entries.take(base2 + k) =~= entries);
    let transactions = backwards(responses);
    assert(report_all(transactions@, entries.reverse(), now));
    assert(lists_pending_for(
        transfers@,
        protocol_models(others@),
        node.mempool.pool(),
        node.extension_mempool.pool(),
        *address,
    ));
    Ok(AddressActivity { mined_blocks: mined_responses, transactions })
}

/// A block matures once, and stays mature as the chain grows.
pub proof fn maturity_lasts(first: MinedBlockResponse, later: MinedBlockResponse, mined: Mined, tip: int, longer: int)
    requires
        first.shows(mined, tip),
        later.shows(mined, longer),
        tip <= longer,
        first.matured,
    ensures
        later.matured,
        first.confirmations <= later.confirmations,
{
}

} // verus!
