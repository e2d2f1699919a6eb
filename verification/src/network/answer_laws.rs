//! What a peer is answered, item by item.
use crate::chain::{block_models, protocol_models, Block, BlockModel};
use crate::ids::{BlockHash, Height, TransactionHash};
use crate::mempool::pool::{lists_all, Pool};
use crate::network::handler::{
    ancestor_in, answers, found_blocks, found_transactions, height_at, missing_items, HandlerAction,
};
use crate::network::message::{
    mismatch, ChainParams, InventoryItem, NetworkMessage, RejectReason, TipInfo, VersionInfo,
};
use crate::node::Node;
use crate::order::Sortable;
use crate::transaction::{ProtocolModel, SignedProtocolTransaction, SignedTransaction};
use vstd::prelude::*;

verus! {

/// The places of a list of `n` entries that are wanted, all of them, in ascending order.
pub open spec fn are_the_places(places: Seq<int>, n: int, wanted: spec_fn(int) -> bool) -> bool {
    &&& forall|j: int, k: int|
        0 <= j < k < places.len() ==> #[trigger] places[j] < #[trigger] places[k]
    &&& forall|j: int|
        0 <= j < places.len() ==> 0 <= #[trigger] places[j] < n && wanted(places[j])
    &&& forall|i: int| 0 <= i < n && #[trigger] wanted(i) ==> places.contains(i)
}

pub(crate) proof fn lemma_one_more_place(
    places: Seq<int>,
    n: int,
    shorter: spec_fn(int) -> bool,
    wanted: spec_fn(int) -> bool,
) -> (r: Seq<int>)
    requires
        n >= 0,
        are_the_places(places, n, shorter),
        forall|i: int| 0 <= i < n ==> shorter(i) == #[trigger] wanted(i),
    ensures
        r == (if wanted(n) {
            places.push(n)
        } else {
            places
        }),
        are_the_places(r, n + 1, wanted),
{
    let r = if wanted(n) {
        places.push(n)
    } else {
        places
    };
    assert forall|i: int| 0 <= i < n + 1 && #[trigger] wanted(i) implies r.contains(i) by {
        if i < n {
            assert(shorter(i));
            let j = places.index_of(i);
            assert(r[j] == i);
        } else {
            assert(r[places.len() as int] == n);
        }
    }
    r
}

/// A place asks for a block that is at hand.
pub open spec fn asks_for_a_known_block(
    known: Map<BlockHash, BlockModel>,
    items: Seq<InventoryItem>,
    i: int,
) -> bool {
    items[i] is Block && known.contains_key(items[i]->Block_0)
}

/// A place asks for a transaction that is pending.
pub open spec fn asks_for_a_pending_transaction(
    pool: Pool,
    items: Seq<InventoryItem>,
    i: int,
) -> bool {
    items[i] is Transaction && pool.contains_key(items[i]->Transaction_0)
}

/// A place offers a block or a transaction that is not at hand.
pub open spec fn offers_something_new(
    known: Map<BlockHash, BlockModel>,
    pool: Pool,
    items: Seq<InventoryItem>,
    i: int,
) -> bool {
    ||| items[i] is Block && !known.contains_key(items[i]->Block_0)
    ||| items[i] is Transaction && !pool.contains_key(items[i]->Transaction_0)
}

/// Every requested block that is at hand is found, as often and in the order in which it is asked for.
pub proof fn every_known_block_is_found(
    known: Map<BlockHash, BlockModel>,
    items: Seq<InventoryItem>,
) -> (places: Seq<int>)
    ensures
        are_the_places(
            places,
            items.len() as int,
            |i: int| asks_for_a_known_block(known, items, i),
        ),
        found_blocks(known, items).len() == places.len(),
        forall|j: int|
            0 <= j < places.len() ==> found_blocks(known, items)[j] == known[items[#[trigger] places[j]]->Block_0],
    decreases items.len(),
{
    if items.len() == 0 {
        Seq::empty()
    } else {
        let before = every_known_block_is_found(known, items.drop_last());
        let n = items.len() - 1;
        let places = lemma_one_more_place(
            before,
            n,
            |i: int| asks_for_a_known_block(known, items.drop_last(), i),
            |i: int| asks_for_a_known_block(known, items, i),
        );
        assert forall|j: int| 0 <= j < places.len() implies found_blocks(known, items)[j]
            == known[items[#[trigger] places[j]]->Block_0] by {
            if j < before.len() {
                assert(places[j] == before[j]);
                assert(items.drop_last()[before[j]] == items[before[j]]);
            }
        }
        places
    }
}

/// Every requested transaction that is pending is found, as often and in the order in which it is
/// asked for.
pub proof fn every_pending_transaction_is_found(pool: Pool, items: Seq<InventoryItem>) -> (places:
    Seq<int>)
    ensures
        are_the_places(
            places,
            items.len() as int,
            |i: int| asks_for_a_pending_transaction(pool, items, i),
        ),
        found_transactions(pool, items).len() == places.len(),
        forall|j: int|
            0 <= j < places.len() ==> found_transactions(pool, items)[j] == ProtocolModel::Transfer(
                pool[items[#[trigger] places[j]]->Transaction_0].transaction,
            ),
    decreases items.len(),
{
    if items.len() == 0 {
        Seq::empty()
    } else {
        let before = every_pending_transaction_is_found(pool, items.drop_last());
        let n = items.len() - 1;
        let places = lemma_one_more_place(
            before,
            n,
            |i: int| asks_for_a_pending_transaction(pool, items.drop_last(), i),
            |i: int| asks_for_a_pending_transaction(pool, items, i),
        );
        assert forall|j: int| 0 <= j < places.len() implies found_transactions(pool, items)[j]
            == ProtocolModel::Transfer(
            pool[items[#[trigger] places[j]]->Transaction_0].transaction,
        ) by {
            if j < before.len() {
                assert(places[j] == before[j]);
                assert(items.drop_last()[before[j]] == items[before[j]]);
            }
        }
        places
    }
}

/// Everything on offer that is not at hand is missing, as often and in the order in which it is
/// offered.
pub proof fn everything_new_is_missing(
    known: Map<BlockHash, BlockModel>,
    pool: Pool,
    items: Seq<InventoryItem>,
) -> (places: Seq<int>)
    ensures
        are_the_places(
            places,
            items.len() as int,
            |i: int| offers_something_new(known, pool, items, i),
        ),
        missing_items(known, pool, items).len() == places.len(),
        forall|j: int|
            0 <= j < places.len() ==> missing_items(known, pool, items)[j]
                == items[#[trigger] places[j]],
    decreases items.len(),
{
    if items.len() == 0 {
        Seq::empty()
    } else {
        let before = everything_new_is_missing(known, pool, items.drop_last());
        let n = items.len() - 1;
        let places = lemma_one_more_place(
            before,
            n,
            |i: int| offers_something_new(known, pool, items.drop_last(), i),
            |i: int| offers_something_new(known, pool, items, i),
        );
        assert forall|j: int| 0 <= j < places.len() implies missing_items(known, pool, items)[j]
            == items[#[trigger] places[j]] by {
            if j < before.len() {
                assert(places[j] == before[j]);
                assert(items.drop_last()[before[j]] == items[before[j]]);
            }
        }
        places
    }
}

/// Blocks are what a place of a request asks for.
pub open spec fn blocks_answer(
    blocks: Seq<Block>,
    known: Map<BlockHash, BlockModel>,
    items: Seq<InventoryItem>,
    places: Seq<int>,
) -> bool {
    &&& are_the_places(
        places,
        items.len() as int,
        |i: int| asks_for_a_known_block(known, items, i),
    )
    &&& blocks.len() == places.len()
    &&& forall|j: int|
        0 <= j < blocks.len() ==> (#[trigger] blocks[j])@ == known[items[places[j]]->Block_0]
}

/// Transactions are what a place of a request asks for.
pub open spec fn transactions_answer(
    list: Seq<SignedProtocolTransaction>,
    pool: Pool,
    items: Seq<InventoryItem>,
    places: Seq<int>,
) -> bool {
    &&& are_the_places(
        places,
        items.len() as int,
        |i: int| asks_for_a_pending_transaction(pool, items, i),
    )
    &&& list.len() == places.len()
    &&& forall|j: int|
        0 <= j < list.len() ==> #[trigger] list[j] == SignedProtocolTransaction::Transfer(
            pool[items[places[j]]->Transaction_0].transaction,
        )
}

/// A request for data is answered with every requested block that is at hand, in the order of the
/// request. If none is, it is answered with every requested transaction that is pending, in that order
/// too; and if there is none of these either, not at all.
pub proof fn requests_for_data_are_answered_in_full<V>(
    node: &Node<V>,
    params: ChainParams,
    items: Vec<InventoryItem>,
    action: HandlerAction,
)
    requires
        answers(node, params, NetworkMessage::GetData(items), action),
    ensures
        ({
            let known = node.cache.hash_map();
            let pool = node.mempool.pool();
            if exists|i: int|
                0 <= i < items@.len() && #[trigger] asks_for_a_known_block(known, items@, i) {
                &&& action is Reply
                &&& action->Reply_0 is Some
                &&& action->Reply_0->Some_0 is Blocks
                &&& exists|places: Seq<int>| #[trigger]
                    blocks_answer(action->Reply_0->Some_0->Blocks_0@, known, items@, places)
            } else if exists|i: int|
                0 <= i < items@.len() && #[trigger] asks_for_a_pending_transaction(
                    pool,
                    items@,
                    i,
                ) {
                &&& action is Reply
                &&& action->Reply_0 is Some
                &&& action->Reply_0->Some_0 is Transactions
                &&& exists|places: Seq<int>| #[trigger]
                    transactions_answer(
                        action->Reply_0->Some_0->Transactions_0@,
                        pool,
                        items@,
                        places,
                    )
            } else {
                action == HandlerAction::Reply(None)
            }
        }),
{
    let known = node.cache.hash_map();
    let pool = node.mempool.pool();
    let blocks_at = every_known_block_is_found(known, items@);
    let transactions_at = every_pending_transaction_is_found(pool, items@);
    let asked = |i: int| asks_for_a_known_block(known, items@, i);
    let awaited = |i: int| asks_for_a_pending_transaction(pool, items@, i);
    if exists|i: int| 0 <= i < items@.len() && #[trigger] asks_for_a_known_block(known, items@, i) {
        let i = choose|i: int|
            0 <= i < items@.len() && #[trigger] asks_for_a_known_block(known, items@, i);
        assert(asked(i));
        assert(blocks_at.contains(i));
        let blocks = action->Reply_0->Some_0->Blocks_0@;
        assert(block_models(blocks).len() == blocks.len());
        assert forall|j: int| 0 <= j < blocks.len() implies (#[trigger] blocks[j])@
            == known[items@[blocks_at[j]]->Block_0] by {
            assert(block_models(blocks)[j] == blocks[j]@);
        }
        assert(blocks_answer(blocks, known, items@, blocks_at));
    } else {
        if blocks_at.len() > 0 {
            assert(asked(blocks_at[0]));
            assert(asks_for_a_known_block(known, items@, blocks_at[0]));
        }
        if exists|i: int|
            0 <= i < items@.len() && #[trigger] asks_for_a_pending_transaction(pool, items@, i) {
            let i = choose|i: int|
                0 <= i < items@.len() && #[trigger] asks_for_a_pending_transaction(
                    pool,
                    items@,
                    i,
                );
            assert(awaited(i));
            assert(transactions_at.contains(i));
            let list = action->Reply_0->Some_0->Transactions_0@;
            assert(protocol_models(list).len() == list.len());
            assert forall|j: int| 0 <= j < list.len() implies #[trigger] list[j]
                == SignedProtocolTransaction::Transfer(
                pool[items@[transactions_at[j]]->Transaction_0].transaction,
            ) by {
                assert(protocol_models(list)[j] == list[j]@);
            }
            assert(transactions_answer(list, pool, items@, transactions_at));
        } else if transactions_at.len() > 0 {
            assert(awaited(transactions_at[0]));
            assert(asks_for_a_pending_transaction(pool, items@, transactions_at[0]));
        }
    }
}

/// If no requested block is at hand, the transaction of every requested hash that is pending stands in
/// the answer.
pub proof fn every_requested_pending_transaction_is_answered<V>(
    node: &Node<V>,
    params: ChainParams,
    items: Vec<InventoryItem>,
    action: HandlerAction,
    i: int,
    hash: TransactionHash,
)
    requires
        answers(node, params, NetworkMessage::GetData(items), action),
        forall|k: int|
            0 <= k < items@.len() && (#[trigger] items@[k]) is Block
                ==> !node.cache.hash_map().contains_key(items@[k]->Block_0),
        0 <= i < items@.len(),
        items@[i] == InventoryItem::Transaction(hash),
        node.mempool.pool().contains_key(hash),
    ensures
        action is Reply,
        action->Reply_0 is Some,
        action->Reply_0->Some_0 is Transactions,
        action->Reply_0->Some_0->Transactions_0@.contains(
            SignedProtocolTransaction::Transfer(node.mempool.pool()[hash].transaction),
        ),
{
    let known = node.cache.hash_map();
    let pool = node.mempool.pool();
    requests_for_data_are_answered_in_full(node, params, items, action);
    assert forall|k: int| 0 <= k < items@.len() implies !#[trigger] asks_for_a_known_block(
        known,
        items@,
        k,
    ) by {
        assert(items@[k] is Block || items@[k] is Transaction);
    }
    assert(asks_for_a_pending_transaction(pool, items@, i));
    let list = action->Reply_0->Some_0->Transactions_0@;
    let places = choose|places: Seq<int>| #[trigger]
        transactions_answer(list, pool, items@, places);
    let awaited = |k: int| asks_for_a_pending_transaction(pool, items@, k);
    assert(awaited(i));
    assert(places.contains(i));
    let j = places.index_of(i);
    assert(list[j] == SignedProtocolTransaction::Transfer(pool[hash].transaction));
}

/// An offer is answered with a request for everything in it that is not at hand, in the order of the
/// offer, and not at all if everything is.
pub proof fn everything_new_is_asked_for<V>(
    node: &Node<V>,
    params: ChainParams,
    items: Vec<InventoryItem>,
    action: HandlerAction,
)
    requires
        answers(node, params, NetworkMessage::Inventory(items), action),
    ensures
        ({
            let known = node.cache.hash_map();
            let pool = node.mempool.pool();
            if exists|i: int|
                0 <= i < items@.len() && #[trigger] offers_something_new(known, pool, items@, i) {
                &&& action is Reply
                &&& action->Reply_0 is Some
                &&& action->Reply_0->Some_0 is GetData
                &&& exists|places: Seq<int>|
                    #![trigger places.len()]
                    are_the_places(
                        places,
                        items@.len() as int,
                        |i: int| offers_something_new(known, pool, items@, i),
                    ) && action->Reply_0->Some_0->GetData_0@.len() == places.len() && forall|j: int|
                        0 <= j < places.len() ==> #[trigger] action->Reply_0->Some_0->GetData_0@[j]
                            == items@[places[j]]
            } else {
                action == HandlerAction::Reply(None)
            }
        }),
{
    let known = node.cache.hash_map();
    let pool = node.mempool.pool();
    let places = everything_new_is_missing(known, pool, items@);
    let new = |i: int| offers_something_new(known, pool, items@, i);
    if exists|i: int|
        0 <= i < items@.len() && #[trigger] offers_something_new(known, pool, items@, i) {
        let i = choose|i: int|
            0 <= i < items@.len() && #[trigger] offers_something_new(known, pool, items@, i);
        assert(new(i));
        assert(places.contains(i));
        assert(places.len() > 0);
        let wanted = action->Reply_0->Some_0->GetData_0@;
        assert forall|j: int| 0 <= j < places.len() implies #[trigger] wanted[j]
            == items@[places[j]] by {
            assert(missing_items(known, pool, items@)[j] == items@[places[j]]);
        }
    } else if places.len() > 0 {
        assert(new(places[0]));
        assert(offers_something_new(known, pool, items@, places[0]));
    }
}

/// The inventory of the mempool names every pending transaction once and nothing else, in ascending
/// hash order.
pub proof fn the_inventory_names_everything_pending<V>(
    node: &Node<V>,
    params: ChainParams,
    action: HandlerAction,
)
    requires
        answers(node, params, NetworkMessage::GetMempoolInventory, action),
    ensures
        action is Reply,
        action->Reply_0 is Some,
        action->Reply_0->Some_0 is Inventory,
        ({
            let items = action->Reply_0->Some_0->Inventory_0@;
            let pool = node.mempool.pool();
            &&& forall|i: int|
                0 <= i < items.len() ==> (#[trigger] items[i]) is Transaction && pool.contains_key(
                    items[i]->Transaction_0,
                )
            &&& forall|h: TransactionHash| #[trigger]
                pool.contains_key(h) && pool[h].transaction.hash == h ==> exists|i: int|
                    0 <= i < items.len() && #[trigger] items[i] == InventoryItem::Transaction(h)
            &&& forall|i: int, j: int|
                0 <= i < j < items.len() ==> (#[trigger] items[i])->Transaction_0.before(
                    (#[trigger] items[j])->Transaction_0,
                )
        }),
{
    let items = action->Reply_0->Some_0->Inventory_0@;
    let pool = node.mempool.pool();
    let list = choose|list: Seq<SignedTransaction>| #[trigger]
        lists_all(list, pool) && items == Seq::new(
            list.len(),
            |i: int| InventoryItem::Transaction(list[i].hash),
        );
    assert forall|i: int| 0 <= i < items.len() implies (#[trigger] items[i]) is Transaction
        && pool.contains_key(items[i]->Transaction_0) by {
        assert(pool.contains_key(list[i].hash));
    }
    assert forall|h: TransactionHash| #[trigger]
        pool.contains_key(h) && pool[h].transaction.hash == h implies exists|i: int|
        0 <= i < items.len() && #[trigger] items[i] == InventoryItem::Transaction(h) by {
        let i = list.index_of(pool[h].transaction);
        assert(list[i] == pool[h].transaction);
        assert(items[i] == InventoryItem::Transaction(h));
    }
    assert forall|i: int, j: int| 0 <= i < j < items.len() implies (
    #[trigger] items[i])->Transaction_0.before((#[trigger] items[j])->Transaction_0) by {
        assert(list[i].hash.before(list[j].hash));
    }
}

/// The common ancestor is the first hash of the locator that is known, at the height of its block;
/// without one there is none.
pub proof fn the_common_ancestor_is_the_first_known<V>(
    node: &Node<V>,
    params: ChainParams,
    locator: Vec<BlockHash>,
    action: HandlerAction,
    i: int,
)
    requires
        answers(node, params, NetworkMessage::GetCommonAncestor { locator }, action),
        0 <= i <= locator@.len(),
        forall|j: int|
            0 <= j < i ==> !node.cache.hash_map().contains_key(#[trigger] locator@[j]),
        i < locator@.len() ==> node.cache.hash_map().contains_key(locator@[i]),
    ensures
        i < locator@.len() ==> action == HandlerAction::Reply(
            Some(
                NetworkMessage::CommonAncestor(
                    Some(
                        TipInfo {
                            height: node.cache.hash_map()[locator@[i]].header.height,
                            hash: locator@[i],
                        },
                    ),
                ),
            ),
        ),
        i == locator@.len() ==> action == HandlerAction::Reply(
            Some(NetworkMessage::CommonAncestor(None)),
        ),
{
    lemma_first_known(node.cache.hash_map(), locator@, i);
}

proof fn lemma_first_known(known: Map<BlockHash, BlockModel>, locator: Seq<BlockHash>, i: int)
    requires
        0 <= i <= locator.len(),
        forall|j: int| 0 <= j < i ==> !known.contains_key(#[trigger] locator[j]),
        i < locator.len() ==> known.contains_key(locator[i]),
    ensures
        ancestor_in(known, locator) == (if i < locator.len() {
            Some(TipInfo { height: known[locator[i]].header.height, hash: locator[i] })
        } else {
            None
        }),
    decreases locator.len(),
{
    if i > 0 {
        let rest = locator.skip(1);
        assert forall|j: int| 0 <= j < i - 1 implies !known.contains_key(#[trigger] rest[j]) by {
            assert(rest[j] == locator[j + 1]);
        }
        assert(!known.contains_key(locator[0]));
        lemma_first_known(known, rest, i - 1);
    }
}

/// A block is the one that the chain holds at a height.
pub open spec fn stands_at(chain: Map<Height, BlockModel>, block: Block, height: int) -> bool {
    &&& height <= u64::MAX
    &&& chain.contains_key(Height(height as u64))
    &&& chain[Height(height as u64)] == block@
}

/// A range request is answered from its start on, height by height and without a gap. The answer stops
/// early only after 64 entries, at the length asked for, at the first height without a block or at the
/// highest height there is.
pub proof fn ranges_are_answered_without_a_gap<V>(
    node: &Node<V>,
    params: ChainParams,
    start: Height,
    limit: u32,
    action: HandlerAction,
)
    requires
        answers(node, params, NetworkMessage::GetBlocksByHeightRange { start, limit }, action),
    ensures
        action is Reply,
        action->Reply_0 is Some,
        action->Reply_0->Some_0 is Blocks,
        ({
            let blocks = action->Reply_0->Some_0->Blocks_0@;
            let chain = node.ledger.block_map();
            &&& blocks.len() <= 64
            &&& blocks.len() <= limit
            &&& start.0 + blocks.len() <= u64::MAX
            &&& forall|i: int|
                0 <= i < blocks.len() ==> stands_at(chain, #[trigger] blocks[i], start.0 + i)
            &&& blocks.len() < 64 && blocks.len() < limit && start.0 + blocks.len() < u64::MAX
                ==> !chain.contains_key(Height((start.0 + blocks.len()) as u64))
        }),
{
    let blocks = action->Reply_0->Some_0->Blocks_0@;
    let chain = node.ledger.block_map();
    assert forall|i: int| 0 <= i < blocks.len() implies stands_at(
        chain,
        #[trigger] blocks[i],
        start.0 + i,
    ) by {
        assert(chain.contains_key(height_at(start, i)));
    }
}

/// A request for headers is answered with the headers and the hashes of the blocks that a request for
/// the blocks of the range is answered with.
pub proof fn header_ranges_match_block_ranges<V>(
    node: &Node<V>,
    params: ChainParams,
    start: Height,
    limit: u32,
    blocks: HandlerAction,
    headers: HandlerAction,
)
    requires
        answers(node, params, NetworkMessage::GetBlocksByHeightRange { start, limit }, blocks),
        answers(
            node,
            params,
            NetworkMessage::GetBlockHeadersByHeightRange { start, limit },
            headers,
        ),
    ensures
        headers is Reply,
        headers->Reply_0 is Some,
        headers->Reply_0->Some_0 is BlockHeaders,
        ({
            let full = blocks->Reply_0->Some_0->Blocks_0@;
            let short = headers->Reply_0->Some_0->BlockHeaders_0@;
            &&& full.len() == short.len()
            &&& forall|i: int|
                0 <= i < short.len() ==> (#[trigger] short[i]).header == full[i].header
                    && short[i].hash == full[i].hash
        }),
{
    let full = blocks->Reply_0->Some_0->Blocks_0@;
    let short = headers->Reply_0->Some_0->BlockHeaders_0@;
    let chain = node.ledger.block_map();
    if full.len() < short.len() {
        assert(chain.contains_key(height_at(start, full.len() as int)));
    }
    if short.len() < full.len() {
        assert(chain.contains_key(height_at(start, short.len() as int)));
    }
    assert forall|i: int| 0 <= i < short.len() implies (#[trigger] short[i]).header
        == full[i].header && short[i].hash == full[i].hash by {
        assert(full[i]@ == chain[height_at(start, i)]);
        assert(full[i]@.header == full[i].header && full[i]@.hash == full[i].hash);
    }
}

/// A peer is turned away for its network first, then for its chain, then for its protocol version and
/// then for its consensus rules.
pub proof fn peers_are_turned_away_for_the_first_difference(
    version: VersionInfo,
    params: ChainParams,
)
    ensures
        ({
            let network = version.network_magic@ == params.network_magic@;
            let chain = version.chain_id == params.chain_id && version.chain_name@
                == params.chain_name@ && version.protocol_stage@ == params.protocol_stage@;
            let protocol = version.protocol_version == params.protocol_version;
            let consensus = version.pow_algorithm@ == params.pow_algorithm@
                && version.difficulty_algorithm@ == params.difficulty_algorithm@;
            let reason = mismatch(version, params);
            &&& reason == Some(RejectReason::NetworkMismatch) <==> !network
            &&& reason == Some(RejectReason::ChainMismatch) <==> network && !chain
            &&& reason == Some(RejectReason::ProtocolVersionMismatch) <==> network && chain
                && !protocol
            &&& reason == Some(RejectReason::ConsensusMismatch) <==> network && chain && protocol
                && !consensus
            &&& reason is None <==> network && chain && protocol && consensus
        }),
{
}

/// A greeting of the same chain is answered with one of the same chain that names the tip, and any
/// other is rejected. A ping is answered with its own number, and a question for the tip, for a block
/// at a height or for a block of a hash with that tip or that block, if there is one. A message that
/// answers nothing is not answered.
pub proof fn questions_get_their_own_answers<V>(
    node: &Node<V>,
    params: ChainParams,
    message: NetworkMessage,
    action: HandlerAction,
)
    requires
        answers(node, params, message, action),
    ensures
        message is Version ==> action is Reply && action->Reply_0 is Some && {
            let peer = message->Version_0;
            let reply = action->Reply_0->Some_0;
            if mismatch(peer, params) is None {
                &&& reply is VerAck
                &&& mismatch(reply->VerAck_0, params) is None
                &&& node.ledger.tip().0 is Some && node.ledger.tip().1 is Some
                    ==> reply->VerAck_0.tip == Some(
                    TipInfo {
                        height: node.ledger.tip().0->Some_0,
                        hash: node.ledger.tip().1->Some_0,
                    },
                )
                &&& node.ledger.tip().0 is None || node.ledger.tip().1 is None
                    ==> reply->VerAck_0.tip is None
            } else {
                reply is Reject && Some(reply->reason) == mismatch(peer, params)
            }
        },
        message is Ping ==> action == HandlerAction::Reply(
            Some(NetworkMessage::Pong { nonce: message->Ping_nonce }),
        ),
        message is GetTip && node.ledger.tip().0 is Some && node.ledger.tip().1 is Some ==> action
            == HandlerAction::Reply(
            Some(
                NetworkMessage::Tip(
                    TipInfo {
                        height: node.ledger.tip().0->Some_0,
                        hash: node.ledger.tip().1->Some_0,
                    },
                ),
            ),
        ),
        message is GetTip && (node.ledger.tip().0 is None || node.ledger.tip().1 is None) ==> action
            == HandlerAction::Reply(None),
        message is GetBlockByHeight ==> action is Reply && {
            let height = message->GetBlockByHeight_height;
            &&& action->Reply_0 is Some <==> node.ledger.block_map().contains_key(height)
            &&& action->Reply_0 is Some ==> action->Reply_0->Some_0 is Block
                && action->Reply_0->Some_0->Block_0@ == node.ledger.block_map()[height]
        },
        message is GetBlockByHash ==> action is Reply && {
            let hash = message->GetBlockByHash_hash;
            &&& action->Reply_0 is Some <==> node.cache.hash_map().contains_key(hash)
            &&& action->Reply_0 is Some ==> action->Reply_0->Some_0 is Block
                && action->Reply_0->Some_0->Block_0@ == node.cache.hash_map()[hash]
        },
        message is VerAck || message is Reject || message is Pong || message is Tip
            || message is CommonAncestor || message is BlockHeaders || message is Peers ==> action
            == HandlerAction::Reply(None),
        message is Block ==> action is ApplyBlocks && action->ApplyBlocks_0@ == seq![
            message->Block_0,
        ],
        message is Blocks ==> action is ApplyBlocks && action->ApplyBlocks_0@
            == message->Blocks_0@,
        message is Transaction ==> action is SubmitTransactions && action->SubmitTransactions_0@
            == seq![message->Transaction_0],
        message is Transactions ==> action is SubmitTransactions && action->SubmitTransactions_0@
            == message->Transactions_0@,
{
}

} // verus!
