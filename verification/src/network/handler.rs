//! The answers of a node to its peers.
use crate::cache::CoreCache;
use crate::chain::{block_models, protocol_models, Block, BlockModel, SealedHeader};
use crate::ids::{BlockHash, Height};
use crate::mempool::pool::{lists_all, Pool};
use crate::network::message::{
    mismatch, ChainParams, InventoryItem, NetworkMessage, PeerInfo, TipInfo, VersionInfo,
};
use crate::node::{tip_info, Node};
use crate::transaction::{ProtocolModel, SignedProtocolTransaction, SignedTransaction};
use vstd::prelude::*;

verus! {

/// Most blocks or headers in one answer.
pub const MAX_RANGE_RESPONSE_ITEMS: u32 = 64;

/// What a node does about a message.
#[derive(Clone, Debug, PartialEq, Eq)]
pub enum HandlerAction {
    /// Send an answer, if there is one.
    Reply(Option<NetworkMessage>),
    /// Apply blocks in turn until one fails, as `batch_step` says.
    ApplyBlocks(Vec<Block>),
    /// Submit transactions in turn until one fails, as `batch_step` says.
    SubmitTransactions(Vec<SignedProtocolTransaction>),
}

/// What to do next about blocks or transactions that are applied in turn.
#[derive(Clone, Copy, Debug, PartialEq, Eq)]
pub enum BatchStep<E> {
    /// Apply the item at this place.
    Apply(usize),
    /// All items are applied.
    Finished,
    /// An item failed; those behind it are left alone.
    Failed(E),
}

/// The next step once `tried` of `count` items were tried and the last of them ended like this. All
/// before it were applied. Before the first item nothing failed.
pub open spec fn next_in_batch<E>(count: usize, tried: usize, last: Result<(), E>) -> BatchStep<E> {
    match last {
        Err(error) => BatchStep::Failed(error),
        Ok(_) => if tried < count {
            BatchStep::Apply(tried)
        } else {
            BatchStep::Finished
        },
    }
}

/// The next step once `tried` of `count` items were tried and the last of them ended like this.
pub fn batch_step<E>(count: usize, tried: usize, last: Result<(), E>) -> (r: BatchStep<E>)
    ensures
        r == next_in_batch(count, tried, last),
{
    match last {
        Err(error) => BatchStep::Failed(error),
        Ok(_) => if tried < count {
            BatchStep::Apply(tried)
        } else {
            BatchStep::Finished
        },
    }
}

/// How many items are tried, and how it ends, if every step is taken and the item at place `i` ends
/// like `outcomes(i)`.
pub open spec fn batch_run<E>(
    count: usize,
    tried: usize,
    last: Result<(), E>,
    outcomes: spec_fn(int) -> Result<(), E>,
) -> (int, Result<(), E>)
    decreases count - tried,
{
    match next_in_batch(count, tried, last) {
        BatchStep::Apply(i) => batch_run(count, (i + 1) as usize, outcomes(i as int), outcomes),
        BatchStep::Finished => (tried as int, Ok(())),
        BatchStep::Failed(error) => (tried as int, Err(error)),
    }
}

/// The items of a message are tried in turn up to the first that fails, whose error is the outcome;
/// if none fails, all are tried.
pub proof fn batches_end_at_the_first_failure<E>(
    count: usize,
    outcomes: spec_fn(int) -> Result<(), E>,
)
    ensures
        ({
            let (tried, r) = batch_run(count, 0, Ok::<(), E>(()), outcomes);
            &&& 0 <= tried <= count
            &&& forall|i: int| 0 <= i < tried - 1 ==> (#[trigger] outcomes(i)) is Ok
            &&& match r {
                Ok(_) => tried == count && (tried > 0 ==> outcomes(tried - 1) is Ok),
                Err(error) => tried > 0 && outcomes(tried - 1) == Err::<(), E>(error),
            }
        }),
{
    lemma_batch_run(count, 0, Ok::<(), E>(()), outcomes);
}

proof fn lemma_batch_run<E>(
    count: usize,
    tried: usize,
    last: Result<(), E>,
    outcomes: spec_fn(int) -> Result<(), E>,
)
    requires
        tried <= count,
        tried == 0 ==> last is Ok,
        tried > 0 ==> last == outcomes(tried - 1),
        forall|i: int| 0 <= i < tried - 1 ==> (#[trigger] outcomes(i)) is Ok,
    ensures
        ({
            let (all, r) = batch_run(count, tried, last, outcomes);
            &&& tried <= all <= count
            &&& forall|i: int| 0 <= i < all - 1 ==> (#[trigger] outcomes(i)) is Ok
            &&& match r {
                Ok(_) => all == count && (all > 0 ==> outcomes(all - 1) is Ok),
                Err(error) => all > 0 && outcomes(all - 1) == Err::<(), E>(error),
            }
        }),
    decreases count - tried,
{
    match next_in_batch(count, tried, last) {
        BatchStep::Apply(i) => {
            lemma_batch_run(count, (i + 1) as usize, outcomes(i as int), outcomes);
        },
        BatchStep::Finished => {},
        BatchStep::Failed(_) => {},
    }
}

/// The number of heights that a range request is answered for at most: the request is cut to the
/// limit of one answer and at the highest height there is.
pub open spec fn range_span(start: Height, limit: u32) -> int {
    let wanted = if limit < MAX_RANGE_RESPONSE_ITEMS {
        limit as int
    } else {
        MAX_RANGE_RESPONSE_ITEMS as int
    };
    if start.0 + wanted <= u64::MAX {
        wanted
    } else {
        u64::MAX - start.0
    }
}

/// The height `i` above a start.
pub open spec fn height_at(start: Height, i: int) -> Height {
    Height((start.0 + i) as u64)
}

/// `n` blocks are answered: all that the span allows, or those before the first missing one.
pub open spec fn run_length(chain: Map<Height, BlockModel>, start: Height, limit: u32, n: int) -> bool {
    &&& 0 <= n <= range_span(start, limit)
    &&& forall|i: int|
        0 <= i < n ==> chain.contains_key(#[trigger] height_at(start, i))
    &&& n < range_span(start, limit) ==> !chain.contains_key(height_at(start, n))
}

/// The first hash of a locator that is known, with the height of its block.
pub open spec fn ancestor_in(
    known: Map<BlockHash, BlockModel>,
    locator: Seq<BlockHash>,
) -> Option<TipInfo>
    decreases locator.len(),
{
    if locator.len() == 0 {
        None
    } else if known.contains_key(locator[0]) {
        Some(TipInfo { height: known[locator[0]].header.height, hash: locator[0] })
    } else {
        ancestor_in(known, locator.skip(1))
    }
}

/// An item is not at hand.
pub open spec fn is_missing(
    known: Map<BlockHash, BlockModel>,
    pool: Pool,
    item: InventoryItem,
) -> bool {
    match item {
        InventoryItem::Block(hash) => !known.contains_key(hash),
        InventoryItem::Transaction(hash) => !pool.contains_key(hash),
    }
}

/// The items that are not at hand, in the order in which they were offered.
pub open spec fn missing_items(
    known: Map<BlockHash, BlockModel>,
    pool: Pool,
    items: Seq<InventoryItem>,
) -> Seq<InventoryItem>
    decreases items.len(),
{
    if items.len() == 0 {
        Seq::empty()
    } else {
        let rest = missing_items(known, pool, items.drop_last());
        if is_missing(known, pool, items.last()) {
            rest.push(items.last())
        } else {
            rest
        }
    }
}

/// The blocks that are asked for and at hand, in the order of the request.
pub open spec fn found_blocks(
    known: Map<BlockHash, BlockModel>,
    items: Seq<InventoryItem>,
) -> Seq<BlockModel>
    decreases items.len(),
{
    if items.len() == 0 {
        Seq::empty()
    } else {
        let rest = found_blocks(known, items.drop_last());
        match items.last() {
            InventoryItem::Block(hash) => if known.contains_key(hash) {
                rest.push(known[hash])
            } else {
                rest
            },
            InventoryItem::Transaction(_) => rest,
        }
    }
}

/// The transactions that are asked for and pending, in the order of the request.
pub open spec fn found_transactions(pool: Pool, items: Seq<InventoryItem>) -> Seq<ProtocolModel>
    decreases items.len(),
{
    if items.len() == 0 {
        Seq::empty()
    } else {
        let rest = found_transactions(pool, items.drop_last());
        match items.last() {
            InventoryItem::Transaction(hash) => if pool.contains_key(hash) {
                rest.push(ProtocolModel::Transfer(pool[hash].transaction))
            } else {
                rest
            },
            InventoryItem::Block(_) => rest,
        }
    }
}

/// A list of the hashes of all pending transactions, in ascending order.
pub open spec fn is_mempool_inventory(items: Seq<InventoryItem>, pool: Pool) -> bool {
    exists|list: Seq<SignedTransaction>| #[trigger]
        lists_all(list, pool) && items == Seq::new(
            list.len(),
            |i: int| InventoryItem::Transaction(list[i].hash),
        )
}

/// No answer.
pub open spec fn silent(action: HandlerAction) -> bool {
    action == HandlerAction::Reply(None)
}

/// The action that a message calls for.
pub open spec fn answers<V>(
    node: &Node<V>,
    params: ChainParams,
    message: NetworkMessage,
    action: HandlerAction,
) -> bool {
    let chain = node.ledger.block_map();
    let known = node.cache.hash_map();
    let pool = node.mempool.pool();
    match message {
        NetworkMessage::Version(version) => match mismatch(version, params) {
            None => action matches HandlerAction::Reply(Some(NetworkMessage::VerAck(local)))
                && mismatch(local, params) is None && local.tip == tip_info(node.ledger.tip()),
            Some(why) => action matches HandlerAction::Reply(
                Some(NetworkMessage::Reject { reason, message }),
            ) && reason == why && message@ == "incompatible peer version"@,
        },
        NetworkMessage::Ping { nonce } => action == HandlerAction::Reply(
            Some(NetworkMessage::Pong { nonce }),
        ),
        NetworkMessage::GetTip => action == HandlerAction::Reply(
            match tip_info(node.ledger.tip()) {
                Some(tip) => Some(NetworkMessage::Tip(tip)),
                None => None,
            },
        ),
        NetworkMessage::GetBlockByHeight { height } => if chain.contains_key(height) {
            action matches HandlerAction::Reply(Some(NetworkMessage::Block(block))) && block@
                == chain[height]
        } else {
            silent(action)
        },
        NetworkMessage::GetBlocksByHeightRange { start, limit } => {
            action matches HandlerAction::Reply(Some(NetworkMessage::Blocks(blocks)))
                && run_length(chain, start, limit, blocks@.len() as int) && forall|i: int|
                0 <= i < blocks@.len() ==> (#[trigger] blocks@[i])@ == chain[height_at(start, i)]
        },
        NetworkMessage::GetBlockHeadersByHeightRange { start, limit } => {
            action matches HandlerAction::Reply(Some(NetworkMessage::BlockHeaders(headers)))
                && run_length(chain, start, limit, headers@.len() as int) && forall|i: int|
                0 <= i < headers@.len() ==> (#[trigger] headers@[i]).header == chain[height_at(start, i)].header && headers@[i].hash == chain[height_at(start, i)].hash
        },
        NetworkMessage::GetCommonAncestor { locator } => action == HandlerAction::Reply(
            Some(NetworkMessage::CommonAncestor(ancestor_in(known, locator@))),
        ),
        NetworkMessage::GetBlockByHash { hash } => if known.contains_key(hash) {
            action matches HandlerAction::Reply(Some(NetworkMessage::Block(block))) && block@
                == known[hash]
        } else {
            silent(action)
        },
        NetworkMessage::Block(block) => action matches HandlerAction::ApplyBlocks(blocks)
            && blocks@ == seq![block],
        NetworkMessage::Blocks(blocks) => action == HandlerAction::ApplyBlocks(blocks),
        NetworkMessage::Inventory(items) => {
            let missing = missing_items(known, pool, items@);
            if missing.len() == 0 {
                silent(action)
            } else {
                action matches HandlerAction::Reply(Some(NetworkMessage::GetData(wanted)))
                    && wanted@ == missing
            }
        },
        NetworkMessage::GetData(items) => {
            if found_blocks(known, items@).len() > 0 {
                action matches HandlerAction::Reply(Some(NetworkMessage::Blocks(blocks)))
                    && block_models(blocks@) == found_blocks(known, items@)
            } else if found_transactions(pool, items@).len() > 0 {
                action matches HandlerAction::Reply(Some(NetworkMessage::Transactions(list)))
                    && protocol_models(list@) == found_transactions(pool, items@)
            } else {
                silent(action)
            }
        },
        NetworkMessage::Transaction(transaction) => {
            action matches HandlerAction::SubmitTransactions(list) && list@ == seq![transaction]
        },
        NetworkMessage::Transactions(list) => action == HandlerAction::SubmitTransactions(list),
        NetworkMessage::GetMempoolInventory => {
            action matches HandlerAction::Reply(Some(NetworkMessage::Inventory(items)))
                && is_mempool_inventory(items@, pool)
        },
        NetworkMessage::GetPeers => {
            action matches HandlerAction::Reply(Some(NetworkMessage::Peers(peers)))
                && peers@.len() == 0
        },
        NetworkMessage::VerAck(_) => silent(action),
        NetworkMessage::Reject { .. } => silent(action),
        NetworkMessage::Pong { .. } => silent(action),
        NetworkMessage::Tip(_) => silent(action),
        NetworkMessage::CommonAncestor(_) => silent(action),
        NetworkMessage::BlockHeaders(_) => silent(action),
        NetworkMessage::Peers(_) => silent(action),
    }
}

fn span_end(start: Height, limit: u32) -> (end: u64)
    ensures
        end == start.0 + range_span(start, limit),
{
    let limit: u32 = if limit < MAX_RANGE_RESPONSE_ITEMS {
        limit
    } else {
        MAX_RANGE_RESPONSE_ITEMS
    };
    start.0.saturating_add(limit as u64)
}

fn block_run<V>(node: &Node<V>, start: Height, limit: u32) -> (blocks: Vec<Block>)
    requires
        node.wf(),
    ensures
        run_length(node.ledger.block_map(), start, limit, blocks@.len() as int),
        forall|i: int|
            0 <= i < blocks@.len() ==> (#[trigger] blocks@[i])@ == node.ledger.block_map()[height_at(start, i)],
{
    let end: u64 = span_end(start, limit);
    let ghost chain = node.ledger.block_map();
    let mut blocks: Vec<Block> = Vec::new();
    let mut height: u64 = start.0;
    while height < end
        invariant
            node.wf(),
            chain == node.ledger.block_map(),
            end == start.0 + range_span(start, limit),
            start.0 <= height <= end,
            blocks@.len() == height - start.0,
            forall|i: int|
                0 <= i < blocks@.len() ==> chain.contains_key(
                    #[trigger] height_at(start, i),
                ),
            forall|i: int|
                0 <= i < blocks@.len() ==> (#[trigger] blocks@[i])@ == chain[height_at(start, i)],
        decreases end - height,
    {
        assert(Height(height) == height_at(start, height - start.0));
        match node.ledger.block(&Height(height)) {
            Some(block) => {
                blocks.push(block.duplicate());
            },
            None => {
                return blocks;
            },
        }
        height = height + 1;
    }
    blocks
}

fn header_run<V>(node: &Node<V>, start: Height, limit: u32) -> (headers: Vec<SealedHeader>)
    requires
        node.wf(),
    ensures
        run_length(node.ledger.block_map(), start, limit, headers@.len() as int),
        forall|i: int|
            0 <= i < headers@.len() ==> (#[trigger] headers@[i]).header
                == node.ledger.block_map()[height_at(start, i)].header
                && headers@[i].hash == node.ledger.block_map()[height_at(start, i)].hash,
{
    let end: u64 = span_end(start, limit);
    let ghost chain = node.ledger.block_map();
    let mut headers: Vec<SealedHeader> = Vec::new();
    let mut height: u64 = start.0;
    while height < end
        invariant
            node.wf(),
            chain == node.ledger.block_map(),
            end == start.0 + range_span(start, limit),
            start.0 <= height <= end,
            headers@.len() == height - start.0,
            forall|i: int|
                0 <= i < headers@.len() ==> chain.contains_key(
                    #[trigger] height_at(start, i),
                ),
            forall|i: int|
                0 <= i < headers@.len() ==> (#[trigger] headers@[i]).header == chain[height_at(start, i)].header && headers@[i].hash == chain[height_at(start, i)].hash,
        decreases end - height,
    {
        assert(Height(height) == height_at(start, height - start.0));
        match node.ledger.block(&Height(height)) {
            Some(block) => {
                assert(block@.header == block.header && block@.hash == block.hash);
                headers.push(SealedHeader { header: block.header, hash: block.hash });
            },
            None => {
                return headers;
            },
        }
        height = height + 1;
    }
    headers
}

fn common_ancestor<V>(cache: &CoreCache<V>, locator: &Vec<BlockHash>) -> (r: Option<TipInfo>)
    requires
        cache.wf(),
    ensures
        r == ancestor_in(cache.hash_map(), locator@),
{
    let mut i: usize = 0;
    assert(locator@.skip(0) =~= locator@);
    while i < locator.len()
        invariant
            cache.wf(),
            i <= locator@.len(),
            ancestor_in(cache.hash_map(), locator@) == ancestor_in(
                cache.hash_map(),
                locator@.skip(i as int),
            ),
        decreases locator@.len() - i,
    {
        let hash = locator[i];
        proof {
            assert(locator@.skip(i as int)[0] == hash);
            assert(locator@.skip(i as int).skip(1) =~= locator@.skip(i + 1));
        }
        match cache.block_by_hash(&hash) {
            Some(block) => {
                let height = block.height();
                return Some(TipInfo { height, hash });
            },
            None => {},
        }
        i = i + 1;
    }
    None
}

fn missing_from<V>(node: &Node<V>, items: &Vec<InventoryItem>) -> (missing: Vec<InventoryItem>)
    requires
        node.wf(),
    ensures
        missing@ == missing_items(node.cache.hash_map(), node.mempool.pool(), items@),
{
    let ghost known = node.cache.hash_map();
    let ghost pool = node.mempool.pool();
    let mut missing: Vec<InventoryItem> = Vec::new();
    let mut i: usize = 0;
    while i < items.len()
        invariant
            node.wf(),
            known == node.cache.hash_map(),
            pool == node.mempool.pool(),
            i <= items@.len(),
            missing@ == missing_items(known, pool, items@.take(i as int)),
        decreases items@.len() - i,
    {
        let item = items[i];
        assert(items@.take(i + 1).drop_last() =~= items@.take(i as int));
        let wanted = match item {
            InventoryItem::Block(hash) => node.cache.block_by_hash(&hash).is_none(),
            InventoryItem::Transaction(hash) => !node.mempool.contains(&hash),
        };
        if wanted {
            missing.push(item);
        }
        i = i + 1;
    }
    assert(items@.take(i as int) =~= items@);
    missing
}

fn blocks_for<V>(node: &Node<V>, items: &Vec<InventoryItem>) -> (blocks: Vec<Block>)
    requires
        node.wf(),
    ensures
        block_models(blocks@) == found_blocks(node.cache.hash_map(), items@),
{
    let ghost known = node.cache.hash_map();
    let mut blocks: Vec<Block> = Vec::new();
    let mut i: usize = 0;
    assert(block_models(blocks@) =~= found_blocks(known, items@.take(0)));
    while i < items.len()
        invariant
            node.wf(),
            known == node.cache.hash_map(),
            i <= items@.len(),
            block_models(blocks@) == found_blocks(known, items@.take(i as int)),
        decreases items@.len() - i,
    {
        assert(items@.take(i + 1).drop_last() =~= items@.take(i as int));
        let ghost before = blocks@;
        match items[i] {
            InventoryItem::Block(hash) => match node.cache.block_by_hash(&hash) {
                Some(block) => {
                    blocks.push(block.duplicate());
                    assert(block_models(blocks@) =~= block_models(before).push(known[hash]));
                },
                None => {},
            },
            InventoryItem::Transaction(_) => {},
        }
        i = i + 1;
    }
    assert(items@.take(i as int) =~= items@);
    blocks
}

fn transactions_for<V>(
    node: &Node<V>,
    items: &Vec<InventoryItem>,
) -> (list: Vec<SignedProtocolTransaction>)
    requires
        node.wf(),
    ensures
        protocol_models(list@) == found_transactions(node.mempool.pool(), items@),
{
    let ghost pool = node.mempool.pool();
    let mut list: Vec<SignedProtocolTransaction> = Vec::new();
    let mut i: usize = 0;
    assert(protocol_models(list@) =~= found_transactions(pool, items@.take(0)));
    while i < items.len()
        invariant
            node.wf(),
            pool == node.mempool.pool(),
            i <= items@.len(),
            protocol_models(list@) == found_transactions(pool, items@.take(i as int)),
        decreases items@.len() - i,
    {
        assert(items@.take(i + 1).drop_last() =~= items@.take(i as int));
        let ghost before = list@;
        match items[i] {
            InventoryItem::Transaction(hash) => match node.mempool.get(&hash) {
                Some(transaction) => {
                    list.push(SignedProtocolTransaction::Transfer(*transaction));
                    assert(protocol_models(list@) =~= protocol_models(before).push(
                        ProtocolModel::Transfer(pool[hash].transaction),
                    ));
                },
                None => {},
            },
            InventoryItem::Block(_) => {},
        }
        i = i + 1;
    }
    assert(items@.take(i as int) =~= items@);
    list
}

fn mempool_inventory<V>(node: &Node<V>) -> (items: Vec<InventoryItem>)
    requires
        node.wf(),
    ensures
        is_mempool_inventory(items@, node.mempool.pool()),
{
    let list = node.mempool.transactions();
    let mut items: Vec<InventoryItem> = Vec::new();
    let mut i: usize = 0;
    while i < list.len()
        invariant
            i <= list@.len(),
            items@ =~= Seq::new(i as nat, |j: int| InventoryItem::Transaction(list@[j].hash)),
        decreases list@.len() - i,
    {
        items.push(InventoryItem::Transaction(list[i].hash));
        i = i + 1;
    }
    items
}

/// What the node does about a message of a peer.
pub fn handle_message<V>(
    node: &Node<V>,
    params: &ChainParams,
    message: NetworkMessage,
) -> (action: HandlerAction)
    requires
        node.wf(),
    ensures
        answers(node, *params, message, action),
{
    match message {
        NetworkMessage::Version(version) => match version.validate_compatibility(params) {
            Ok(_) => HandlerAction::Reply(
                Some(NetworkMessage::VerAck(VersionInfo::local(params, node.tip()))),
            ),
            Err(reason) => HandlerAction::Reply(
                Some(
                    NetworkMessage::Reject {
                        reason,
                        message: "incompatible peer version".to_string(),
                    },
                ),
            ),
        },
        NetworkMessage::Ping { nonce } => HandlerAction::Reply(
            Some(NetworkMessage::Pong { nonce }),
        ),
        NetworkMessage::GetTip => match node.tip() {
            Some(tip) => HandlerAction::Reply(Some(NetworkMessage::Tip(tip))),
            None => HandlerAction::Reply(None),
        },
        NetworkMessage::GetBlockByHeight { height } => match node.ledger.block(&height) {
            Some(block) => HandlerAction::Reply(Some(NetworkMessage::Block(block.duplicate()))),
            None => HandlerAction::Reply(None),
        },
        NetworkMessage::GetBlocksByHeightRange { start, limit } => HandlerAction::Reply(
            Some(NetworkMessage::Blocks(block_run(node, start, limit))),
        ),
        NetworkMessage::GetBlockHeadersByHeightRange { start, limit } => HandlerAction::Reply(
            Some(NetworkMessage::BlockHeaders(header_run(node, start, limit))),
        ),
        NetworkMessage::GetCommonAncestor { locator } => HandlerAction::Reply(
            Some(NetworkMessage::CommonAncestor(common_ancestor(&node.cache, &locator))),
        ),
        NetworkMessage::GetBlockByHash { hash } => match node.cache.block_by_hash(&hash) {
            Some(block) => HandlerAction::Reply(Some(NetworkMessage::Block(block.duplicate()))),
            None => HandlerAction::Reply(None),
        },
        NetworkMessage::Block(block) => {
            let mut blocks: Vec<Block> = Vec::new();
            blocks.push(block);
            HandlerAction::ApplyBlocks(blocks)
        },
        NetworkMessage::Blocks(blocks) => HandlerAction::ApplyBlocks(blocks),
        NetworkMessage::Inventory(items) => {
            let missing = missing_from(node, &items);
            if missing.len() == 0 {
                HandlerAction::Reply(None)
            } else {
                HandlerAction::Reply(Some(NetworkMessage::GetData(missing)))
            }
        },
        NetworkMessage::GetData(items) => {
            let blocks = blocks_for(node, &items);
            if blocks.len() > 0 {
                return HandlerAction::Reply(Some(NetworkMessage::Blocks(blocks)));
            }
            let transactions = transactions_for(node, &items);
            if transactions.len() > 0 {
                return HandlerAction::Reply(Some(NetworkMessage::Transactions(transactions)));
            }
            HandlerAction::Reply(None)
        },
        NetworkMessage::Transaction(transaction) => {
            let mut list: Vec<SignedProtocolTransaction> = Vec::new();
            list.push(transaction);
            HandlerAction::SubmitTransactions(list)
        },
        NetworkMessage::Transactions(list) => HandlerAction::SubmitTransactions(list),
        NetworkMessage::GetMempoolInventory => HandlerAction::Reply(
            Some(NetworkMessage::Inventory(mempool_inventory(node))),
        ),
        NetworkMessage::GetPeers => {
            let none: Vec<PeerInfo> = Vec::new();
            HandlerAction::Reply(Some(NetworkMessage::Peers(none)))
        },
        NetworkMessage::VerAck(_) => HandlerAction::Reply(None),
        NetworkMessage::Reject { .. } => HandlerAction::Reply(None),
        NetworkMessage::Pong { .. } => HandlerAction::Reply(None),
        NetworkMessage::Tip(_) => HandlerAction::Reply(None),
        NetworkMessage::CommonAncestor(_) => HandlerAction::Reply(None),
        NetworkMessage::BlockHeaders(_) => HandlerAction::Reply(None),
        NetworkMessage::Peers(_) => HandlerAction::Reply(None),
    }
}

/// A peer that is asked for what it was offered as missing answers only with what it has: nothing
/// that is at hand is asked for.
pub proof fn only_missing_items_are_asked_for(
    known: Map<BlockHash, BlockModel>,
    pool: Pool,
    items: Seq<InventoryItem>,
    i: int,
)
    requires
        0 <= i < missing_items(known, pool, items).len(),
    ensures
        is_missing(known, pool, missing_items(known, pool, items)[i]),
        items.contains(missing_items(known, pool, items)[i]),
    decreases items.len(),
{
    let rest = missing_items(known, pool, items.drop_last());
    if i < rest.len() {
        only_missing_items_are_asked_for(known, pool, items.drop_last(), i);
        let item = rest[i];
        let j = items.drop_last().index_of(item);
        assert(items[j] == item);
    } else {
        assert(items[items.len() - 1] == items.last());
    }
}

/// The common ancestor is a block that is known, under a hash of the locator.
pub proof fn common_ancestor_is_known(known: Map<BlockHash, BlockModel>, locator: Seq<BlockHash>)
    ensures
        match ancestor_in(known, locator) {
            Some(tip) => known.contains_key(tip.hash) && locator.contains(tip.hash) && tip.height
                == known[tip.hash].header.height,
            None => forall|i: int|
                0 <= i < locator.len() ==> !known.contains_key(#[trigger] locator[i]),
        },
    decreases locator.len(),
{
    if locator.len() > 0 {
        if known.contains_key(locator[0]) {
            assert(locator.contains(locator[0]));
        } else {
            let rest = locator.skip(1);
            common_ancestor_is_known(known, rest);
            match ancestor_in(known, rest) {
                Some(tip) => {
                    let j = rest.index_of(tip.hash);
                    assert(locator[j + 1] == tip.hash);
                },
                None => {
                    assert forall|i: int| 0 <= i < locator.len() implies !known.contains_key(
                        #[trigger] locator[i],
                    ) by {
                        if i > 0 {
                            assert(rest[i - 1] == locator[i]);
                        }
                    }
                },
            }
        }
    }
}

} // verus!
