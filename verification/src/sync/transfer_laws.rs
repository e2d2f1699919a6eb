//! What is asked of a peer, and what of its answer is taken.
use crate::chain::{block_models, BlockModel, SealedHeader};
use crate::ids::BlockHash;
use crate::mempool::pool::Pool;
use crate::network::answer_laws::{are_the_places, lemma_one_more_place};
use crate::network::message::InventoryItem;
use crate::sync::download::{batch_right, block_fault, DownloadError};
use crate::sync::headers::{
    continues, header_fault, height_above, next_range, placed_right, HeaderError, HeaderSync,
};
use crate::sync::parallel::{
    delivered, failed_once, laid_out, leads_at, plans_for, shares_by_start, ApplyPlan, RangeResult,
};
use crate::sync::peer::SocketAddr;
use crate::sync::poll::{fetch_plan, new_transactions};
use crate::sync::ranges::{able_peers, batch_count, is_share, stand_ins, Candidate, SyncRange};
use vstd::prelude::*;

verus! {

/// A place offers a transaction that is not pending.
pub open spec fn offers_a_new_transaction(pool: Pool, items: Seq<InventoryItem>, i: int) -> bool {
    items[i] is Transaction && !pool.contains_key(items[i]->Transaction_0)
}

/// Every offered transaction that is not pending is new, as often and in the order in which it is
/// offered, and nothing else is.
pub proof fn every_new_transaction_is_wanted(pool: Pool, items: Seq<InventoryItem>) -> (places:
    Seq<int>)
    ensures
        are_the_places(
            places,
            items.len() as int,
            |i: int| offers_a_new_transaction(pool, items, i),
        ),
        new_transactions(pool, items).len() == places.len(),
        forall|j: int|
            0 <= j < places.len() ==> new_transactions(pool, items)[j]
                == items[#[trigger] places[j]],
    decreases items.len(),
{
    if items.len() == 0 {
        Seq::empty()
    } else {
        let before = every_new_transaction_is_wanted(pool, items.drop_last());
        let n = items.len() - 1;
        let places = lemma_one_more_place(
            before,
            n,
            |i: int| offers_a_new_transaction(pool, items.drop_last(), i),
            |i: int| offers_a_new_transaction(pool, items, i),
        );
        assert forall|j: int| 0 <= j < places.len() implies new_transactions(pool, items)[j]
            == items[#[trigger] places[j]] by {
            if j < before.len() {
                assert(places[j] == before[j]);
                assert(items.drop_last()[before[j]] == items[before[j]]);
            }
        }
        places
    }
}

/// All candidates that have a height are able to deliver it, in order, and nobody else is.
pub proof fn able_peers_have_the_target(candidates: Seq<Candidate>, target: u64) -> (places: Seq<
    int,
>)
    ensures
        are_the_places(
            places,
            candidates.len() as int,
            |i: int| candidates[i].tip.0 >= target,
        ),
        able_peers(candidates, target).len() == places.len(),
        forall|j: int|
            0 <= j < places.len() ==> able_peers(candidates, target)[j]
                == candidates[#[trigger] places[j]].addr,
    decreases candidates.len(),
{
    if candidates.len() == 0 {
        Seq::empty()
    } else {
        let before = able_peers_have_the_target(candidates.drop_last(), target);
        let n = candidates.len() - 1;
        let places = lemma_one_more_place(
            before,
            n,
            |i: int| candidates.drop_last()[i].tip.0 >= target,
            |i: int| candidates[i].tip.0 >= target,
        );
        assert forall|j: int| 0 <= j < places.len() implies able_peers(candidates, target)[j]
            == candidates[#[trigger] places[j]].addr by {
            if j < before.len() {
                assert(places[j] == before[j]);
                assert(candidates.drop_last()[before[j]] == candidates[before[j]]);
            }
        }
        places
    }
}

/// All candidates that have a height, but the peer that a share was given to, can take it over, in
/// order, and nobody else can.
pub proof fn stand_ins_are_all_the_others(
    candidates: Seq<Candidate>,
    peer: SocketAddr,
    target: u64,
) -> (places: Seq<int>)
    ensures
        are_the_places(
            places,
            candidates.len() as int,
            |i: int| candidates[i].addr != peer && candidates[i].tip.0 >= target,
        ),
        stand_ins(candidates, peer, target).len() == places.len(),
        forall|j: int|
            0 <= j < places.len() ==> stand_ins(candidates, peer, target)[j]
                == candidates[#[trigger] places[j]].addr,
    decreases candidates.len(),
{
    if candidates.len() == 0 {
        Seq::empty()
    } else {
        let shorter = candidates.drop_last();
        let before = stand_ins_are_all_the_others(shorter, peer, target);
        let n = candidates.len() - 1;
        let places = lemma_one_more_place(
            before,
            n,
            |i: int| shorter[i].addr != peer && shorter[i].tip.0 >= target,
            |i: int| candidates[i].addr != peer && candidates[i].tip.0 >= target,
        );
        assert forall|j: int| 0 <= j < places.len() implies stand_ins(candidates, peer, target)[j]
            == candidates[#[trigger] places[j]].addr by {
            if j < before.len() {
                assert(places[j] == before[j]);
                assert(shorter[before[j]] == candidates[before[j]]);
            }
        }
        places
    }
}

/// A plan starts right above the ancestor and reaches the peer's tip, or as far as the window allows;
/// a window below 32 counts as 32, and one above 256 as 256.
pub proof fn plans_fill_the_window(tip: u64, ancestor: u64, window: u64)
    requires
        ancestor < tip,
    ensures
        fetch_plan(tip, ancestor, window) is Some,
        ({
            let plan = fetch_plan(tip, ancestor, window)->Some_0;
            let far = tip - ancestor;
            &&& plan.start.0 == ancestor + 1
            &&& 32 <= window <= 256 && far <= window ==> plan.target == tip
            &&& 32 <= window <= 256 && far > window ==> plan.target == ancestor + window
            &&& window < 32 && far <= 32 ==> plan.target == tip
            &&& window < 32 && far > 32 ==> plan.target == ancestor + 32
            &&& window > 256 && far <= 256 ==> plan.target == tip
            &&& window > 256 && far > 256 ==> plan.target == ancestor + 256
        }),
{
}

/// A request starts at the next height, never reaches past the target, and is shorter than 32 only if
/// it reaches the target; past the target there is none.
pub proof fn requests_fill_a_batch(next_height: u64, target: u64)
    ensures
        next_height > target ==> next_range(next_height, target) is None,
        next_height <= target ==> {
            let request = next_range(next_height, target);
            &&& request is Some
            &&& request->Some_0.start.0 == next_height
            &&& 1 <= request->Some_0.limit <= 32
            &&& next_height + request->Some_0.limit - 1 <= target
            &&& request->Some_0.limit < 32 ==> next_height + request->Some_0.limit - 1 == target
        },
{
}

/// Shares follow each other without a gap from start to target; each holds at most 32 heights, with
/// the header of each, and consecutive shares go to consecutive peers.
pub proof fn shares_follow_each_other(
    ranges: Seq<SyncRange>,
    start: u64,
    target: u64,
    headers: Seq<SealedHeader>,
    peers: Seq<SocketAddr>,
)
    requires
        start <= target,
        headers.len() >= target - start + 1,
        peers.len() > 0,
        ranges.len() == batch_count(start, target),
        forall|i: int|
            0 <= i < ranges.len() ==> is_share(
                #[trigger] ranges[i],
                i,
                start,
                target,
                headers,
                peers,
            ),
    ensures
        ranges.len() > 0,
        ranges[0].start.0 == start,
        ranges.last().target == target,
        ranges[0].peer == peers[0],
        forall|i: int|
            0 <= i < ranges.len() ==> {
                let range = #[trigger] ranges[i];
                &&& range.start.0 <= range.target
                &&& range.target - range.start.0 < 32
                &&& i < ranges.len() - 1 ==> range.target - range.start.0 == 31
                &&& range.headers@.len() == range.target - range.start.0 + 1
                &&& forall|k: int|
                    0 <= k < range.headers@.len() ==> #[trigger] range.headers@[k]
                        == headers[range.start.0 - start + k]
            },
        forall|i: int, j: int|
            0 <= i && j == i + 1 && j < ranges.len() ==> (#[trigger] ranges[j]).start.0 == (
            #[trigger] ranges[i]).target + 1,
        forall|i: int|
            0 <= i < ranges.len() && i < peers.len() ==> (#[trigger] ranges[i]).peer == peers[i],
        forall|i: int, j: int|
            0 <= i && j == i + peers.len() && j < ranges.len() ==> (#[trigger] ranges[j]).peer == (
            #[trigger] ranges[i]).peer,
{
    let n = ranges.len();
    assert(is_share(ranges[0], 0, start, target, headers, peers));
    assert(is_share(ranges[n - 1], n - 1, start, target, headers, peers));
    assert(0int % peers.len() as int == 0) by (nonlinear_arith)
        requires
            peers.len() > 0,
    ;
    assert forall|i: int| 0 <= i < ranges.len() implies {
        let range = #[trigger] ranges[i];
        &&& range.start.0 <= range.target
        &&& range.target - range.start.0 < 32
        &&& i < ranges.len() - 1 ==> range.target - range.start.0 == 31
        &&& range.headers@.len() == range.target - range.start.0 + 1
        &&& forall|k: int|
            0 <= k < range.headers@.len() ==> #[trigger] range.headers@[k]
                == headers[range.start.0 - start + k]
    } by {
        assert(is_share(ranges[i], i, start, target, headers, peers));
    }
    assert forall|i: int, j: int| 0 <= i && j == i + 1 && j < ranges.len() implies (
    #[trigger] ranges[j]).start.0 == (#[trigger] ranges[i]).target + 1 by {
        assert(is_share(ranges[i], i, start, target, headers, peers));
        assert(is_share(ranges[j], j, start, target, headers, peers));
    }
    assert forall|i: int| 0 <= i < ranges.len() && i < peers.len() implies (
    #[trigger] ranges[i]).peer == peers[i] by {
        assert(is_share(ranges[i], i, start, target, headers, peers));
        let m = peers.len() as int;
        assert(i % m == i) by (nonlinear_arith)
            requires
                0 <= i < m,
        ;
    }
    assert forall|i: int, j: int|
        0 <= i && j == i + peers.len() && j < ranges.len() implies (#[trigger] ranges[j]).peer == (
    #[trigger] ranges[i]).peer by {
        assert(is_share(ranges[i], i, start, target, headers, peers));
        assert(is_share(ranges[j], j, start, target, headers, peers));
        vstd::arithmetic::div_mod::lemma_mod_add_multiples_vanish(i, peers.len() as int);
    }
}

/// A header is refused for its height first and then for its parent, and taken if both are right.
pub proof fn headers_are_refused_for_height_or_parent(
    header: SealedHeader,
    expected: u64,
    parent: BlockHash,
)
    ensures
        header_fault(header, expected, parent) is None <==> header.header.height.0 == expected
            && header.header.previous_hash == parent,
        header.header.height.0 != expected ==> header_fault(header, expected, parent) == Some(
            HeaderError::WrongHeight { got: header.header.height.0, expected },
        ),
        header.header.height.0 == expected && header.header.previous_hash != parent
            ==> header_fault(header, expected, parent) == Some(
            HeaderError::WrongParent { height: expected, parent: header.header.previous_hash },
        ),
{
}

/// A batch continues a chain exactly if its heights go up one by one from the next height, its first
/// header refers to the anchor and each later one to the one before it.
pub proof fn batches_link_up(batch: Seq<SealedHeader>, next_height: u64, anchor: BlockHash, n: int)
    requires
        0 <= n <= batch.len(),
        next_height + n <= u64::MAX,
    ensures
        continues(batch, next_height, anchor, n) <==> {
            &&& n > 0 ==> batch[0].header.previous_hash == anchor
            &&& forall|i: int, j: int|
                0 <= i && j == i + 1 && j < n ==> (#[trigger] batch[j]).header.previous_hash == (
                #[trigger] batch[i]).hash
            &&& forall|i: int|
                0 <= i < n ==> (#[trigger] batch[i]).header.height.0 == next_height + i
        },
{
    if continues(batch, next_height, anchor, n) {
        assert forall|i: int| 0 <= i < n implies (#[trigger] batch[i]).header.height.0
            == next_height + i by {
            assert(placed_right(batch, next_height, anchor, i));
        }
        assert forall|i: int, j: int| 0 <= i && j == i + 1 && j < n implies (
        #[trigger] batch[j]).header.previous_hash == (#[trigger] batch[i]).hash by {
            assert(placed_right(batch, next_height, anchor, j));
        }
        if n > 0 {
            assert(placed_right(batch, next_height, anchor, 0));
        }
    }
    if (n > 0 ==> batch[0].header.previous_hash == anchor) && (forall|i: int, j: int|
        0 <= i && j == i + 1 && j < n ==> (#[trigger] batch[j]).header.previous_hash == (
        #[trigger] batch[i]).hash) && (forall|i: int|
        0 <= i < n ==> (#[trigger] batch[i]).header.height.0 == next_height + i) {
        assert forall|i: int| 0 <= i < n implies #[trigger] placed_right(
            batch,
            next_height,
            anchor,
            i,
        ) by {
            assert(batch[i].header.height.0 == next_height + i);
            if i > 0 {
                assert(batch[i].header.previous_hash == batch[i - 1].hash);
            }
        }
    }
}

/// The headers of a fetch are linked from the anchor on: the first refers to it, each later one to the
/// one before it, and heights go up one by one from the origin.
pub proof fn fetched_headers_are_linked(sync: &HeaderSync)
    requires
        sync.wf(),
        sync.origin().0 + sync.chain().len() <= u64::MAX,
    ensures
        sync.chain().len() > 0 ==> sync.chain()[0].header.previous_hash == sync.origin().1,
        forall|i: int, j: int|
            0 <= i && j == i + 1 && j < sync.chain().len() ==> (
            #[trigger] sync.chain()[j]).header.previous_hash == (#[trigger] sync.chain()[i]).hash,
        forall|i: int|
            0 <= i < sync.chain().len() ==> (#[trigger] sync.chain()[i]).header.height.0
                == sync.origin().0 + i,
        sync.front() == sync.origin().0 + sync.chain().len(),
{
    sync.headers_link_up();
}

/// A block is refused for its height first, then for want of a header, then for a header that differs
/// in anything, and taken if its header is the one that was checked for its place.
pub proof fn blocks_are_held_against_their_headers(
    block: BlockModel,
    expected: u64,
    headers: Seq<SealedHeader>,
    index: int,
)
    requires
        index >= 0,
    ensures
        block_fault(block, expected, headers, index) is None <==> block.header.height.0 == expected
            && index < headers.len() && block.header == headers[index].header,
        block.header.height.0 != expected ==> block_fault(block, expected, headers, index) == Some(
            DownloadError::WrongHeight { got: block.header.height.0, expected },
        ),
        block.header.height.0 == expected && index >= headers.len() ==> block_fault(
            block,
            expected,
            headers,
            index,
        ) == Some(DownloadError::NoHeader { height: expected }),
        block.header.height.0 == expected && index < headers.len() && block.header
            != headers[index].header ==> block_fault(block, expected, headers, index) == Some(
            DownloadError::WrongHeader { height: expected },
        ),
{
}

/// A batch of blocks is right exactly if each block has the header that was checked for its place, and
/// heights go up one by one from the next height.
pub proof fn batches_match_their_headers(
    batch: Seq<BlockModel>,
    next_height: u64,
    headers: Seq<SealedHeader>,
    index: int,
    n: int,
)
    requires
        0 <= n <= batch.len(),
        0 <= index,
        next_height + n <= u64::MAX,
    ensures
        batch_right(batch, next_height, headers, index, n) <==> (n == 0 || index + n
            <= headers.len()) && forall|i: int|
            0 <= i < n ==> (#[trigger] batch[i]).header == headers[index + i].header
                && batch[i].header.height.0 == next_height + i,
{
    if batch_right(batch, next_height, headers, index, n) && n > 0 {
        assert(block_fault(
            batch[n - 1],
            height_above(next_height, n - 1),
            headers,
            index + n - 1,
        ) is None);
    }
}

/// Of several shares with one first height the last one counts.
pub proof fn the_last_share_counts(results: Seq<RangeResult>, j: int)
    requires
        0 <= j < results.len(),
        forall|k: int| j < k < results.len() ==> (#[trigger] results[k]).start != results[j].start,
    ensures
        shares_by_start(results).contains_key(results[j].start),
        shares_by_start(results)[results[j].start].len() == results[j].blocks@.len(),
        forall|m: int|
            0 <= m < results[j].blocks@.len() ==> #[trigger] shares_by_start(
                results,
            )[results[j].start][m] == results[j].blocks@[m]@,
    decreases results.len(),
{
    if j < results.len() - 1 {
        let fewer = results.drop_last();
        assert forall|k: int| j < k < fewer.len() implies (#[trigger] fewer[k]).start
            != fewer[j].start by {
            assert(results[k] == fewer[k]);
        }
        the_last_share_counts(fewer, j);
        assert(results[results.len() - 1].start != results[j].start);
    }
}

/// Each share lies in one piece right behind all those before it.
pub proof fn shares_lie_end_to_end(order: Seq<u64>, shares: Map<u64, Seq<BlockModel>>, i: int)
    requires
        0 <= i < order.len(),
    ensures
        ({
            let all = laid_out(order, shares);
            let before = laid_out(order.take(i), shares).len();
            &&& laid_out(order.take(i + 1), shares).len() == before + shares[order[i]].len()
            &&& before + shares[order[i]].len() <= all.len()
            &&& forall|k: int|
                0 <= k < shares[order[i]].len() ==> #[trigger] all[before + k]
                    == shares[order[i]][k]
        }),
        laid_out(order.take(0), shares).len() == 0,
        laid_out(order.take(order.len() as int), shares) == laid_out(order, shares),
    decreases order.len(),
{
    assert(order.take(order.len() as int) =~= order);
    let upto = order.take(i + 1);
    assert(upto.drop_last() =~= order.take(i));
    assert(upto.last() == order[i]);
    if i < order.len() - 1 {
        let fewer = order.drop_last();
        shares_lie_end_to_end(fewer, shares, i);
        assert(fewer.take(i) =~= order.take(i));
        assert(fewer.take(i + 1) =~= order.take(i + 1));
        let all = laid_out(order, shares);
        let before = laid_out(order.take(i), shares).len();
        assert forall|k: int| 0 <= k < shares[order[i]].len() implies #[trigger] all[before + k]
            == shares[order[i]][k] by {
            assert(laid_out(fewer, shares)[before + k] == shares[order[i]][k]);
        }
    } else {
        assert(upto =~= order);
    }
}

/// The leader is the only candidate above whose tip nobody is and behind whom nobody is level.
pub proof fn the_leader_has_the_highest_tip(candidates: Seq<Candidate>, i: int, j: int)
    requires
        leads_at(candidates, i),
        0 <= j < candidates.len(),
    ensures
        candidates[j].tip.0 <= candidates[i].tip.0,
        j > i ==> candidates[j].tip.0 < candidates[i].tip.0,
        leads_at(candidates, j) ==> i == j,
{
}

/// Blocks are applied from the first on, as they came, one height after the other from the start. The
/// rest is held back exactly if the next block has another height than its place.
pub proof fn blocks_are_applied_up_to_the_first_gap(
    plan: ApplyPlan,
    all: Seq<BlockModel>,
    start: u64,
)
    requires
        plans_for(plan, all, start),
        start + all.len() <= u64::MAX,
    ensures
        plan.blocks@.len() <= all.len(),
        forall|i: int|
            0 <= i < plan.blocks@.len() ==> (#[trigger] plan.blocks@[i])@ == all[i]
                && all[i].header.height.0 == start + i,
        plan.mismatch is None <==> plan.blocks@.len() == all.len(),
        plan.mismatch is Some ==> {
            let n = plan.blocks@.len() as int;
            &&& all[n].header.height.0 != start + n
            &&& plan.mismatch->Some_0.got == all[n].header.height.0
            &&& plan.mismatch->Some_0.expected == start + n
        },
{
    assert forall|i: int| 0 <= i < plan.blocks@.len() implies (#[trigger] plan.blocks@[i])@
        == all[i] && all[i].header.height.0 == start + i by {
        assert(block_models(plan.blocks@)[i] == all[i]);
    }
}

/// A peer that brought one share has delivered, and one that is named as failed beside one has failed.
pub proof fn shares_name_who_delivered_and_who_failed(results: Seq<RangeResult>, i: int, k: int)
    requires
        0 <= i < results.len(),
    ensures
        delivered(results, results[i].peer),
        0 <= k < results[i].failed@.len() ==> failed_once(results, results[i].failed@[k]),
        forall|addr: SocketAddr|
            (forall|j: int| 0 <= j < results.len() ==> (#[trigger] results[j]).peer != addr)
                ==> !#[trigger] delivered(results, addr),
{
    if 0 <= k < results[i].failed@.len() {
        assert(results[i].failed@.contains(results[i].failed@[k]));
    }
}

} // verus!
