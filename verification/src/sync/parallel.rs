//! Fetching from several peers at once: who leads, what the shares add up to, and who failed.
use crate::chain::{block_models, Block, BlockModel, SealedHeader};
use crate::ids::Height;
use crate::order::Sortable;
use crate::sorted_map::{ascending, ascending_order_is_unique, SortedMap};
use crate::sync::headers::{height_above, MAX_BLOCKS_PER_BATCH};
use crate::sync::peer::{contains_addr, SocketAddr};
use crate::sync::ranges::{batch_count, batch_end, is_share, Candidate, SyncRange};
use crate::text::{decimal, decimal_text};
use vstd::prelude::*;
use vstd::string::*;

verus! {

/// What came of fetching from several peers.
#[derive(Clone, Debug, PartialEq, Eq)]
pub struct ParallelSyncReport {
    pub remote_tip: Height,
    pub applied_blocks: usize,
    pub used_peers: usize,
    pub used_peer_addrs: Vec<SocketAddr>,
    pub failed_peer_addrs: Vec<SocketAddr>,
}

impl ParallelSyncReport {
    /// The report when nothing was fetched.
    pub fn idle(remote_tip: Height) -> (r: Self)
        ensures
            r.remote_tip == remote_tip,
            r.applied_blocks == 0,
            r.used_peers == 0,
            r.used_peer_addrs@.len() == 0,
            r.failed_peer_addrs@.len() == 0,
    {
        ParallelSyncReport {
            remote_tip,
            applied_blocks: 0,
            used_peers: 0,
            used_peer_addrs: Vec::new(),
            failed_peer_addrs: Vec::new(),
        }
    }
}

/// The `i`th candidate has the highest tip, and every later one a lower tip.
pub open spec fn leads_at(candidates: Seq<Candidate>, i: int) -> bool {
    &&& 0 <= i < candidates.len()
    &&& forall|j: int|
        0 <= j < candidates.len() ==> (#[trigger] candidates[j]).tip.0 <= candidates[i].tip.0
    &&& forall|j: int| i < j < candidates.len() ==> (#[trigger] candidates[j]).tip.0
        < candidates[i].tip.0
}

/// The candidate with the highest tip; of several, the last.
pub fn choose_leader(candidates: &Vec<Candidate>) -> (r: Option<Candidate>)
    ensures
        match r {
            Some(leader) => exists|i: int| #[trigger]
                leads_at(candidates@, i) && candidates@[i] == leader,
            None => candidates@.len() == 0,
        },
{
    if candidates.len() == 0 {
        return None;
    }
    let mut best: usize = 0;
    let mut i: usize = 1;
    while i < candidates.len()
        invariant
            1 <= i <= candidates@.len(),
            best < i,
            forall|j: int|
                0 <= j < i ==> (#[trigger] candidates@[j]).tip.0 <= candidates@[best as int].tip.0,
            forall|j: int|
                best < j < i ==> (#[trigger] candidates@[j]).tip.0 < candidates@[best as int].tip.0,
        decreases candidates@.len() - i,
    {
        if candidates[i].tip.0 >= candidates[best].tip.0 {
            best = i;
        }
        i = i + 1;
    }
    assert(leads_at(candidates@, best as int));
    Some(candidates[best])
}

/// Whether a peer is ahead, and so a candidate to fetch from.
pub fn is_candidate(tip: Height, local_height: u64) -> (r: bool)
    ensures
        r == (tip.0 > local_height),
{
    tip.0 > local_height
}

/// A share that was delivered: its first height, who delivered it, its blocks and who failed before.
#[derive(Clone, Debug, PartialEq, Eq)]
pub struct RangeResult {
    pub start: u64,
    pub peer: SocketAddr,
    pub blocks: Vec<Block>,
    pub failed: Vec<SocketAddr>,
}

/// The blocks of the shares by first height; of several shares with one first height, the last.
pub open spec fn shares_by_start(results: Seq<RangeResult>) -> Map<u64, Seq<BlockModel>>
    decreases results.len(),
{
    if results.len() == 0 {
        Map::empty()
    } else {
        shares_by_start(results.drop_last()).insert(
            results.last().start,
            block_models(results.last().blocks@),
        )
    }
}

/// The shares laid end to end in the order of their first heights.
pub open spec fn laid_out(order: Seq<u64>, shares: Map<u64, Seq<BlockModel>>) -> Seq<BlockModel>
    decreases order.len(),
{
    if order.len() == 0 {
        Seq::empty()
    } else {
        laid_out(order.drop_last(), shares) + shares[order.last()]
    }
}

/// The blocks to apply in turn, and the height that stands in the way of the rest, if any.
#[derive(Clone, Debug, PartialEq, Eq)]
pub struct ApplyPlan {
    pub blocks: Vec<Block>,
    pub mismatch: Option<HeightMismatch>,
}

/// A block that is out of place.
#[derive(Clone, Copy, Debug, PartialEq, Eq, Structural)]
pub struct HeightMismatch {
    pub got: u64,
    pub expected: u64,
}

impl HeightMismatch {
    /// The mismatch in words.
    pub open spec fn text(self) -> Seq<char> {
        "parallel sync downloaded height "@ + decimal_text(self.got as nat)
            + " while applying height "@ + decimal_text(self.expected as nat)
    }

    /// The mismatch in words.
    pub fn message(&self) -> (r: String)
        ensures
            r@ == self.text(),
    {
        let mut text = String::from_str("parallel sync downloaded height ");
        text.append(decimal(self.got).as_str());
        text.append(" while applying height ");
        text.append(decimal(self.expected).as_str());
        text
    }
}

/// The first `n` blocks have consecutive heights from a start.
pub open spec fn consecutive(blocks: Seq<BlockModel>, start: u64, n: int) -> bool {
    forall|i: int|
        0 <= i < n ==> (#[trigger] blocks[i]).header.height.0 == height_above(start, i)
}

/// `plan` applies the blocks in place and stops at the first one out of place.
pub open spec fn plans_for(plan: ApplyPlan, all: Seq<BlockModel>, start: u64) -> bool {
    let n = plan.blocks@.len() as int;
    &&& n <= all.len()
    &&& block_models(plan.blocks@) == all.take(n)
    &&& consecutive(all, start, n)
    &&& match plan.mismatch {
        None => n == all.len(),
        Some(mismatch) => {
            &&& n < all.len()
            &&& mismatch.got == all[n].header.height.0
            &&& mismatch.expected == height_above(start, n)
            &&& mismatch.got != mismatch.expected
        },
    }
}

fn append_share(plan: ApplyPlan, share: &Vec<Block>, start: u64, Ghost(before): Ghost<
    Seq<BlockModel>,
>) -> (r: ApplyPlan)
    requires
        plans_for(plan, before, start),
    ensures
        plans_for(r, before + block_models(share@), start),
{
    let ghost models = block_models(share@);
    let ghost all = before + models;
    if plan.mismatch.is_some() {
        proof {
            let n = plan.blocks@.len() as int;
            assert(all.take(n) =~= before.take(n));
            assert forall|i: int| 0 <= i < n implies (#[trigger] all[i]).header.height.0
                == height_above(start, i) by {
                assert(all[i] == before[i]);
            }
        }
        return plan;
    }
    let mut blocks = plan.blocks;
    let mut i: usize = 0;
    let ghost base = before.len() as int;
    proof {
        assert(before.take(base) =~= before);
        assert(all.take(base) =~= before);
        assert forall|k: int| 0 <= k < base implies (#[trigger] all[k]).header.height.0
            == height_above(start, k) by {
            assert(all[k] == before[k]);
        }
    }
    while i < share.len()
        invariant
            i <= share@.len(),
            models == block_models(share@),
            all == before + models,
            base == before.len(),
            blocks@.len() == base + i,
            block_models(blocks@) == all.take(base + i),
            consecutive(all, start, base + i),
        decreases share@.len() - i,
    {
        let height: u64 = share[i].header.height.0;
        let done: usize = blocks.len();
        let expected: u64 = start.saturating_add(done as u64);
        assert(all[base + i] == share@[i as int]@);
        if height != expected {
            return ApplyPlan {
                blocks,
                mismatch: Some(HeightMismatch { got: height, expected }),
            };
        }
        let ghost known = blocks@;
        blocks.push(share[i].duplicate());
        assert(block_models(blocks@) =~= block_models(known).push(all[base + i]));
        assert(block_models(blocks@) =~= all.take(base + i + 1));
        i = i + 1;
    }
    assert(all.take(base + i) =~= all);
    ApplyPlan { blocks, mismatch: None }
}

/// Puts the delivered shares in order and decides which blocks can be applied.
pub fn assemble(results: &Vec<RangeResult>, start: Height) -> (plan: ApplyPlan)
    ensures
        exists|order: Seq<u64>|
            {
                &&& #[trigger] ascending(order)
                &&& order.to_set() == shares_by_start(results@).dom()
                &&& plans_for(plan, laid_out(order, shares_by_start(results@)), start.0)
            },
{
    let mut shares: SortedMap<u64, usize> = SortedMap::new();
    let ghost mut models: Map<u64, Seq<BlockModel>> = Map::empty();
    let mut i: usize = 0;
    while i < results.len()
        invariant
            i <= results@.len(),
            shares.wf(),
            models == shares_by_start(results@.take(i as int)),
            models.dom() == shares@.dom(),
            forall|k: u64| #[trigger]
                shares@.contains_key(k) ==> shares@[k] < i && models[k] == block_models(
                    results@[shares@[k] as int].blocks@,
                ),
        decreases results@.len() - i,
    {
        proof {
            let upto = results@.take(i + 1);
            assert(upto.drop_last() =~= results@.take(i as int));
            assert(upto.last() == results@[i as int]);
            models = models.insert(
                results@[i as int].start,
                block_models(results@[i as int].blocks@),
            );
        }
        shares.insert(results[i].start, i);
        assert(models.dom() =~= shares@.dom());
        i = i + 1;
    }
    assert(results@.take(i as int) =~= results@);
    let ghost order = shares.order();
    proof {
        shares.lemma_order();
    }
    let n: usize = shares.len();
    let mut plan = ApplyPlan { blocks: Vec::new(), mismatch: None };
    let mut k: usize = 0;
    proof {
        assert(order.take(0) =~= Seq::<u64>::empty());
        assert(block_models(plan.blocks@) =~= Seq::<BlockModel>::empty());
        assert(laid_out(order.take(0), models) =~= Seq::<BlockModel>::empty());
        assert(Seq::<BlockModel>::empty().take(0) =~= Seq::<BlockModel>::empty());
    }
    while k < n
        invariant
            k <= n,
            n == order.len(),
            shares.wf(),
            order == shares.order(),
            forall|key: u64| #[trigger]
                shares@.contains_key(key) ==> shares@[key] < results@.len() && models[key]
                    == block_models(results@[shares@[key] as int].blocks@),
            plans_for(plan, laid_out(order.take(k as int), models), start.0),
        decreases n - k,
    {
        let index: usize = *shares.value_at(k);
        let ghost before = laid_out(order.take(k as int), models);
        proof {
            let upto = order.take(k + 1);
            assert(upto.drop_last() =~= order.take(k as int));
            assert(upto.last() == order[k as int]);
        }
        plan = append_share(plan, &results[index].blocks, start.0, Ghost(before));
        k = k + 1;
    }
    assert(order.take(k as int) =~= order);
    plan
}

/// A result delivers a share whole: it starts where the share does and brings a block for each of its
/// heights, in order.
pub open spec fn completes(result: RangeResult, range: SyncRange) -> bool {
    let blocks = block_models(result.blocks@);
    &&& result.start == range.start.0
    &&& blocks.len() == range.target - range.start.0 + 1
    &&& forall|k: int|
        0 <= k < blocks.len() ==> (#[trigger] blocks[k]).header.height.0 == range.start.0 + k
}

/// A result delivers some share whole.
pub open spec fn delivers_one(result: RangeResult, ranges: Seq<SyncRange>) -> bool {
    exists|i: int| 0 <= i < ranges.len() && completes(result, #[trigger] ranges[i])
}

/// Some result delivers a share whole.
pub open spec fn is_delivered(range: SyncRange, results: Seq<RangeResult>) -> bool {
    exists|j: int| 0 <= j < results.len() && completes(#[trigger] results[j], range)
}

/// The results deliver a plan whole: each of them delivers some share, and every share is delivered.
pub open spec fn deliver_all(results: Seq<RangeResult>, ranges: Seq<SyncRange>) -> bool {
    &&& forall|j: int| 0 <= j < results.len() ==> delivers_one(#[trigger] results[j], ranges)
    &&& forall|i: int| 0 <= i < ranges.len() ==> is_delivered(#[trigger] ranges[i], results)
}

/// The shares are those of a plan from start to target.
spec fn are_batches(ranges: Seq<SyncRange>, start: u64, target: u64) -> bool {
    &&& ranges.len() == batch_count(start, target)
    &&& forall|i: int|
        0 <= i < ranges.len() ==> (#[trigger] ranges[i]).start.0 == start + MAX_BLOCKS_PER_BATCH * i
            && ranges[i].target == batch_end(start, target, i)
}

/// The first heights of shares.
spec fn starts_of(ranges: Seq<SyncRange>) -> Seq<u64> {
    Seq::new(ranges.len(), |i: int| ranges[i].start.0)
}

/// What is filed under a first height is what some result with that first height brought.
proof fn lemma_filed_share(results: Seq<RangeResult>, key: u64)
    ensures
        shares_by_start(results).contains_key(key) <==> exists|j: int|
            0 <= j < results.len() && (#[trigger] results[j]).start == key,
        shares_by_start(results).contains_key(key) ==> exists|j: int|
            0 <= j < results.len() && (#[trigger] results[j]).start == key && shares_by_start(
                results,
            )[key] == block_models(results[j].blocks@),
    decreases results.len(),
{
    if results.len() > 0 {
        let fewer = results.drop_last();
        let last = results.len() - 1;
        lemma_filed_share(fewer, key);
        if results.last().start == key {
            assert(results[last].start == key);
        } else {
            if shares_by_start(fewer).contains_key(key) {
                let j = choose|j: int|
                    0 <= j < fewer.len() && (#[trigger] fewer[j]).start == key && shares_by_start(
                        fewer,
                    )[key] == block_models(fewer[j].blocks@);
                assert(results[j].start == key);
            }
            if exists|j: int| 0 <= j < results.len() && (#[trigger] results[j]).start == key {
                let j = choose|j: int| 0 <= j < results.len() && (#[trigger] results[j]).start == key;
                assert(fewer[j].start == key);
            }
        }
    }
}

/// Shares of consecutive batches laid end to end bring all heights up to the end of the last batch.
proof fn lemma_laid_out(
    order: Seq<u64>,
    shares: Map<u64, Seq<BlockModel>>,
    start: u64,
    target: u64,
    n: int,
)
    requires
        start <= target,
        0 <= n <= order.len(),
        order.len() == batch_count(start, target),
        forall|i: int|
            0 <= i < order.len() ==> {
                let share = shares[#[trigger] order[i]];
                &&& order[i] == start + MAX_BLOCKS_PER_BATCH * i
                &&& share.len() == batch_end(start, target, i) - order[i] + 1
                &&& forall|k: int|
                    0 <= k < share.len() ==> (#[trigger] share[k]).header.height.0 == order[i] + k
            },
    ensures
        ({
            let all = laid_out(order.take(n), shares);
            &&& all.len() == (if n == 0 {
                0
            } else {
                batch_end(start, target, n - 1) - start + 1
            })
            &&& forall|k: int|
                0 <= k < all.len() ==> (#[trigger] all[k]).header.height.0 == start + k
        }),
    decreases n,
{
    if n > 0 {
        lemma_laid_out(order, shares, start, target, n - 1);
        let upto = order.take(n);
        assert(upto.drop_last() =~= order.take(n - 1));
        assert(upto.last() == order[n - 1]);
        let before = laid_out(order.take(n - 1), shares);
        let share = shares[order[n - 1]];
        let all = laid_out(upto, shares);
        assert(all == before + share);
        assert(before.len() == MAX_BLOCKS_PER_BATCH * (n - 1));
        assert forall|k: int| 0 <= k < all.len() implies (#[trigger] all[k]).header.height.0
            == start + k by {
            if k < before.len() {
                assert(all[k] == before[k]);
            } else {
                assert(all[k] == share[k - before.len()]);
            }
        }
    }
}

/// The first heights of what was delivered are those of the plan.
proof fn lemma_order_of_delivery(
    order: Seq<u64>,
    results: Seq<RangeResult>,
    ranges: Seq<SyncRange>,
    start: u64,
    target: u64,
)
    requires
        are_batches(ranges, start, target),
        deliver_all(results, ranges),
        ascending(order),
        order.to_set() == shares_by_start(results).dom(),
    ensures
        order == starts_of(ranges),
{
    let starts = starts_of(ranges);
    assert(ascending(starts)) by {
        assert forall|i: int, j: int| 0 <= i < j < starts.len() implies (#[trigger] starts[i]).before(
            #[trigger] starts[j],
        ) by {
            assert(ranges[i].start.0 < ranges[j].start.0);
        }
    }
    assert forall|key: u64| order.contains(key) <==> starts.contains(key) by {
        lemma_filed_share(results, key);
        assert(order.contains(key) <==> order.to_set().contains(key));
        if order.contains(key) {
            let j = choose|j: int| 0 <= j < results.len() && (#[trigger] results[j]).start == key;
            assert(delivers_one(results[j], ranges));
            let i = choose|i: int|
                0 <= i < ranges.len() && completes(results[j], #[trigger] ranges[i]);
            assert(starts[i] == key);
        }
        if starts.contains(key) {
            let i = starts.index_of(key);
            assert(is_delivered(ranges[i], results));
            let j = choose|j: int|
                0 <= j < results.len() && completes(#[trigger] results[j], ranges[i]);
            assert(results[j].start == key);
        }
    }
    ascending_order_is_unique(order, starts);
}

/// What is filed under the first height of a share is the whole share.
proof fn lemma_filed_whole(
    results: Seq<RangeResult>,
    ranges: Seq<SyncRange>,
    start: u64,
    target: u64,
    i: int,
)
    requires
        are_batches(ranges, start, target),
        deliver_all(results, ranges),
        0 <= i < ranges.len(),
    ensures
        ({
            let key = ranges[i].start.0;
            let share = shares_by_start(results)[key];
            &&& share.len() == batch_end(start, target, i) - key + 1
            &&& forall|k: int|
                0 <= k < share.len() ==> (#[trigger] share[k]).header.height.0 == key + k
        }),
{
    let key = ranges[i].start.0;
    assert(is_delivered(ranges[i], results));
    let some = choose|j: int| 0 <= j < results.len() && completes(#[trigger] results[j], ranges[i]);
    assert(results[some].start == key);
    lemma_filed_share(results, key);
    let j = choose|j: int|
        0 <= j < results.len() && (#[trigger] results[j]).start == key && shares_by_start(
            results,
        )[key] == block_models(results[j].blocks@);
    assert(delivers_one(results[j], ranges));
    let m = choose|m: int| 0 <= m < ranges.len() && completes(results[j], #[trigger] ranges[m]);
    assert(m == i);
}

/// If every share of a plan is delivered whole, in whatever order, they are assembled without a
/// mismatch into one block for each height from start to target, in height order.
pub proof fn whole_shares_fit_together(
    plan: ApplyPlan,
    order: Seq<u64>,
    results: Seq<RangeResult>,
    ranges: Seq<SyncRange>,
    start: u64,
    target: u64,
    headers: Seq<SealedHeader>,
    peers: Seq<SocketAddr>,
)
    requires
        start <= target,
        ranges.len() == batch_count(start, target),
        forall|i: int|
            0 <= i < ranges.len() ==> is_share(
                #[trigger] ranges[i],
                i,
                start,
                target,
                headers,
                peers,
            ),
        deliver_all(results, ranges),
        ascending(order),
        order.to_set() == shares_by_start(results).dom(),
        plans_for(plan, laid_out(order, shares_by_start(results)), start),
    ensures
        plan.mismatch is None,
        plan.blocks@.len() == target - start + 1,
        forall|k: int|
            0 <= k < plan.blocks@.len() ==> (#[trigger] plan.blocks@[k])@.header.height.0 == start
                + k,
{
    let shares = shares_by_start(results);
    assert(are_batches(ranges, start, target)) by {
        assert forall|i: int| 0 <= i < ranges.len() implies (#[trigger] ranges[i]).start.0 == start
            + MAX_BLOCKS_PER_BATCH * i && ranges[i].target == batch_end(start, target, i) by {
            assert(is_share(ranges[i], i, start, target, headers, peers));
        }
    }
    lemma_order_of_delivery(order, results, ranges, start, target);
    assert forall|i: int| 0 <= i < order.len() implies {
        let share = shares[#[trigger] order[i]];
        &&& order[i] == start + MAX_BLOCKS_PER_BATCH * i
        &&& share.len() == batch_end(start, target, i) - order[i] + 1
        &&& forall|k: int|
            0 <= k < share.len() ==> (#[trigger] share[k]).header.height.0 == order[i] + k
    } by {
        lemma_filed_whole(results, ranges, start, target, i);
        assert(order[i] == ranges[i].start.0);
    }
    lemma_laid_out(order, shares, start, target, order.len() as int);
    assert(order.take(order.len() as int) =~= order);
    let all = laid_out(order, shares);
    assert(all.len() == target - start + 1);
    let n = plan.blocks@.len() as int;
    if plan.mismatch is Some {
        assert(all[n].header.height.0 == start + n);
    }
    assert forall|k: int| 0 <= k < n implies (#[trigger] plan.blocks@[k])@.header.height.0 == start
        + k by {
        assert(block_models(plan.blocks@)[k] == all[k]);
    }
}

/// An address delivered a share.
pub open spec fn delivered(results: Seq<RangeResult>, addr: SocketAddr) -> bool {
    exists|i: int| 0 <= i < results.len() && (#[trigger] results[i]).peer == addr
}

/// An address failed to deliver a share.
pub open spec fn failed_once(results: Seq<RangeResult>, addr: SocketAddr) -> bool {
    exists|i: int| 0 <= i < results.len() && (#[trigger] results[i]).failed@.contains(addr)
}

/// Every address that delivered a share, once each.
pub fn used_peers(results: &Vec<RangeResult>) -> (used: Vec<SocketAddr>)
    ensures
        used@.no_duplicates(),
        forall|addr: SocketAddr| #[trigger] used@.contains(addr) <==> delivered(results@, addr),
{
    let mut used: Vec<SocketAddr> = Vec::new();
    let mut i: usize = 0;
    while i < results.len()
        invariant
            i <= results@.len(),
            used@.no_duplicates(),
            forall|addr: SocketAddr| #[trigger]
                used@.contains(addr) <==> delivered(results@.take(i as int), addr),
        decreases results@.len() - i,
    {
        let peer = results[i].peer;
        let ghost before = used@;
        if !contains_addr(&used, peer) {
            used.push(peer);
        }
        proof {
            assert forall|addr: SocketAddr| #[trigger] used@.contains(addr) <==> delivered(
                results@.take(i + 1),
                addr,
            ) by {
                let less = results@.take(i as int);
                let more = results@.take(i + 1);
                if used@.contains(addr) {
                    if before.contains(addr) {
                        let k = choose|k: int| 0 <= k < less.len() && (#[trigger] less[k]).peer == addr;
                        assert(more[k].peer == addr);
                    } else {
                        let k = used@.index_of(addr);
                        assert(addr == peer);
                        assert(more[i as int].peer == addr);
                    }
                }
                if delivered(more, addr) {
                    let k = choose|k: int| 0 <= k < more.len() && (#[trigger] more[k]).peer == addr;
                    if k < i {
                        assert(less[k].peer == addr);
                        assert(before.contains(addr));
                        let m = before.index_of(addr);
                        assert(used@[m] == addr);
                    } else if before.contains(addr) {
                        let m = before.index_of(addr);
                        assert(used@[m] == addr);
                    } else {
                        assert(used@[before.len() as int] == addr);
                    }
                }
            }
        }
        i = i + 1;
    }
    assert(results@.take(i as int) =~= results@);
    used
}

/// Every address that failed to deliver a share and delivered none, once each.
pub fn failed_peers(results: &Vec<RangeResult>) -> (failed: Vec<SocketAddr>)
    ensures
        failed@.no_duplicates(),
        forall|addr: SocketAddr| #[trigger]
            failed@.contains(addr) <==> failed_once(results@, addr) && !delivered(results@, addr),
{
    let used = used_peers(results);
    let mut failed: Vec<SocketAddr> = Vec::new();
    let mut i: usize = 0;
    while i < results.len()
        invariant
            i <= results@.len(),
            failed@.no_duplicates(),
            forall|addr: SocketAddr| #[trigger]
                used@.contains(addr) <==> delivered(results@, addr),
            forall|addr: SocketAddr| #[trigger]
                failed@.contains(addr) <==> failed_once(results@.take(i as int), addr)
                    && !delivered(results@, addr),
        decreases results@.len() - i,
    {
        let list = &results[i].failed;
        let ghost outer = failed@;
        let mut j: usize = 0;
        while j < list.len()
            invariant
                j <= list@.len(),
                failed@.no_duplicates(),
                forall|addr: SocketAddr| #[trigger]
                    used@.contains(addr) <==> delivered(results@, addr),
                forall|addr: SocketAddr| #[trigger]
                    failed@.contains(addr) <==> outer.contains(addr) || (list@.take(
                        j as int,
                    ).contains(addr) && !delivered(results@, addr)),
            decreases list@.len() - j,
        {
            let peer = list[j];
            let ghost before = failed@;
            let skip = contains_addr(&used, peer) || contains_addr(&failed, peer);
            if !skip {
                failed.push(peer);
            }
            proof {
                assert forall|addr: SocketAddr| #[trigger] failed@.contains(addr)
                    <==> outer.contains(addr) || (list@.take(j + 1).contains(addr) && !delivered(
                    results@,
                    addr,
                )) by {
                    let less = list@.take(j as int);
                    let more = list@.take(j + 1);
                    assert(used@.contains(peer) <==> delivered(results@, peer));
                    assert(before.contains(addr) <==> outer.contains(addr) || (less.contains(addr)
                        && !delivered(results@, addr)));
                    if more.contains(addr) {
                        let k = more.index_of(addr);
                        if k < j {
                            assert(less[k] == addr);
                        }
                    }
                    if less.contains(addr) {
                        let k = less.index_of(addr);
                        assert(more[k] == addr);
                    }
                    assert(more[j as int] == peer);
                    if before.contains(addr) {
                        let k = before.index_of(addr);
                        assert(failed@[k] == addr);
                    }
                    if failed@.contains(addr) && !before.contains(addr) {
                        let k = failed@.index_of(addr);
                        assert(k == before.len());
                    }
                    if !skip {
                        assert(failed@[before.len() as int] == peer);
                    }
                }
            }
            j = j + 1;
        }
        proof {
            assert(list@.take(j as int) =~= list@);
            assert forall|addr: SocketAddr| #[trigger] failed@.contains(addr) <==> failed_once(
                results@.take(i + 1),
                addr,
            ) && !delivered(results@, addr) by {
                let less = results@.take(i as int);
                let more = results@.take(i + 1);
                assert(outer.contains(addr) <==> failed_once(less, addr) && !delivered(
                    results@,
                    addr,
                ));
                if failed_once(less, addr) {
                    let k = choose|k: int|
                        0 <= k < less.len() && (#[trigger] less[k]).failed@.contains(addr);
                    assert(more[k].failed@.contains(addr));
                }
                if failed_once(more, addr) {
                    let k = choose|k: int|
                        0 <= k < more.len() && (#[trigger] more[k]).failed@.contains(addr);
                    if k < i {
                        assert(less[k].failed@.contains(addr));
                    }
                }
                if list@.contains(addr) {
                    assert(more[i as int].failed@.contains(addr));
                }
            }
        }
        i = i + 1;
    }
    assert(results@.take(i as int) =~= results@);
    failed
}

/// No peer is reported both as used and as failed.
pub proof fn used_and_failed_are_disjoint(
    results: Seq<RangeResult>,
    used: Seq<SocketAddr>,
    failed: Seq<SocketAddr>,
    addr: SocketAddr,
)
    requires
        forall|a: SocketAddr| #[trigger] used.contains(a) <==> delivered(results, a),
        forall|a: SocketAddr| #[trigger]
            failed.contains(a) <==> failed_once(results, a) && !delivered(results, a),
    ensures
        !(used.contains(addr) && failed.contains(addr)),
{
}

impl ParallelSyncReport {
    /// The report of a download: who delivered, and who failed and delivered nothing.
    pub fn of(remote_tip: Height, applied_blocks: usize, results: &Vec<RangeResult>) -> (r: Self)
        ensures
            r.remote_tip == remote_tip,
            r.applied_blocks == applied_blocks,
            r.used_peers == r.used_peer_addrs@.len(),
            r.used_peer_addrs@.no_duplicates(),
            forall|addr: SocketAddr| #[trigger]
                r.used_peer_addrs@.contains(addr) <==> delivered(results@, addr),
            r.failed_peer_addrs@.no_duplicates(),
            forall|addr: SocketAddr| #[trigger]
                r.failed_peer_addrs@.contains(addr) <==> failed_once(results@, addr) && !delivered(
                    results@,
                    addr,
                ),
    {
        let used = used_peers(results);
        let failed = failed_peers(results);
        ParallelSyncReport {
            remote_tip,
            applied_blocks,
            used_peers: used.len(),
            used_peer_addrs: used,
            failed_peer_addrs: failed,
        }
    }
}

/// Whether the peers that are due are asked together before each is asked alone.
pub fn asks_together(due: usize) -> (r: bool)
    ensures
        r == (due > 1),
{
    due > 1
}

/// Whether a common download leaves nothing to ask each peer alone for: it brought blocks.
pub fn settles_round(report: &Result<ParallelSyncReport, String>) -> (r: bool)
    ensures
        r == (*report matches Ok(done) && done.applied_blocks > 0),
{
    match report {
        Ok(done) => done.applied_blocks > 0,
        Err(_) => false,
    }
}

} // verus!
