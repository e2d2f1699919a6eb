//! Telling news apart from what was heard before, and counting who was told.
use crate::ids::{BlockHash, TransactionHash};
use crate::order::Sortable;
use crate::sorted_map::SortedMap;
use crate::sync::peer::{contains_addr, SocketAddr};
use std::collections::VecDeque;
use vstd::prelude::*;

verus! {

/// How far a message was spread.
#[derive(Clone, Copy, Debug, PartialEq, Eq, Structural)]
pub struct BroadcastReport {
    pub attempted: usize,
    pub sent: usize,
    pub failed: usize,
}

impl Default for BroadcastReport {
    fn default() -> (r: Self)
        ensures
            r == (BroadcastReport { attempted: 0, sent: 0, failed: 0 }),
    {
        BroadcastReport { attempted: 0, sent: 0, failed: 0 }
    }
}

/// The last things of one kind that were heard of, up to a capacity, oldest first.
#[derive(Clone, Debug)]
pub struct SeenList<T> {
    capacity: usize,
    seen: SortedMap<T, ()>,
    order: VecDeque<T>,
}

/// What is remembered after hearing of something: the news goes to the end, and the oldest leaves when
/// there is no room.
pub open spec fn remembered<T>(capacity: int, order: Seq<T>, value: T) -> Seq<T> {
    if order.contains(value) || capacity == 0 {
        order
    } else if order.len() < capacity {
        order.push(value)
    } else {
        order.push(value).skip(1)
    }
}

impl<T: Sortable> SeenList<T> {
    /// What is remembered, oldest first.
    pub closed spec fn memory(&self) -> Seq<T> {
        self.order@
    }

    /// How much can be remembered.
    pub closed spec fn room(&self) -> int {
        self.capacity as int
    }

    /// Nothing is remembered twice or beyond the capacity, and the index is right.
    pub closed spec fn wf(&self) -> bool {
        &&& self.seen.wf()
        &&& self.order@.no_duplicates()
        &&& self.order@.len() <= self.capacity
        &&& forall|v: T| #[trigger] self.seen@.contains_key(v) <==> self.order@.contains(v)
    }

    /// Nothing is remembered twice, and never more than there is room for.
    pub proof fn memory_is_bounded(&self)
        requires
            self.wf(),
        ensures
            self.memory().no_duplicates(),
            self.memory().len() <= self.room(),
    {
    }

    /// An empty memory.
    pub fn new(capacity: usize) -> (r: Self)
        ensures
            r.wf(),
            r.memory() == Seq::<T>::empty(),
            r.room() == capacity,
    {
        SeenList { capacity, seen: SortedMap::new(), order: VecDeque::new() }
    }

    /// Says whether something is news, and remembers it.
    pub fn mark_seen(&mut self, value: T) -> (r: bool)
        requires
            old(self).wf(),
        ensures
            final(self).wf(),
            final(self).room() == old(self).room(),
            r == !old(self).memory().contains(value),
            final(self).memory() == remembered(old(self).room(), old(self).memory(), value),
    {
        if self.seen.contains_key(&value) {
            return false;
        }
        if self.capacity == 0 {
            return true;
        }
        let ghost before = self.order@;
        self.seen.insert(value, ());
        self.order.push_back(value);
        let ghost grown = self.order@;
        proof {
            assert forall|v: T| #[trigger] self.seen@.contains_key(v) <==> grown.contains(v) by {
                if before.contains(v) {
                    let i = before.index_of(v);
                    assert(grown[i] == v);
                }
                if v == value {
                    assert(grown[before.len() as int] == v);
                }
                if grown.contains(v) && v != value {
                    let i = grown.index_of(v);
                    assert(before[i] == v);
                }
            }
            assert(grown.no_duplicates());
        }
        if self.order.len() > self.capacity {
            let evicted = match self.order.pop_front() {
                Some(evicted) => evicted,
                None => value,
            };
            let _ = self.seen.remove(&evicted);
            proof {
                assert(self.order@ =~= grown.skip(1));
                assert(evicted == grown[0]);
                assert forall|v: T| #[trigger] self.seen@.contains_key(v)
                    <==> self.order@.contains(v) by {
                    if self.order@.contains(v) {
                        let i = self.order@.index_of(v);
                        assert(grown[i + 1] == v);
                        assert(grown.contains(v));
                    }
                    if grown.contains(v) && v != evicted {
                        let i = grown.index_of(v);
                        assert(self.order@[i - 1] == v);
                    }
                }
            }
        }
        true
    }
}

/// The blocks and transactions that were heard of lately.
#[derive(Clone, Debug)]
pub struct GossipDedupe {
    blocks: SeenList<BlockHash>,
    transactions: SeenList<TransactionHash>,
}

impl GossipDedupe {
    /// The blocks that are remembered, oldest first.
    pub closed spec fn blocks_heard(&self) -> Seq<BlockHash> {
        self.blocks.memory()
    }

    /// The transactions that are remembered, oldest first.
    pub closed spec fn transactions_heard(&self) -> Seq<TransactionHash> {
        self.transactions.memory()
    }

    /// How many of each can be remembered.
    pub closed spec fn room(&self) -> int {
        self.blocks.room()
    }

    /// Both memories are well formed and of one size.
    pub closed spec fn wf(&self) -> bool {
        &&& self.blocks.wf()
        &&& self.transactions.wf()
        &&& self.blocks.room() == self.transactions.room()
    }

    /// An empty memory of a given size.
    pub fn new(capacity: usize) -> (r: Self)
        ensures
            r.wf(),
            r.room() == capacity,
            r.blocks_heard() == Seq::<BlockHash>::empty(),
            r.transactions_heard() == Seq::<TransactionHash>::empty(),
    {
        GossipDedupe { blocks: SeenList::new(capacity), transactions: SeenList::new(capacity) }
    }

    /// Says whether a block is news, and remembers it.
    pub fn mark_block_seen(&mut self, hash: BlockHash) -> (r: bool)
        requires
            old(self).wf(),
        ensures
            final(self).wf(),
            final(self).room() == old(self).room(),
            r == !old(self).blocks_heard().contains(hash),
            final(self).blocks_heard() == remembered(
                old(self).room(),
                old(self).blocks_heard(),
                hash,
            ),
            final(self).transactions_heard() == old(self).transactions_heard(),
    {
        self.blocks.mark_seen(hash)
    }

    /// Says whether a transaction is news, and remembers it.
    pub fn mark_transaction_seen(&mut self, hash: TransactionHash) -> (r: bool)
        requires
            old(self).wf(),
        ensures
            final(self).wf(),
            final(self).room() == old(self).room(),
            r == !old(self).transactions_heard().contains(hash),
            final(self).transactions_heard() == remembered(
                old(self).room(),
                old(self).transactions_heard(),
                hash,
            ),
            final(self).blocks_heard() == old(self).blocks_heard(),
    {
        self.transactions.mark_seen(hash)
    }
}

/// What was just heard of is remembered, if anything can be, and hearing of it again at once is no
/// news and changes nothing.
pub proof fn news_is_news_once<T>(capacity: int, order: Seq<T>, value: T)
    requires
        capacity > 0,
    ensures
        remembered(capacity, order, value).contains(value),
        remembered(capacity, remembered(capacity, order, value), value) == remembered(
            capacity,
            order,
            value,
        ),
{
    let after = remembered(capacity, order, value);
    if !order.contains(value) {
        if order.len() < capacity {
            assert(after[order.len() as int] == value);
        } else {
            assert(after[order.len() - 1] == value);
        }
    }
}

/// Where a broadcast tries to deliver a message.
#[derive(Clone, Copy, Debug, PartialEq, Eq, Structural)]
pub enum BroadcastTarget {
    /// A peer that this node connects to.
    Outbound(SocketAddr),
    /// A peer that connected to this node.
    Inbound(SocketAddr),
}

/// The inbound peers that are not known as outbound ones, in order.
pub open spec fn inbound_only(
    outbound: Seq<SocketAddr>,
    inbound: Seq<SocketAddr>,
) -> Seq<BroadcastTarget>
    decreases inbound.len(),
{
    if inbound.len() == 0 {
        Seq::empty()
    } else {
        let rest = inbound_only(outbound, inbound.drop_last());
        if outbound.contains(inbound.last()) {
            rest
        } else {
            rest.push(BroadcastTarget::Inbound(inbound.last()))
        }
    }
}

/// All targets of a broadcast: first the outbound peers, and the inbound peers that are not among them.
pub open spec fn broadcast_plan(
    outbound: Seq<SocketAddr>,
    inbound: Seq<SocketAddr>,
) -> Seq<BroadcastTarget> {
    Seq::new(outbound.len(), |i: int| BroadcastTarget::Outbound(outbound[i])) + inbound_only(
        outbound,
        inbound,
    )
}

/// Lists the targets of a broadcast.
pub fn broadcast_targets(
    outbound: &Vec<SocketAddr>,
    inbound: &Vec<SocketAddr>,
) -> (targets: Vec<BroadcastTarget>)
    ensures
        targets@ == broadcast_plan(outbound@, inbound@),
{
    let mut targets: Vec<BroadcastTarget> = Vec::new();
    let mut i: usize = 0;
    while i < outbound.len()
        invariant
            i <= outbound@.len(),
            targets@ =~= Seq::new(i as nat, |k: int| BroadcastTarget::Outbound(outbound@[k])),
        decreases outbound@.len() - i,
    {
        targets.push(BroadcastTarget::Outbound(outbound[i]));
        i = i + 1;
    }
    let ghost first = targets@;
    let mut j: usize = 0;
    assert(first + inbound_only(outbound@, inbound@.take(0)) =~= first);
    while j < inbound.len()
        invariant
            j <= inbound@.len(),
            targets@ == first + inbound_only(outbound@, inbound@.take(j as int)),
        decreases inbound@.len() - j,
    {
        let peer = inbound[j];
        assert(inbound@.take(j + 1).drop_last() =~= inbound@.take(j as int));
        let ghost before = targets@;
        if !contains_addr(outbound, peer) {
            targets.push(BroadcastTarget::Inbound(peer));
        }
        assert(targets@ =~= first + inbound_only(outbound@, inbound@.take(j + 1)));
        j = j + 1;
    }
    assert(inbound@.take(j as int) =~= inbound@);
    targets
}

/// The number of deliveries that succeeded.
pub open spec fn successes(outcomes: Seq<bool>) -> nat
    decreases outcomes.len(),
{
    if outcomes.len() == 0 {
        0
    } else {
        successes(outcomes.drop_last()) + (if outcomes.last() {
            1nat
        } else {
            0nat
        })
    }
}

/// Counts attempts, deliveries and failures. Each outcome says whether its delivery succeeded.
pub fn broadcast_report(outcomes: &Vec<bool>) -> (r: BroadcastReport)
    ensures
        r.attempted == outcomes@.len(),
        r.sent == successes(outcomes@),
        r.sent + r.failed == r.attempted,
{
    let mut sent: usize = 0;
    let mut i: usize = 0;
    while i < outcomes.len()
        invariant
            i <= outcomes@.len(),
            sent <= i,
            sent == successes(outcomes@.take(i as int)),
        decreases outcomes@.len() - i,
    {
        assert(outcomes@.take(i + 1).drop_last() =~= outcomes@.take(i as int));
        if outcomes[i] {
            sent = sent + 1;
        }
        i = i + 1;
    }
    assert(outcomes@.take(i as int) =~= outcomes@);
    let attempted: usize = outcomes.len();
    BroadcastReport { attempted, sent, failed: attempted - sent }
}

/// No inbound peer is told twice: a target is inbound only if its address is not outbound.
pub proof fn nobody_is_told_on_both_sides(
    outbound: Seq<SocketAddr>,
    inbound: Seq<SocketAddr>,
    addr: SocketAddr,
)
    ensures
        broadcast_plan(outbound, inbound).contains(BroadcastTarget::Inbound(addr)) <==> (
        inbound.contains(addr) && !outbound.contains(addr)),
        broadcast_plan(outbound, inbound).contains(BroadcastTarget::Outbound(addr))
            <==> outbound.contains(addr),
{
    lemma_inbound_only(outbound, inbound, addr);
    let first = Seq::new(outbound.len(), |i: int| BroadcastTarget::Outbound(outbound[i]));
    let second = inbound_only(outbound, inbound);
    let plan = first + second;
    if plan.contains(BroadcastTarget::Inbound(addr)) {
        let i = plan.index_of(BroadcastTarget::Inbound(addr));
        assert(i >= first.len());
        assert(second[i - first.len()] == BroadcastTarget::Inbound(addr));
    }
    if second.contains(BroadcastTarget::Inbound(addr)) {
        let i = second.index_of(BroadcastTarget::Inbound(addr));
        assert(plan[first.len() + i] == BroadcastTarget::Inbound(addr));
    }
    if outbound.contains(addr) {
        let i = outbound.index_of(addr);
        assert(plan[i] == BroadcastTarget::Outbound(addr));
    }
    if plan.contains(BroadcastTarget::Outbound(addr)) {
        let i = plan.index_of(BroadcastTarget::Outbound(addr));
        if i < first.len() {
            assert(outbound[i] == addr);
        } else {
            assert(second[i - first.len()] == BroadcastTarget::Outbound(addr));
            assert(second.contains(BroadcastTarget::Outbound(addr)));
        }
    }
}

proof fn lemma_inbound_only(
    outbound: Seq<SocketAddr>,
    inbound: Seq<SocketAddr>,
    addr: SocketAddr,
)
    ensures
        inbound_only(outbound, inbound).contains(BroadcastTarget::Inbound(addr)) <==> (
        inbound.contains(addr) && !outbound.contains(addr)),
        !inbound_only(outbound, inbound).contains(BroadcastTarget::Outbound(addr)),
    decreases inbound.len(),
{
    if inbound.len() > 0 {
        let shorter = inbound.drop_last();
        let rest = inbound_only(outbound, shorter);
        let whole = inbound_only(outbound, inbound);
        let last = inbound.last();
        lemma_inbound_only(outbound, shorter, addr);
        if inbound.contains(addr) {
            let i = inbound.index_of(addr);
            if i < shorter.len() {
                assert(shorter[i] == addr);
            }
        }
        if shorter.contains(addr) {
            let i = shorter.index_of(addr);
            assert(inbound[i] == addr);
        }
        assert(inbound[inbound.len() - 1] == last);
        if !outbound.contains(last) {
            assert(whole[rest.len() as int] == BroadcastTarget::Inbound(last));
            if rest.contains(BroadcastTarget::Inbound(addr)) {
                let i = rest.index_of(BroadcastTarget::Inbound(addr));
                assert(whole[i] == BroadcastTarget::Inbound(addr));
            }
            if whole.contains(BroadcastTarget::Inbound(addr)) {
                let i = whole.index_of(BroadcastTarget::Inbound(addr));
                if i < rest.len() {
                    assert(rest[i] == BroadcastTarget::Inbound(addr));
                }
            }
            if whole.contains(BroadcastTarget::Outbound(addr)) {
                let i = whole.index_of(BroadcastTarget::Outbound(addr));
                assert(rest[i] == BroadcastTarget::Outbound(addr));
            }
        }
    }
}

} // verus!
