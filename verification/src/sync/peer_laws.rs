//! What a node learns of its peers, peer by peer.
use crate::ids::Height;
use crate::order::Sortable;
use crate::sync::book::{
    after_deliveries, after_failed_round, after_failures, discovered, introduced,
    introductions_are_bounded, is_ahead, updated, window_of, PeerMap,
};
use crate::sync::peer::{
    after_failed, after_ok, after_synced, dedupe_keeps_each_once, deduped, fresh_peer, narrowed,
    retry_delay_secs, widened, PeerState, SocketAddr,
};
use vstd::prelude::*;

verus! {

/// The wait after failures in a row starts at two seconds and doubles with each failure, up to a
/// minute.
pub proof fn waits_double_up_to_a_minute(failures: u32)
    ensures
        failures <= 1 ==> retry_delay_secs(failures) == 2,
        1 <= failures < u32::MAX && 2 * retry_delay_secs(failures) <= 60 ==> retry_delay_secs(
            (failures + 1) as u32,
        ) == 2 * retry_delay_secs(failures),
        1 <= failures < u32::MAX && 2 * retry_delay_secs(failures) > 60 ==> retry_delay_secs(
            (failures + 1) as u32,
        ) == 60,
{
}

/// A full batch doubles the window and a failure halves it, within 32 and 256.
pub proof fn windows_double_and_halve(window: u64)
    ensures
        2 * window <= 256 ==> widened(window) == 2 * window,
        2 * window > 256 ==> widened(window) == 256,
        window >= 64 ==> narrowed(window) == window / 2,
        window < 64 ==> narrowed(window) == 32,
{
}

/// A new peer has failed in nothing, told nothing and may be asked at once. A good answer clears its
/// failures, notes its tip and postpones the next question by five seconds. A batch of blocks does the
/// same, and widens the window if it filled it. A failure is counted, narrows the window and postpones
/// the next question by the wait that is due. Nothing else is touched.
pub proof fn answers_and_failures_are_noted(
    state: PeerState,
    addr: SocketAddr,
    tip: Height,
    blocks: usize,
    now: u64,
)
    requires
        now + 60_000 <= u64::MAX,
        state.failures < u32::MAX,
    ensures
        ({
            let fresh = fresh_peer(addr, now);
            &&& fresh.addr == addr
            &&& fresh.failures == 0
            &&& fresh.next_attempt == now
            &&& fresh.last_tip is None
            &&& fresh.sync_window == 64
        }),
        ({
            let good = after_ok(state, Some(tip), now);
            &&& good.addr == state.addr
            &&& good.failures == 0
            &&& good.next_attempt == now + 5_000
            &&& good.last_tip == Some(tip)
            &&& good.sync_window == state.sync_window
        }),
        ({
            let synced = after_synced(state, tip, blocks, now);
            &&& synced.addr == state.addr
            &&& synced.failures == 0
            &&& synced.next_attempt == now + 5_000
            &&& synced.last_tip == Some(tip)
            &&& blocks < state.sync_window ==> synced.sync_window == state.sync_window
            &&& blocks >= state.sync_window && state.sync_window <= 128 ==> synced.sync_window == 2
                * state.sync_window
            &&& blocks >= state.sync_window && state.sync_window > 128 ==> synced.sync_window == 256
        }),
        ({
            let failed = after_failed(state, now);
            &&& failed.addr == state.addr
            &&& failed.failures == state.failures + 1
            &&& failed.next_attempt == now + 1_000 * retry_delay_secs(failed.failures)
            &&& failed.last_tip == state.last_tip
            &&& state.sync_window >= 64 ==> failed.sync_window == state.sync_window / 2
            &&& state.sync_window < 64 ==> failed.sync_window == 32
        }),
        is_ahead(after_ok(state, Some(tip), now), blocks as u64) <==> tip.0 > blocks as u64,
        !is_ahead(fresh_peer(addr, now), now),
{
}

/// An address loops back exactly if it starts with 127, or is the one of its version six.
pub proof fn loopback_addresses(addr: SocketAddr)
    ensures
        addr is V4 ==> (addr.loops_back() <==> 0x7f00_0000 <= addr->V4_ip && addr->V4_ip
            <= 0x7fff_ffff),
        addr is V6 ==> (addr.loops_back() <==> addr->V6_ip == 1),
{
}

/// Addresses of version four come first; those of one version go by their numbers, at one number by
/// their ports, and then by flow and scope.
pub proof fn addresses_go_by_number_and_port(a: SocketAddr, b: SocketAddr)
    ensures
        a is V4 && b is V6 ==> a.before(b) && !b.before(a),
        a is V4 && b is V4 && a->V4_ip != b->V4_ip ==> (a.before(b) <==> a->V4_ip < b->V4_ip),
        a is V4 && b is V4 && a->V4_ip == b->V4_ip ==> (a.before(b) <==> a->V4_port < b->V4_port),
        a is V6 && b is V6 && a->V6_ip != b->V6_ip ==> (a.before(b) <==> a->V6_ip < b->V6_ip),
        a is V6 && b is V6 && a->V6_ip == b->V6_ip && a->V6_port != b->V6_port ==> (a.before(b)
            <==> a->V6_port < b->V6_port),
        a is V6 && b is V6 && a->V6_ip == b->V6_ip && a->V6_port == b->V6_port && a->flowinfo
            != b->flowinfo ==> (a.before(b) <==> a->flowinfo < b->flowinfo),
        a is V6 && b is V6 && a->V6_ip == b->V6_ip && a->V6_port == b->V6_port && a->flowinfo
            == b->flowinfo ==> (a.before(b) <==> a->scope_id < b->scope_id),
{
}

/// Of equal entries the first one stays, in its place: where one address comes before another in the
/// deduplicated list, it comes in the list before the other comes at all.
pub proof fn first_occurrences_stay_in_order(list: Seq<SocketAddr>, i: int, j: int) -> (p: int)
    requires
        0 <= i < j < deduped(list).len(),
    ensures
        0 <= p < list.len(),
        list[p] == deduped(list)[i],
        forall|q: int| 0 <= q <= p ==> #[trigger] list[q] != deduped(list)[j],
    decreases list.len(),
{
    let shorter = list.drop_last();
    let rest = deduped(shorter);
    if j < rest.len() {
        let p = first_occurrences_stay_in_order(shorter, i, j);
        assert forall|q: int| 0 <= q <= p implies #[trigger] list[q] != deduped(list)[j] by {
            assert(shorter[q] == list[q]);
        }
        p
    } else {
        dedupe_keeps_each_once(shorter);
        assert(rest.contains(rest[i]));
        assert(shorter.contains(rest[i]));
        let p = shorter.index_of(rest[i]);
        assert forall|q: int| 0 <= q <= p implies #[trigger] list[q] != deduped(list)[j] by {
            if list[q] == list.last() {
                assert(shorter[q] == list.last());
                assert(shorter.contains(list.last()));
                assert(rest.contains(list.last()));
            }
        }
        p
    }
}

/// An address is introduced unless it is one of the node's own, is known already, or the limit is
/// reached. New peers are fresh, known ones stay as they are.
pub proof fn introductions_stop_only_at_the_limit(
    peers: PeerMap,
    offered: Seq<Option<SocketAddr>>,
    public_addrs: Seq<SocketAddr>,
    listen_addrs: Seq<SocketAddr>,
    max_peers: int,
    now: u64,
)
    requires
        peers.dom().finite(),
    ensures
        ({
            let after = introduced(peers, offered, public_addrs, listen_addrs, max_peers, now);
            &&& after.len() < max_peers ==> forall|addr: SocketAddr|
                #![trigger after.contains_key(addr)]
                offered.contains(Some(addr)) && !public_addrs.contains(addr)
                    && !listen_addrs.contains(addr) ==> after.contains_key(addr)
            &&& forall|addr: SocketAddr| #[trigger]
                after.contains_key(addr) && !peers.contains_key(addr) ==> {
                    &&& offered.contains(Some(addr))
                    &&& !public_addrs.contains(addr)
                    &&& !listen_addrs.contains(addr)
                    &&& after[addr].addr == addr
                    &&& after[addr].failures == 0
                    &&& after[addr].next_attempt == now
                    &&& after[addr].last_tip is None
                }
            &&& forall|addr: SocketAddr| #[trigger]
                peers.contains_key(addr) ==> after.contains_key(addr) && after[addr]
                    == peers[addr]
            &&& after.len() <= max_peers || after == peers
        }),
{
    introductions_are_bounded(peers, offered, public_addrs, listen_addrs, max_peers, now);
    let after = introduced(peers, offered, public_addrs, listen_addrs, max_peers, now);
    if after.len() < max_peers {
        assert forall|addr: SocketAddr|
            #![trigger after.contains_key(addr)]
            offered.contains(Some(addr)) && !public_addrs.contains(addr)
                && !listen_addrs.contains(addr) implies after.contains_key(addr) by {
            lemma_offered_is_introduced(
                peers,
                offered,
                public_addrs,
                listen_addrs,
                max_peers,
                now,
                addr,
            );
        }
    }
}

proof fn lemma_offered_is_introduced(
    peers: PeerMap,
    offered: Seq<Option<SocketAddr>>,
    public_addrs: Seq<SocketAddr>,
    listen_addrs: Seq<SocketAddr>,
    max_peers: int,
    now: u64,
    addr: SocketAddr,
)
    requires
        peers.dom().finite(),
        introduced(peers, offered, public_addrs, listen_addrs, max_peers, now).len() < max_peers,
        offered.contains(Some(addr)),
        !public_addrs.contains(addr),
        !listen_addrs.contains(addr),
    ensures
        introduced(peers, offered, public_addrs, listen_addrs, max_peers, now).contains_key(addr),
    decreases offered.len(),
{
    let rest = offered.skip(1);
    let next = match offered[0] {
        Some(first) => if public_addrs.contains(first) || listen_addrs.contains(first)
            || peers.contains_key(first) {
            peers
        } else {
            peers.insert(first, fresh_peer(first, now))
        },
        None => peers,
    };
    assert(offered.len() > 0);
    assert(peers.len() < max_peers);
    introductions_are_bounded(next, rest, public_addrs, listen_addrs, max_peers, now);
    if offered[0] == Some(addr) {
        assert(next.contains_key(addr));
    } else {
        let j = offered.index_of(Some(addr));
        assert(rest[j - 1] == Some(addr));
        lemma_offered_is_introduced(
            next,
            rest,
            public_addrs,
            listen_addrs,
            max_peers,
            now,
            addr,
        );
    }
}

/// Everybody on a list that was taken over is known afterwards, and nobody else besides those known
/// before, who keep their state; the others are fresh.
pub proof fn everybody_listed_is_discovered(
    peers: PeerMap,
    offered: Seq<Option<SocketAddr>>,
    now: u64,
    addr: SocketAddr,
)
    ensures
        discovered(peers, offered, now).contains_key(addr) <==> peers.contains_key(addr)
            || offered.contains(Some(addr)),
        peers.contains_key(addr) ==> discovered(peers, offered, now)[addr] == peers[addr],
        !peers.contains_key(addr) && offered.contains(Some(addr)) ==> discovered(
            peers,
            offered,
            now,
        )[addr] == fresh_peer(addr, now),
    decreases offered.len(),
{
    if offered.len() > 0 {
        let shorter = offered.drop_last();
        everybody_listed_is_discovered(peers, shorter, now, addr);
        if shorter.contains(Some(addr)) {
            let i = shorter.index_of(Some(addr));
            assert(offered[i] == Some(addr));
        }
        if offered.contains(Some(addr)) && offered.last() != Some(addr) {
            let i = offered.index_of(Some(addr));
            assert(shorter[i] == Some(addr));
        }
        if offered.last() == Some(addr) {
            assert(offered[offered.len() - 1] == Some(addr));
        }
    }
}

/// Every peer that delivered is noted as such, once, and nobody else is touched.
pub proof fn every_delivery_is_noted(
    peers: PeerMap,
    used: Seq<SocketAddr>,
    tip: Height,
    blocks: usize,
    now: u64,
    addr: SocketAddr,
)
    requires
        used.no_duplicates(),
    ensures
        after_deliveries(peers, used, tip, blocks, now).contains_key(addr) <==> peers.contains_key(
            addr,
        ),
        peers.contains_key(addr) && used.contains(addr) ==> after_deliveries(
            peers,
            used,
            tip,
            blocks,
            now,
        )[addr] == after_synced(peers[addr], tip, blocks, now),
        peers.contains_key(addr) && !used.contains(addr) ==> after_deliveries(
            peers,
            used,
            tip,
            blocks,
            now,
        )[addr] == peers[addr],
    decreases used.len(),
{
    if used.len() > 0 {
        let shorter = used.drop_last();
        every_delivery_is_noted(peers, shorter, tip, blocks, now, addr);
        every_delivery_is_noted(peers, shorter, tip, blocks, now, used.last());
        if shorter.contains(addr) {
            let i = shorter.index_of(addr);
            assert(used[i] == addr);
        }
        if used.contains(addr) && addr != used.last() {
            let i = used.index_of(addr);
            assert(shorter[i] == addr);
        }
        assert(used[used.len() - 1] == used.last());
    }
}

/// Every peer that failed is noted as such, once, and nobody else is touched.
pub proof fn every_failure_is_noted(
    peers: PeerMap,
    failed: Seq<SocketAddr>,
    now: u64,
    addr: SocketAddr,
)
    requires
        failed.no_duplicates(),
    ensures
        after_failures(peers, failed, now).contains_key(addr) <==> peers.contains_key(addr),
        peers.contains_key(addr) && failed.contains(addr) ==> after_failures(
            peers,
            failed,
            now,
        )[addr] == after_failed(peers[addr], now),
        peers.contains_key(addr) && !failed.contains(addr) ==> after_failures(
            peers,
            failed,
            now,
        )[addr] == peers[addr],
    decreases failed.len(),
{
    if failed.len() > 0 {
        let shorter = failed.drop_last();
        every_failure_is_noted(peers, shorter, now, addr);
        if shorter.contains(addr) {
            let i = shorter.index_of(addr);
            assert(failed[i] == addr);
        }
        if failed.contains(addr) && addr != failed.last() {
            let i = failed.index_of(addr);
            assert(shorter[i] == addr);
        }
        assert(failed[failed.len() - 1] == failed.last());
    }
}

/// After a failed round a known peer is dropped exactly if it has now failed more often in a row than
/// is tolerated; otherwise its failure is noted. Nobody else is touched.
pub proof fn peers_are_dropped_after_too_many_failures(
    peers: PeerMap,
    addr: SocketAddr,
    now: u64,
    tolerated: u32,
)
    requires
        peers.contains_key(addr) ==> peers[addr].failures < u32::MAX,
    ensures
        ({
            let after = after_failed_round(peers, addr, now, tolerated);
            &&& after.contains_key(addr) <==> peers.contains_key(addr) && peers[addr].failures + 1
                <= tolerated
            &&& after.contains_key(addr) ==> after[addr] == after_failed(peers[addr], now)
            &&& forall|other: SocketAddr| #[trigger]
                after.contains_key(other) && other != addr ==> peers.contains_key(other)
                    && after[other] == peers[other]
            &&& forall|other: SocketAddr| #[trigger]
                peers.contains_key(other) && other != addr ==> after.contains_key(other)
        }),
{
}

/// What is learned of one peer changes that peer alone.
pub proof fn only_the_peer_itself_changes(
    peers: PeerMap,
    addr: SocketAddr,
    change: spec_fn(PeerState) -> PeerState,
)
    ensures
        forall|other: SocketAddr| #[trigger]
            updated(peers, addr, change).contains_key(other) <==> peers.contains_key(other),
        forall|other: SocketAddr| #[trigger]
            peers.contains_key(other) && other != addr ==> updated(peers, addr, change)[other]
                == peers[other],
        peers.contains_key(addr) ==> updated(peers, addr, change)[addr] == change(peers[addr]),
        peers.contains_key(addr) ==> window_of(peers, addr) == peers[addr].sync_window,
        !peers.contains_key(addr) ==> window_of(peers, addr) == 64,
{
}

} // verus!
