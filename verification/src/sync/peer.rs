//! Peers: their addresses, and when and how much to ask them next.
use crate::ids::Height;
use vstd::prelude::*;

verus! {

/// The network address of a peer.
#[derive(Clone, Copy, Debug, PartialEq, Eq, PartialOrd, Ord, Hash, Structural)]
pub enum SocketAddr {
    V4 { ip: u32, port: u16 },
    V6 { ip: u128, port: u16, flowinfo: u32, scope_id: u32 },
}

impl SocketAddr {
    /// An address of this machine itself.
    pub open spec fn loops_back(self) -> bool {
        match self {
            SocketAddr::V4 { ip, .. } => ip / 0x100_0000 == 127,
            SocketAddr::V6 { ip, .. } => ip == 1,
        }
    }

    /// Whether this is an address of this machine itself.
    pub fn is_loopback(&self) -> (r: bool)
        ensures
            r == self.loops_back(),
    {
        match self {
            SocketAddr::V4 { ip, .. } => *ip / 0x100_0000 == 127,
            SocketAddr::V6 { ip, .. } => *ip == 1,
        }
    }
}

/// A list without the later of equal entries.
pub open spec fn deduped(list: Seq<SocketAddr>) -> Seq<SocketAddr>
    decreases list.len(),
{
    if list.len() == 0 {
        Seq::empty()
    } else {
        let rest = deduped(list.drop_last());
        if rest.contains(list.last()) {
            rest
        } else {
            rest.push(list.last())
        }
    }
}

/// Whether a list holds an address.
pub fn contains_addr(list: &Vec<SocketAddr>, addr: SocketAddr) -> (r: bool)
    ensures
        r == list@.contains(addr),
{
    let mut i: usize = 0;
    while i < list.len()
        invariant
            i <= list@.len(),
            forall|j: int| 0 <= j < i ==> list@[j] != addr,
        decreases list@.len() - i,
    {
        if list[i] == addr {
            assert(list@[i as int] == addr);
            return true;
        }
        i = i + 1;
    }
    false
}

/// Keeps the first of equal addresses.
pub fn dedupe_peers(peers: &mut Vec<SocketAddr>)
    ensures
        final(peers)@ == deduped(old(peers)@),
{
    let mut kept: Vec<SocketAddr> = Vec::new();
    let mut i: usize = 0;
    assert(peers@.take(0) =~= Seq::<SocketAddr>::empty());
    while i < peers.len()
        invariant
            i <= peers@.len(),
            peers@ == old(peers)@,
            kept@ == deduped(peers@.take(i as int)),
        decreases peers@.len() - i,
    {
        let peer = peers[i];
        assert(peers@.take(i + 1).drop_last() =~= peers@.take(i as int));
        if !contains_addr(&kept, peer) {
            kept.push(peer);
        }
        i = i + 1;
    }
    assert(peers@.take(i as int) =~= peers@);
    *peers = kept;
}

/// Deduplication keeps every address exactly once, and doing it again changes nothing.
pub proof fn dedupe_keeps_each_once(list: Seq<SocketAddr>)
    ensures
        deduped(list).no_duplicates(),
        forall|addr: SocketAddr| #[trigger] deduped(list).contains(addr) <==> list.contains(addr),
        deduped(deduped(list)) == deduped(list),
    decreases list.len(),
{
    if list.len() > 0 {
        let rest = deduped(list.drop_last());
        let last = list.last();
        dedupe_keeps_each_once(list.drop_last());
        assert forall|addr: SocketAddr| #[trigger] deduped(list).contains(addr) <==> list.contains(
            addr,
        ) by {
            assert(rest.contains(addr) <==> list.drop_last().contains(addr));
            if list.contains(addr) {
                let i = list.index_of(addr);
                if i < list.len() - 1 {
                    assert(list.drop_last()[i] == addr);
                }
            }
            if list.drop_last().contains(addr) {
                let i = list.drop_last().index_of(addr);
                assert(list[i] == addr);
            }
            assert(list[list.len() - 1] == last);
            if !rest.contains(last) {
                assert(rest.push(last)[rest.len() as int] == last);
                if rest.contains(addr) {
                    let i = rest.index_of(addr);
                    assert(rest.push(last)[i] == addr);
                }
                if rest.push(last).contains(addr) && addr != last {
                    let i = rest.push(last).index_of(addr);
                    assert(rest[i] == addr);
                }
            }
        }
        if !rest.contains(last) {
            assert(rest.push(last).drop_last() =~= rest);
        }
    }
}

/// Milliseconds between two polls of a peer in good standing.
pub const SYNC_INTERVAL_MS: u64 = 5_000;

/// Fewest blocks that a peer is asked for at a time.
pub const MIN_BLOCKS_PER_SYNC: u64 = 32;

/// Blocks that a new peer is asked for at a time.
pub const INITIAL_BLOCKS_PER_SYNC: u64 = 64;

/// Most blocks that a peer is asked for at a time.
pub const MAX_BLOCKS_PER_SYNC: u64 = 256;

/// What the node remembers of a peer. Times are milliseconds on a clock that never runs back.
#[derive(Clone, Copy, Debug, PartialEq, Eq)]
pub struct PeerState {
    pub addr: SocketAddr,
    pub failures: u32,
    pub next_attempt: u64,
    pub last_tip: Option<Height>,
    pub sync_window: u64,
}

/// A later time, capped at the end of the clock.
pub open spec fn later(now: u64, delay: int) -> u64 {
    if now + delay <= u64::MAX {
        (now + delay) as u64
    } else {
        u64::MAX
    }
}

/// Seconds to wait after a number of failures in a row: doubling from two, up to a minute.
pub open spec fn retry_delay_secs(failures: u32) -> int {
    if failures <= 1 {
        2
    } else if failures == 2 {
        4
    } else if failures == 3 {
        8
    } else if failures == 4 {
        16
    } else if failures == 5 {
        32
    } else {
        60
    }
}

/// The window after a full batch: twice as wide, up to the maximum.
pub open spec fn widened(window: u64) -> u64 {
    if window * 2 <= MAX_BLOCKS_PER_SYNC {
        (window * 2) as u64
    } else {
        MAX_BLOCKS_PER_SYNC
    }
}

/// The window after a failure: half as wide, down to the minimum.
pub open spec fn narrowed(window: u64) -> u64 {
    if window / 2 >= MIN_BLOCKS_PER_SYNC {
        window / 2
    } else {
        MIN_BLOCKS_PER_SYNC
    }
}

/// A window within the bounds.
pub open spec fn window_in_bounds(window: u64) -> bool {
    MIN_BLOCKS_PER_SYNC <= window <= MAX_BLOCKS_PER_SYNC
}

fn retry_delay(failures: u32) -> (r: u64)
    ensures
        r == retry_delay_secs(failures),
{
    let shift: u32 = if failures.saturating_sub(1) < 5 {
        failures.saturating_sub(1)
    } else {
        5
    };
    let secs: u64 = match shift {
        0 => 2,
        1 => 4,
        2 => 8,
        3 => 16,
        4 => 32,
        _ => 64,
    };
    if secs < 60 {
        secs
    } else {
        60
    }
}

/// A peer that was never asked.
pub open spec fn fresh_peer(addr: SocketAddr, now: u64) -> PeerState {
    PeerState {
        addr,
        failures: 0,
        next_attempt: now,
        last_tip: None,
        sync_window: INITIAL_BLOCKS_PER_SYNC,
    }
}

/// A peer after a good answer.
pub open spec fn after_ok(state: PeerState, tip: Option<Height>, now: u64) -> PeerState {
    PeerState {
        failures: 0,
        last_tip: tip,
        next_attempt: later(now, SYNC_INTERVAL_MS as int),
        ..state
    }
}

/// A peer after a batch of blocks; a full one widens the window.
pub open spec fn after_synced(state: PeerState, tip: Height, blocks: usize, now: u64) -> PeerState {
    PeerState {
        failures: 0,
        last_tip: Some(tip),
        sync_window: if blocks >= state.sync_window {
            widened(state.sync_window)
        } else {
            state.sync_window
        },
        next_attempt: later(now, SYNC_INTERVAL_MS as int),
        ..state
    }
}

/// One failure more, up to the largest count.
pub open spec fn one_more(failures: u32) -> u32 {
    if failures < u32::MAX {
        (failures + 1) as u32
    } else {
        u32::MAX
    }
}

/// A peer after a failure: it is left alone for longer and asked for less.
pub open spec fn after_failed(state: PeerState, now: u64) -> PeerState {
    PeerState {
        failures: one_more(state.failures),
        sync_window: narrowed(state.sync_window),
        next_attempt: later(now, 1_000 * retry_delay_secs(one_more(state.failures))),
        ..state
    }
}

impl PeerState {
    /// A peer that can be asked at once.
    pub fn new(addr: SocketAddr, now: u64) -> (r: Self)
        ensures
            r == fresh_peer(addr, now),
            window_in_bounds(r.sync_window),
    {
        PeerState {
            addr,
            failures: 0,
            next_attempt: now,
            last_tip: None,
            sync_window: INITIAL_BLOCKS_PER_SYNC,
        }
    }

    /// Records a good answer.
    pub fn mark_ok(&mut self, tip: Option<Height>, now: u64)
        ensures
            *final(self) == after_ok(*old(self), tip, now),
    {
        self.failures = 0;
        self.last_tip = tip;
        self.next_attempt = now.saturating_add(SYNC_INTERVAL_MS);
    }

    /// Records a batch of blocks; a full one widens the window.
    pub fn mark_synced(&mut self, tip: Height, synced_blocks: usize, now: u64)
        ensures
            *final(self) == after_synced(*old(self), tip, synced_blocks, now),
            window_in_bounds(old(self).sync_window) ==> window_in_bounds(final(self).sync_window),
    {
        self.failures = 0;
        self.last_tip = Some(tip);
        if synced_blocks as u64 >= self.sync_window {
            self.sync_window = match self.sync_window.checked_mul(2) {
                Some(doubled) => if doubled <= MAX_BLOCKS_PER_SYNC {
                    doubled
                } else {
                    MAX_BLOCKS_PER_SYNC
                },
                None => MAX_BLOCKS_PER_SYNC,
            };
        }
        self.next_attempt = now.saturating_add(SYNC_INTERVAL_MS);
    }

    /// Records a failure: waits longer and asks for less next time.
    pub fn mark_failed(&mut self, now: u64)
        ensures
            *final(self) == after_failed(*old(self), now),
            window_in_bounds(old(self).sync_window) ==> window_in_bounds(final(self).sync_window),
    {
        self.failures = self.failures.saturating_add(1);
        self.sync_window = if self.sync_window / 2 >= MIN_BLOCKS_PER_SYNC {
            self.sync_window / 2
        } else {
            MIN_BLOCKS_PER_SYNC
        };
        let delay: u64 = retry_delay(self.failures);
        self.next_attempt = now.saturating_add(1_000 * delay);
    }
}

/// More failures never shorten the wait, and no wait exceeds a minute.
pub proof fn retries_back_off(fewer: u32, more: u32)
    requires
        fewer <= more,
    ensures
        2 <= retry_delay_secs(fewer) <= retry_delay_secs(more) <= 60,
{
}

} // verus!
