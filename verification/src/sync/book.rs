//! The peers that a node knows, and what it learns of them round by round.
use crate::ids::Height;
use crate::order::{Rank, Sortable};
use crate::service::MAX_PEER_FAILURES;
use crate::sorted_map::{ascending, SortedMap};
use crate::sync::parallel::ParallelSyncReport;
use crate::sync::peer::{
    after_failed, after_ok, after_synced, contains_addr, fresh_peer, one_more, PeerState, SocketAddr,
    INITIAL_BLOCKS_PER_SYNC,
};
use crate::sync::poll::PeerPoll;
use vstd::prelude::*;

verus! {

/// Addresses are ordered by version, address, port and the rest.
impl Sortable for SocketAddr {
    open spec fn before(self, other: Self) -> bool {
        match (self, other) {
            (SocketAddr::V4 { ip, port }, SocketAddr::V4 { ip: ip2, port: port2 }) => ip < ip2 || (
            ip == ip2 && port < port2),
            (SocketAddr::V4 { .. }, SocketAddr::V6 { .. }) => true,
            (SocketAddr::V6 { .. }, SocketAddr::V4 { .. }) => false,
            (
                SocketAddr::V6 { ip, port, flowinfo, scope_id },
                SocketAddr::V6 { ip: ip2, port: port2, flowinfo: flowinfo2, scope_id: scope_id2 },
            ) => ip < ip2 || (ip == ip2 && (port < port2 || (port == port2 && (flowinfo < flowinfo2
                || (flowinfo == flowinfo2 && scope_id < scope_id2))))),
        }
    }

    proof fn order_irreflexive(a: Self) {
    }

    proof fn order_transitive(a: Self, b: Self, c: Self) {
    }

    proof fn order_connected(a: Self, b: Self) {
    }

    fn rank(&self, other: &Self) -> (r: Rank) {
        match (*self, *other) {
            (SocketAddr::V4 { ip, port }, SocketAddr::V4 { ip: ip2, port: port2 }) => {
                if ip < ip2 || (ip == ip2 && port < port2) {
                    Rank::Before
                } else if ip == ip2 && port == port2 {
                    Rank::Same
                } else {
                    Rank::After
                }
            },
            (SocketAddr::V4 { .. }, SocketAddr::V6 { .. }) => Rank::Before,
            (SocketAddr::V6 { .. }, SocketAddr::V4 { .. }) => Rank::After,
            (
                SocketAddr::V6 { ip, port, flowinfo, scope_id },
                SocketAddr::V6 { ip: ip2, port: port2, flowinfo: flowinfo2, scope_id: scope_id2 },
            ) => {
                if ip < ip2 || (ip == ip2 && (port < port2 || (port == port2 && (flowinfo
                    < flowinfo2 || (flowinfo == flowinfo2 && scope_id < scope_id2))))) {
                    Rank::Before
                } else if ip == ip2 && port == port2 && flowinfo == flowinfo2 && scope_id
                    == scope_id2 {
                    Rank::Same
                } else {
                    Rank::After
                }
            },
        }
    }
}

/// The peers by address.
pub type PeerMap = Map<SocketAddr, PeerState>;

/// The map with one peer's state changed, if the peer is known.
pub open spec fn updated(
    peers: PeerMap,
    addr: SocketAddr,
    change: spec_fn(PeerState) -> PeerState,
) -> PeerMap {
    if peers.contains_key(addr) {
        peers.insert(addr, change(peers[addr]))
    } else {
        peers
    }
}

/// The peers after a list of addresses was offered. `None` stands for text that is no address. Own
/// addresses and known peers are passed over, and nobody is added beyond the limit.
pub open spec fn introduced(
    peers: PeerMap,
    offered: Seq<Option<SocketAddr>>,
    public_addrs: Seq<SocketAddr>,
    listen_addrs: Seq<SocketAddr>,
    max_peers: int,
    now: u64,
) -> PeerMap
    decreases offered.len(),
{
    if offered.len() == 0 || peers.len() >= max_peers {
        peers
    } else {
        let rest = offered.skip(1);
        match offered[0] {
            Some(addr) => if public_addrs.contains(addr) || listen_addrs.contains(addr)
                || peers.contains_key(addr) {
                introduced(peers, rest, public_addrs, listen_addrs, max_peers, now)
            } else {
                introduced(
                    peers.insert(addr, fresh_peer(addr, now)),
                    rest,
                    public_addrs,
                    listen_addrs,
                    max_peers,
                    now,
                )
            },
            None => introduced(peers, rest, public_addrs, listen_addrs, max_peers, now),
        }
    }
}

/// The peers after a list of addresses was taken over; known peers keep their state.
pub open spec fn discovered(peers: PeerMap, offered: Seq<Option<SocketAddr>>, now: u64) -> PeerMap
    decreases offered.len(),
{
    if offered.len() == 0 {
        peers
    } else {
        let before = discovered(peers, offered.drop_last(), now);
        match offered.last() {
            Some(addr) => if before.contains_key(addr) {
                before
            } else {
                before.insert(addr, fresh_peer(addr, now))
            },
            None => before,
        }
    }
}

/// The peers after a failed round of one of them: it is dropped once it failed more often in a row
/// than is tolerated.
pub open spec fn after_failed_round(
    peers: PeerMap,
    addr: SocketAddr,
    now: u64,
    tolerated: u32,
) -> PeerMap {
    if peers.contains_key(addr) {
        if one_more(peers[addr].failures) > tolerated {
            peers.remove(addr)
        } else {
            peers.insert(addr, after_failed(peers[addr], now))
        }
    } else {
        peers
    }
}

/// The peers after several of them delivered blocks.
pub open spec fn after_deliveries(
    peers: PeerMap,
    used: Seq<SocketAddr>,
    tip: Height,
    blocks: usize,
    now: u64,
) -> PeerMap
    decreases used.len(),
{
    if used.len() == 0 {
        peers
    } else {
        let before = after_deliveries(peers, used.drop_last(), tip, blocks, now);
        updated(before, used.last(), |s: PeerState| after_synced(s, tip, blocks, now))
    }
}

/// The peers after several of them failed.
pub open spec fn after_failures(peers: PeerMap, failed: Seq<SocketAddr>, now: u64) -> PeerMap
    decreases failed.len(),
{
    if failed.len() == 0 {
        peers
    } else {
        let before = after_failures(peers, failed.drop_last(), now);
        updated(before, failed.last(), |s: PeerState| after_failed(s, now))
    }
}

/// The window that a peer was last asked with.
pub open spec fn window_of(peers: PeerMap, addr: SocketAddr) -> u64 {
    if peers.contains_key(addr) {
        peers[addr].sync_window
    } else {
        INITIAL_BLOCKS_PER_SYNC
    }
}

/// The known peers.
#[derive(Clone, Debug)]
pub struct PeerBook {
    states: SortedMap<SocketAddr, PeerState>,
}

impl PeerBook {
    /// The peers by address.
    pub closed spec fn peers(&self) -> PeerMap {
        self.states@
    }

    /// The map is well formed, and peers are filed under their addresses.
    pub closed spec fn wf(&self) -> bool {
        &&& self.states.wf()
        &&& forall|addr: SocketAddr| #[trigger]
            self.states@.contains_key(addr) ==> self.states@[addr].addr == addr
    }

    /// Peers are filed under their addresses, and there are finitely many.
    pub proof fn peers_carry_their_addresses(&self)
        requires
            self.wf(),
        ensures
            self.peers().dom().finite(),
            forall|addr: SocketAddr| #[trigger]
                self.peers().contains_key(addr) ==> self.peers()[addr].addr == addr,
    {
        self.states.lemma_order();
    }

    /// No peers.
    pub fn new() -> (r: Self)
        ensures
            r.wf(),
            r.peers() == Map::<SocketAddr, PeerState>::empty(),
    {
        PeerBook { states: SortedMap::new() }
    }

    /// The number of peers.
    pub fn len(&self) -> (r: usize)
        requires
            self.wf(),
        ensures
            r == self.peers().len(),
    {
        self.states.len()
    }

    /// What is known of a peer.
    pub fn get(&self, addr: &SocketAddr) -> (r: Option<PeerState>)
        requires
            self.wf(),
        ensures
            r == (if self.peers().contains_key(*addr) {
                Some(self.peers()[*addr])
            } else {
                None
            }),
    {
        match self.states.get(addr) {
            Some(state) => Some(*state),
            None => None,
        }
    }

    /// All addresses in order.
    pub fn addresses(&self) -> (list: Vec<SocketAddr>)
        requires
            self.wf(),
        ensures
            ascending(list@),
            forall|addr: SocketAddr| #[trigger]
                list@.contains(addr) <==> self.peers().contains_key(addr),
    {
        let n: usize = self.states.len();
        let ghost order = self.states.order();
        proof {
            self.states.lemma_order();
        }
        let mut list: Vec<SocketAddr> = Vec::new();
        let mut i: usize = 0;
        while i < n
            invariant
                self.wf(),
                order == self.states.order(),
                n == order.len(),
                i <= n,
                list@ =~= order.take(i as int),
            decreases n - i,
        {
            list.push(self.states.key_at(i));
            i = i + 1;
        }
        assert(list@ =~= order);
        list
    }

    /// The addresses of the peers whose turn it is, in order.
    pub fn due(&self, now: u64) -> (list: Vec<SocketAddr>)
        requires
            self.wf(),
        ensures
            ascending(list@),
            forall|addr: SocketAddr| #[trigger]
                list@.contains(addr) <==> self.peers().contains_key(addr) && now
                    >= self.peers()[addr].next_attempt,
    {
        let all = self.addresses();
        let ghost peers = self.peers();
        let mut list: Vec<SocketAddr> = Vec::new();
        let mut i: usize = 0;
        while i < all.len()
            invariant
                self.wf(),
                peers == self.peers(),
                ascending(all@),
                forall|addr: SocketAddr| #[trigger]
                    all@.contains(addr) <==> peers.contains_key(addr),
                i <= all@.len(),
                ascending(list@),
                forall|k: int|
                    0 <= k < list@.len() && i < all@.len() ==> (#[trigger] list@[k]).before(
                        all@[i as int],
                    ),
                forall|k: int|
                    0 <= k < list@.len() ==> peers.contains_key(#[trigger] list@[k]) && now
                        >= peers[list@[k]].next_attempt,
                forall|k: int|
                    0 <= k < i && now >= peers[#[trigger] all@[k]].next_attempt ==> list@.contains(
                        all@[k],
                    ),
            decreases all@.len() - i,
        {
            let addr = all[i];
            let ghost before = list@;
            assert(all@.contains(addr));
            match self.get(&addr) {
                Some(state) => {
                    if now >= state.next_attempt {
                        list.push(addr);
                        assert(list@[before.len() as int] == addr);
                    }
                },
                None => {},
            }
            proof {
                assert forall|k: int| 0 <= k < i + 1 && now
                    >= peers[#[trigger] all@[k]].next_attempt implies list@.contains(all@[k]) by {
                    if k < i {
                        let m = before.index_of(all@[k]);
                        assert(list@[m] == all@[k]);
                    }
                }
                if i + 1 < all@.len() {
                    assert forall|k: int| 0 <= k < list@.len() implies (
                    #[trigger] list@[k]).before(all@[i + 1]) by {
                        if k < before.len() {
                            SocketAddr::order_transitive(list@[k], all@[i as int], all@[i + 1]);
                        }
                    }
                }
            }
            i = i + 1;
        }
        proof {
            assert forall|addr: SocketAddr| #[trigger] list@.contains(addr)
                <==> peers.contains_key(addr) && now >= peers[addr].next_attempt by {
                if peers.contains_key(addr) && now >= peers[addr].next_attempt {
                    assert(all@.contains(addr));
                    let k = all@.index_of(addr);
                    assert(all@[k] == addr);
                }
                if list@.contains(addr) {
                    let k = list@.index_of(addr);
                    assert(list@[k] == addr);
                }
            }
        }
        list
    }

    /// The window that a peer is to be asked with.
    pub fn sync_window(&self, addr: &SocketAddr) -> (r: u64)
        requires
            self.wf(),
        ensures
            r == window_of(self.peers(), *addr),
    {
        match self.states.get(addr) {
            Some(state) => state.sync_window,
            None => INITIAL_BLOCKS_PER_SYNC,
        }
    }

    /// The widest window of the known ones among some peers; the initial window if none is known.
    pub fn widest_window(&self, addrs: &Vec<SocketAddr>) -> (r: u64)
        requires
            self.wf(),
        ensures
            (forall|i: int|
                0 <= i < addrs@.len() ==> !self.peers().contains_key(#[trigger] addrs@[i])) ==> r
                == INITIAL_BLOCKS_PER_SYNC,
            forall|i: int|
                0 <= i < addrs@.len() && self.peers().contains_key(#[trigger] addrs@[i])
                    ==> self.peers()[addrs@[i]].sync_window <= r,
            (exists|i: int|
                0 <= i < addrs@.len() && self.peers().contains_key(#[trigger] addrs@[i])) ==> exists|
                i: int,
            |
                0 <= i < addrs@.len() && self.peers().contains_key(#[trigger] addrs@[i])
                    && self.peers()[addrs@[i]].sync_window == r,
    {
        let ghost peers = self.peers();
        let mut widest: u64 = 0;
        let mut any: bool = false;
        let mut i: usize = 0;
        while i < addrs.len()
            invariant
                self.wf(),
                peers == self.peers(),
                i <= addrs@.len(),
                !any ==> forall|k: int|
                    0 <= k < i ==> !peers.contains_key(#[trigger] addrs@[k]),
                forall|k: int|
                    0 <= k < i && peers.contains_key(#[trigger] addrs@[k])
                        ==> peers[addrs@[k]].sync_window <= widest,
                any ==> exists|k: int|
                    0 <= k < i && peers.contains_key(#[trigger] addrs@[k])
                        && peers[addrs@[k]].sync_window == widest,
            decreases addrs@.len() - i,
        {
            let ghost was = any;
            match self.states.get(&addrs[i]) {
                Some(state) => {
                    if !any || state.sync_window > widest {
                        widest = state.sync_window;
                        assert(peers.contains_key(addrs@[i as int]));
                    }
                    any = true;
                },
                None => {},
            }
            i = i + 1;
        }
        if any {
            widest
        } else {
            INITIAL_BLOCKS_PER_SYNC
        }
    }

    /// Takes addresses over; known peers keep their state.
    pub fn discover(&mut self, offered: &Vec<Option<SocketAddr>>, now: u64)
        requires
            old(self).wf(),
        ensures
            final(self).wf(),
            final(self).peers() == discovered(old(self).peers(), offered@, now),
    {
        let mut i: usize = 0;
        while i < offered.len()
            invariant
                self.wf(),
                i <= offered@.len(),
                self.peers() == discovered(old(self).peers(), offered@.take(i as int), now),
            decreases offered@.len() - i,
        {
            assert(offered@.take(i + 1).drop_last() =~= offered@.take(i as int));
            match offered[i] {
                Some(addr) => {
                    if !self.states.contains_key(&addr) {
                        self.states.insert(addr, PeerState::new(addr, now));
                    }
                },
                None => {},
            }
            i = i + 1;
        }
        assert(offered@.take(i as int) =~= offered@);
    }

    /// Adds peers up to a limit, leaving out own addresses and known peers; says whether any was
    /// added.
    pub fn add_peer_infos(
        &mut self,
        offered: &Vec<Option<SocketAddr>>,
        public_addrs: &Vec<SocketAddr>,
        listen_addrs: &Vec<SocketAddr>,
        max_peers: usize,
        now: u64,
    ) -> (changed: bool)
        requires
            old(self).wf(),
        ensures
            final(self).wf(),
            final(self).peers() == introduced(
                old(self).peers(),
                offered@,
                public_addrs@,
                listen_addrs@,
                max_peers as int,
                now,
            ),
            changed == (final(self).peers() != old(self).peers()),
    {
        let ghost before = self.peers();
        let mut changed = false;
        let mut open = true;
        let mut i: usize = 0;
        assert(offered@.skip(0) =~= offered@);
        while open && i < offered.len()
            invariant
                self.wf(),
                i <= offered@.len(),
                before == old(self).peers(),
                introduced(
                    before,
                    offered@,
                    public_addrs@,
                    listen_addrs@,
                    max_peers as int,
                    now,
                ) == (if open {
                    introduced(
                        self.peers(),
                        offered@.skip(i as int),
                        public_addrs@,
                        listen_addrs@,
                        max_peers as int,
                        now,
                    )
                } else {
                    self.peers()
                }),
                forall|a: SocketAddr| #[trigger]
                    before.contains_key(a) ==> self.peers().contains_key(a),
                changed ==> exists|a: SocketAddr| #[trigger]
                    self.peers().contains_key(a) && !before.contains_key(a),
                !changed ==> self.peers() == before,
            decreases offered@.len() - i, (if open { 1int } else { 0int }),
        {
            if self.states.len() >= max_peers {
                open = false;
                continue ;
            }
            proof {
                assert(offered@.skip(i as int)[0] == offered@[i as int]);
                assert(offered@.skip(i as int).skip(1) =~= offered@.skip(i + 1));
            }
            match offered[i] {
                Some(addr) => {
                    if !contains_addr(public_addrs, addr) && !contains_addr(listen_addrs, addr)
                        && !self.states.contains_key(&addr) {
                        let ghost current = self.peers();
                        self.states.insert(addr, PeerState::new(addr, now));
                        changed = true;
                        assert(self.peers().contains_key(addr) && !before.contains_key(addr));
                    }
                },
                None => {},
            }
            i = i + 1;
        }
        changed
    }

    fn change(&mut self, addr: &SocketAddr, state: PeerState)
        requires
            old(self).wf(),
            state.addr == *addr,
        ensures
            final(self).wf(),
            final(self).peers() == old(self).peers().insert(*addr, state),
    {
        self.states.insert(*addr, state);
    }

    /// Records how a round with a peer ended well.
    pub fn record_poll(&mut self, addr: &SocketAddr, poll: &PeerPoll, now: u64)
        requires
            old(self).wf(),
        ensures
            final(self).wf(),
            final(self).peers() == updated(
                old(self).peers(),
                *addr,
                |s: PeerState|
                    match *poll {
                        PeerPoll::Idle { remote_tip } => after_ok(s, Some(remote_tip), now),
                        PeerPoll::Synced { remote_tip, synced_blocks } => after_synced(
                            s,
                            remote_tip,
                            synced_blocks,
                            now,
                        ),
                    },
            ),
    {
        match self.get(addr) {
            Some(known) => {
                let mut state = known;
                match poll {
                    PeerPoll::Idle { remote_tip } => {
                        state.mark_ok(Some(*remote_tip), now);
                    },
                    PeerPoll::Synced { remote_tip, synced_blocks } => {
                        state.mark_synced(*remote_tip, *synced_blocks, now);
                    },
                }
                self.change(addr, state);
            },
            None => {},
        }
    }

    /// Records that a peer failed, without dropping it.
    pub fn record_failure(&mut self, addr: &SocketAddr, now: u64)
        requires
            old(self).wf(),
        ensures
            final(self).wf(),
            final(self).peers() == updated(
                old(self).peers(),
                *addr,
                |s: PeerState| after_failed(s, now),
            ),
    {
        match self.get(addr) {
            Some(known) => {
                let mut state = known;
                state.mark_failed(now);
                self.change(addr, state);
            },
            None => {},
        }
    }

    /// Records that a round with a peer failed, and drops the peer if that happened too often; says
    /// whether it was dropped.
    fn record_failed_round(&mut self, addr: &SocketAddr, now: u64, tolerated: u32) -> (dropped:
        bool)
        requires
            old(self).wf(),
        ensures
            final(self).wf(),
            final(self).peers() == after_failed_round(old(self).peers(), *addr, now, tolerated),
            dropped == (old(self).peers().contains_key(*addr) && one_more(
                old(self).peers()[*addr].failures,
            ) > tolerated),
    {
        match self.get(addr) {
            Some(known) => {
                let mut state = known;
                state.mark_failed(now);
                if state.failures > tolerated {
                    let _ = self.states.remove(addr);
                    true
                } else {
                    self.change(addr, state);
                    false
                }
            },
            None => false,
        }
    }

    /// Records that a network round with a peer failed. The peer is dropped once it failed more than
    /// three times in a row; says whether it was dropped.
    pub fn record_failed_network_round(&mut self, addr: &SocketAddr, now: u64) -> (dropped: bool)
        requires
            old(self).wf(),
        ensures
            final(self).wf(),
            final(self).peers() == after_failed_round(
                old(self).peers(),
                *addr,
                now,
                MAX_PEER_FAILURES,
            ),
            dropped == (old(self).peers().contains_key(*addr) && one_more(
                old(self).peers()[*addr].failures,
            ) > MAX_PEER_FAILURES),
    {
        self.record_failed_round(addr, now, MAX_PEER_FAILURES)
    }

    /// Records that a service round with a peer failed. The peer is dropped once it failed three times
    /// in a row; says whether it was dropped.
    pub fn record_failed_service_round(&mut self, addr: &SocketAddr, now: u64) -> (dropped: bool)
        requires
            old(self).wf(),
        ensures
            final(self).wf(),
            final(self).peers() == after_failed_round(
                old(self).peers(),
                *addr,
                now,
                (MAX_PEER_FAILURES - 1) as u32,
            ),
            dropped == (old(self).peers().contains_key(*addr) && one_more(
                old(self).peers()[*addr].failures,
            ) >= MAX_PEER_FAILURES),
    {
        self.record_failed_round(addr, now, MAX_PEER_FAILURES - 1)
    }

    /// Records what came of fetching from several peers: first the deliveries, last the failures.
    pub fn record_parallel(&mut self, report: &ParallelSyncReport, now: u64)
        requires
            old(self).wf(),
        ensures
            final(self).wf(),
            final(self).peers() == after_failures(
                after_deliveries(
                    old(self).peers(),
                    report.used_peer_addrs@,
                    report.remote_tip,
                    report.applied_blocks,
                    now,
                ),
                report.failed_peer_addrs@,
                now,
            ),
    {
        let used = &report.used_peer_addrs;
        let failed = &report.failed_peer_addrs;
        let ghost start = self.peers();
        let mut i: usize = 0;
        while i < used.len()
            invariant
                self.wf(),
                i <= used@.len(),
                self.peers() == after_deliveries(
                    start,
                    used@.take(i as int),
                    report.remote_tip,
                    report.applied_blocks,
                    now,
                ),
            decreases used@.len() - i,
        {
            let addr = used[i];
            assert(used@.take(i + 1).drop_last() =~= used@.take(i as int));
            match self.get(&addr) {
                Some(known) => {
                    let mut state = known;
                    state.mark_synced(report.remote_tip, report.applied_blocks, now);
                    self.change(&addr, state);
                },
                None => {},
            }
            i = i + 1;
        }
        assert(used@.take(i as int) =~= used@);
        let ghost middle = self.peers();
        let mut j: usize = 0;
        while j < failed.len()
            invariant
                self.wf(),
                j <= failed@.len(),
                self.peers() == after_failures(middle, failed@.take(j as int), now),
            decreases failed@.len() - j,
        {
            let addr = failed[j];
            assert(failed@.take(j + 1).drop_last() =~= failed@.take(j as int));
            self.record_failure(&addr, now);
            j = j + 1;
        }
        assert(failed@.take(j as int) =~= failed@);
    }

    /// Whether to open a connection to a peer: it has none, and its turn has come.
    pub fn should_connect(&self, addr: &SocketAddr, connected: bool, now: u64) -> (r: bool)
        requires
            self.wf(),
        ensures
            r == (!connected && self.peers().contains_key(*addr) && now
                >= self.peers()[*addr].next_attempt),
    {
        if connected {
            return false;
        }
        match self.states.get(addr) {
            Some(state) => now >= state.next_attempt,
            None => false,
        }
    }

    /// Whether mining must wait for a first answer: peers are known, and none has told its tip.
    pub fn nobody_answered(&self) -> (r: bool)
        requires
            self.wf(),
        ensures
            r == (self.peers().len() > 0 && forall|addr: SocketAddr| #[trigger]
                self.peers().contains_key(addr) ==> self.peers()[addr].last_tip is None),
    {
        let n: usize = self.states.len();
        let ghost order = self.states.order();
        proof {
            self.states.lemma_order();
        }
        let mut i: usize = 0;
        while i < n
            invariant
                self.wf(),
                order == self.states.order(),
                n == order.len(),
                i <= n,
                forall|k: int| 0 <= k < i ==> self.states@[#[trigger] order[k]].last_tip is None,
            decreases n - i,
        {
            let state = self.states.value_at(i);
            if state.last_tip.is_some() {
                assert(self.peers().contains_key(order[i as int]));
                return false;
            }
            i = i + 1;
        }
        proof {
            assert forall|addr: SocketAddr| #[trigger] self.peers().contains_key(
                addr,
            ) implies self.peers()[addr].last_tip is None by {
                assert(order.contains(addr));
                let k = order.index_of(addr);
                assert(order[k] == addr);
            }
        }
        n > 0
    }

    /// Whether a peer is known to be ahead.
    pub fn anyone_ahead(&self, local_height: u64) -> (r: bool)
        requires
            self.wf(),
        ensures
            r == exists|addr: SocketAddr| #[trigger]
                self.peers().contains_key(addr) && is_ahead(self.peers()[addr], local_height),
    {
        let n: usize = self.states.len();
        let ghost order = self.states.order();
        proof {
            self.states.lemma_order();
        }
        let mut i: usize = 0;
        while i < n
            invariant
                self.wf(),
                order == self.states.order(),
                n == order.len(),
                i <= n,
                forall|k: int|
                    0 <= k < i ==> !is_ahead(self.states@[#[trigger] order[k]], local_height),
            decreases n - i,
        {
            let state = self.states.value_at(i);
            match state.last_tip {
                Some(height) => {
                    if height.0 > local_height {
                        assert(self.peers().contains_key(order[i as int]));
                        return true;
                    }
                },
                None => {},
            }
            i = i + 1;
        }
        proof {
            assert forall|addr: SocketAddr| #[trigger] self.peers().contains_key(
                addr,
            ) implies !is_ahead(self.peers()[addr], local_height) by {
                assert(self.states.order().contains(addr));
                let k = order.index_of(addr);
                assert(order[k] == addr);
            }
        }
        false
    }
}

/// A peer told a tip above a height.
pub open spec fn is_ahead(state: PeerState, local_height: u64) -> bool {
    match state.last_tip {
        Some(height) => height.0 > local_height,
        None => false,
    }
}

/// Introductions never push the number of peers beyond the limit or what it was, never touch a known
/// peer, and never add an own address.
pub proof fn introductions_are_bounded(
    peers: PeerMap,
    offered: Seq<Option<SocketAddr>>,
    public_addrs: Seq<SocketAddr>,
    listen_addrs: Seq<SocketAddr>,
    max_peers: int,
    now: u64,
)
    requires
        peers.dom().finite(),
    ensures
        ({
            let after = introduced(peers, offered, public_addrs, listen_addrs, max_peers, now);
            &&& after.dom().finite()
            &&& after.len() <= max_peers || after == peers
            &&& forall|addr: SocketAddr| #[trigger]
                peers.contains_key(addr) ==> after.contains_key(addr) && after[addr] == peers[addr]
            &&& forall|addr: SocketAddr| #[trigger]
                after.contains_key(addr) && !peers.contains_key(addr) ==> {
                    &&& !public_addrs.contains(addr)
                    &&& !listen_addrs.contains(addr)
                    &&& offered.contains(Some(addr))
                    &&& after[addr] == fresh_peer(addr, now)
                }
        }),
    decreases offered.len(),
{
    if offered.len() > 0 && peers.len() < max_peers {
        let rest = offered.skip(1);
        let next = match offered[0] {
            Some(addr) => if public_addrs.contains(addr) || listen_addrs.contains(addr)
                || peers.contains_key(addr) {
                peers
            } else {
                peers.insert(addr, fresh_peer(addr, now))
            },
            None => peers,
        };
        if next != peers {
            assert(next.dom() =~= peers.dom().insert(offered[0]->Some_0));
        }
        introductions_are_bounded(next, rest, public_addrs, listen_addrs, max_peers, now);
        let after = introduced(peers, offered, public_addrs, listen_addrs, max_peers, now);
        assert forall|addr: SocketAddr| #[trigger] peers.contains_key(addr) implies after.contains_key(
            addr,
        ) && after[addr] == peers[addr] by {
            assert(next.contains_key(addr));
        }
        assert forall|addr: SocketAddr| #[trigger] after.contains_key(addr) && !peers.contains_key(
            addr,
        ) implies !public_addrs.contains(addr) && !listen_addrs.contains(addr) && offered.contains(
            Some(addr),
        ) && after[addr] == fresh_peer(addr, now) by {
            if next.contains_key(addr) {
                assert(offered[0] == Some(addr));
                assert(offered.contains(Some(addr)));
            } else {
                let j = rest.index_of(Some(addr));
                assert(offered[j + 1] == Some(addr));
            }
        }
    }
}

} // verus!
