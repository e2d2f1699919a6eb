//! Sharing a download out among peers, and moving a share on when its peer fails.
use crate::chain::SealedHeader;
use crate::ids::Height;
use crate::sync::headers::MAX_BLOCKS_PER_BATCH;
use crate::sync::peer::SocketAddr;
use crate::text::{decimal, decimal_text};
use vstd::prelude::*;
use vstd::string::*;

verus! {

/// A peer that is ahead, with the height of its tip.
#[derive(Clone, Copy, Debug, PartialEq, Eq, Structural)]
pub struct Candidate {
    pub addr: SocketAddr,
    pub tip: Height,
}

/// A share of a download: heights `start` to `target` with their headers, and who is to deliver.
#[derive(Clone, Debug, PartialEq, Eq)]
pub struct SyncRange {
    pub peer: SocketAddr,
    pub start: Height,
    pub target: u64,
    pub headers: Vec<SealedHeader>,
}

/// The peers that have all blocks up to a height, in order.
pub open spec fn able_peers(candidates: Seq<Candidate>, target: u64) -> Seq<SocketAddr>
    decreases candidates.len(),
{
    if candidates.len() == 0 {
        Seq::empty()
    } else {
        let rest = able_peers(candidates.drop_last(), target);
        if candidates.last().tip.0 >= target {
            rest.push(candidates.last().addr)
        } else {
            rest
        }
    }
}

fn available_peers(candidates: &Vec<Candidate>, target: u64) -> (r: Vec<SocketAddr>)
    ensures
        r@ == able_peers(candidates@, target),
{
    let mut peers: Vec<SocketAddr> = Vec::new();
    let mut i: usize = 0;
    while i < candidates.len()
        invariant
            i <= candidates@.len(),
            peers@ == able_peers(candidates@.take(i as int), target),
        decreases candidates@.len() - i,
    {
        assert(candidates@.take(i + 1).drop_last() =~= candidates@.take(i as int));
        if candidates[i].tip.0 >= target {
            peers.push(candidates[i].addr);
        }
        i = i + 1;
    }
    assert(candidates@.take(i as int) =~= candidates@);
    peers
}

/// The number of batches that heights `start` to `target` make.
pub open spec fn batch_count(start: u64, target: u64) -> int {
    if start <= target {
        (target - start) / MAX_BLOCKS_PER_BATCH as int + 1
    } else {
        0
    }
}

/// The last height of the `i`th batch.
pub open spec fn batch_end(start: u64, target: u64, i: int) -> int {
    if start + MAX_BLOCKS_PER_BATCH * (i + 1) - 1 <= target {
        start + MAX_BLOCKS_PER_BATCH * (i + 1) - 1
    } else {
        target as int
    }
}

/// The `i`th share is the `i`th batch with its headers, and the peers take turns.
pub open spec fn is_share(
    range: SyncRange,
    i: int,
    start: u64,
    target: u64,
    headers: Seq<SealedHeader>,
    peers: Seq<SocketAddr>,
) -> bool {
    let first = MAX_BLOCKS_PER_BATCH * i;
    let end = batch_end(start, target, i);
    &&& range.start.0 == start + first
    &&& range.target == end
    &&& range.peer == peers[i % peers.len() as int]
    &&& range.headers@ == headers.subrange(first, end - start + 1)
}

/// Shares heights `start` to `target` out in batches among the peers that have them all.
pub fn plan_parallel_ranges(
    start: Height,
    target: u64,
    headers: &Vec<SealedHeader>,
    candidates: &Vec<Candidate>,
) -> (ranges: Vec<SyncRange>)
    requires
        target < u64::MAX,
        start.0 <= target ==> headers@.len() >= target - start.0 + 1,
    ensures
        ({
            let peers = able_peers(candidates@, target);
            if peers.len() == 0 {
                ranges@.len() == 0
            } else {
                &&& ranges@.len() == batch_count(start.0, target)
                &&& forall|i: int|
                    0 <= i < ranges@.len() ==> is_share(
                        #[trigger] ranges@[i],
                        i,
                        start.0,
                        target,
                        headers@,
                        peers,
                    )
            }
        }),
{
    let available = available_peers(candidates, target);
    let mut ranges: Vec<SyncRange> = Vec::new();
    if available.len() == 0 {
        return ranges;
    }
    let mut next_height: u64 = start.0;
    let mut header_index: usize = 0;
    while next_height <= target
        invariant
            target < u64::MAX,
            available@ == able_peers(candidates@, target),
            available@.len() > 0,
            start.0 <= target ==> headers@.len() >= target - start.0 + 1,
            start.0 <= target ==> start.0 <= next_height <= target + 1,
            start.0 > target ==> ranges@.len() == 0 && next_height == start.0,
            start.0 <= target ==> header_index == next_height - start.0,
            start.0 <= target && next_height <= target ==> next_height == start.0
                + MAX_BLOCKS_PER_BATCH * ranges@.len(),
            start.0 <= target && next_height > target ==> ranges@.len() == batch_count(
                start.0,
                target,
            ),
            forall|i: int|
                0 <= i < ranges@.len() ==> is_share(
                    #[trigger] ranges@[i],
                    i,
                    start.0,
                    target,
                    headers@,
                    available@,
                ),
        decreases target + 1 - next_height,
    {
        let remaining: u64 = target.saturating_sub(next_height).saturating_add(1);
        let count: u64 = if remaining < MAX_BLOCKS_PER_BATCH {
            remaining
        } else {
            MAX_BLOCKS_PER_BATCH
        };
        let turn: usize = ranges.len() % available.len();
        let peer = available[turn];
        let ghost n = ranges@.len() as int;
        assert(header_index + count <= headers.len());
        let end: usize = header_index + count as usize;
        let share = copy_part(headers, header_index, end);
        let last: u64 = next_height + count - 1;
        ranges.push(
            SyncRange { peer, start: Height(next_height), target: last, headers: share },
        );
        proof {
            assert(last == batch_end(start.0, target, n));
            assert(is_share(ranges@[n], n, start.0, target, headers@, available@));
            if next_height + count > target {
                assert(n + 1 == batch_count(start.0, target)) by {
                    let span = target - start.0;
                    assert(32 * n <= span < 32 * n + 32);
                }
            }
        }
        next_height = next_height + count;
        header_index = end;
    }
    ranges
}

fn copy_part(headers: &Vec<SealedHeader>, from: usize, to: usize) -> (r: Vec<SealedHeader>)
    requires
        from <= to <= headers@.len(),
    ensures
        r@ == headers@.subrange(from as int, to as int),
{
    let mut part: Vec<SealedHeader> = Vec::new();
    let mut i: usize = from;
    while i < to
        invariant
            from <= i <= to <= headers@.len(),
            part@ =~= headers@.subrange(from as int, i as int),
        decreases to - i,
    {
        part.push(headers[i]);
        i = i + 1;
    }
    part
}

/// The shares cover every height from start to target exactly once, in order, each with its header.
pub proof fn shares_cover_each_height_once(
    ranges: Seq<SyncRange>,
    start: u64,
    target: u64,
    headers: Seq<SealedHeader>,
    peers: Seq<SocketAddr>,
    height: u64,
)
    requires
        start <= height <= target,
        headers.len() >= target - start + 1,
        peers.len() > 0,
        ranges.len() == batch_count(start, target),
        forall|i: int|
            0 <= i < ranges.len() ==> is_share(
                #[trigger] ranges[i],
                i,
                start,
                target,
                headers,
                peers,
            ),
    ensures
        exists|i: int|
            #![trigger ranges[i]]
            0 <= i < ranges.len() && ranges[i].start.0 <= height <= ranges[i].target
                && ranges[i].headers@[height - ranges[i].start.0] == headers[height - start]
                && forall|j: int|
                0 <= j < ranges.len() && j != i ==> !((#[trigger] ranges[j]).start.0 <= height
                    <= ranges[j].target),
{
    let i = (height - start) / 32;
    assert(0 <= i < ranges.len());
    assert(is_share(ranges[i], i, start, target, headers, peers));
    assert(ranges[i].headers@[height - ranges[i].start.0] == headers[height - start]);
    assert forall|j: int| 0 <= j < ranges.len() && j != i implies !((
    #[trigger] ranges[j]).start.0 <= height <= ranges[j].target) by {
        assert(is_share(ranges[j], j, start, target, headers, peers));
    }
}

/// The peers that can take over a share: all others that have its blocks, in order.
pub open spec fn stand_ins(
    candidates: Seq<Candidate>,
    peer: SocketAddr,
    target: u64,
) -> Seq<SocketAddr>
    decreases candidates.len(),
{
    if candidates.len() == 0 {
        Seq::empty()
    } else {
        let rest = stand_ins(candidates.drop_last(), peer, target);
        let last = candidates.last();
        if last.addr != peer && last.tip.0 >= target {
            rest.push(last.addr)
        } else {
            rest
        }
    }
}

/// The step at which a peer failed to deliver a share.
#[derive(Clone, Copy, Debug, PartialEq, Eq, Structural)]
pub enum FetchStage {
    Connect,
    Handshake,
    Download,
}

/// What is said of a failed attempt.
pub open spec fn failure_text(
    stage: FetchStage,
    start: u64,
    target: u64,
    peer: Seq<char>,
    error: Seq<char>,
) -> Seq<char> {
    match stage {
        FetchStage::Connect => "connect "@ + peer + " failed: "@ + error,
        FetchStage::Handshake => "handshake "@ + peer + " failed: "@ + error,
        FetchStage::Download => "download "@ + decimal_text(start as nat) + ".."@ + decimal_text(
            target as nat,
        ) + " from "@ + peer + " failed: "@ + error,
    }
}

/// What is said when there was nobody to ask.
pub open spec fn nobody_text(start: u64, target: u64) -> Seq<char> {
    "no peer could download range "@ + decimal_text(start as nat) + ".."@ + decimal_text(
        target as nat,
    )
}

/// The attempts to get one share: first from its own peer, then from the stand-ins.
#[derive(Clone, Debug, PartialEq, Eq)]
pub struct RangeFetch {
    start: u64,
    target: u64,
    peers: Vec<SocketAddr>,
    next: usize,
    last_error: Option<String>,
}

impl RangeFetch {
    /// The peers to try, in order.
    pub closed spec fn plan(&self) -> Seq<SocketAddr> {
        self.peers@
    }

    /// The number of peers that failed; they are the first of the plan.
    pub closed spec fn failures(&self) -> int {
        self.next as int
    }

    /// First and last height of the share.
    pub closed spec fn span(&self) -> (u64, u64) {
        (self.start, self.target)
    }

    /// What is said of the last failure.
    pub closed spec fn complaint(&self) -> Option<Seq<char>> {
        match self.last_error {
            Some(error) => Some(error@),
            None => None,
        }
    }

    /// No more peers failed than there are, and a failure is on record once there was one.
    pub closed spec fn wf(&self) -> bool {
        &&& self.next <= self.peers@.len()
        &&& self.next > 0 ==> self.last_error is Some
    }

    /// Plans the attempts for a share.
    pub fn new(range: &SyncRange, candidates: &Vec<Candidate>) -> (r: Self)
        ensures
            r.wf(),
            r.plan() == seq![range.peer] + stand_ins(candidates@, range.peer, range.target),
            r.failures() == 0,
            r.span() == (range.start.0, range.target),
            r.complaint() is None,
    {
        let mut peers: Vec<SocketAddr> = Vec::new();
        peers.push(range.peer);
        let mut i: usize = 0;
        assert(peers@ =~= seq![range.peer] + stand_ins(
            candidates@.take(0),
            range.peer,
            range.target,
        ));
        while i < candidates.len()
            invariant
                i <= candidates@.len(),
                peers@ == seq![range.peer] + stand_ins(
                    candidates@.take(i as int),
                    range.peer,
                    range.target,
                ),
            decreases candidates@.len() - i,
        {
            let candidate = candidates[i];
            assert(candidates@.take(i + 1).drop_last() =~= candidates@.take(i as int));
            let ghost before = peers@;
            if candidate.addr != range.peer && candidate.tip.0 >= range.target {
                peers.push(candidate.addr);
            }
            assert(peers@ =~= seq![range.peer] + stand_ins(
                candidates@.take(i + 1),
                range.peer,
                range.target,
            ));
            i = i + 1;
        }
        assert(candidates@.take(i as int) =~= candidates@);
        RangeFetch {
            start: range.start.0,
            target: range.target,
            peers,
            next: 0,
            last_error: None,
        }
    }

    /// The peer to try now, if any is left.
    pub fn current(&self) -> (r: Option<SocketAddr>)
        requires
            self.wf(),
        ensures
            r == (if self.failures() < self.plan().len() {
                Some(self.plan()[self.failures()])
            } else {
                None
            }),
    {
        if self.next < self.peers.len() {
            Some(self.peers[self.next])
        } else {
            None
        }
    }

    /// Records that the present peer failed, and moves on to the next.
    pub fn record_failure(&mut self, stage: FetchStage, peer: &str, error: &str)
        requires
            old(self).wf(),
            old(self).failures() < old(self).plan().len(),
        ensures
            final(self).wf(),
            final(self).plan() == old(self).plan(),
            final(self).span() == old(self).span(),
            final(self).failures() == old(self).failures() + 1,
            final(self).complaint() == Some(
                failure_text(stage, old(self).span().0, old(self).span().1, peer@, error@),
            ),
    {
        let mut text = match stage {
            FetchStage::Connect => String::from_str("connect "),
            FetchStage::Handshake => String::from_str("handshake "),
            FetchStage::Download => {
                let mut text = String::from_str("download ");
                text.append(decimal(self.start).as_str());
                text.append("..");
                text.append(decimal(self.target).as_str());
                text.append(" from ");
                text
            },
        };
        text.append(peer);
        text.append(" failed: ");
        text.append(error);
        self.last_error = Some(text);
        assert(self.next < self.peers.len());
        self.next = self.next + 1;
    }

    /// The peers that failed so far.
    pub fn failed_peers(&self) -> (r: Vec<SocketAddr>)
        requires
            self.wf(),
        ensures
            r@ == self.plan().take(self.failures()),
    {
        let mut failed: Vec<SocketAddr> = Vec::new();
        let mut i: usize = 0;
        while i < self.next
            invariant
                self.wf(),
                i <= self.next,
                failed@ =~= self.peers@.take(i as int),
            decreases self.next - i,
        {
            failed.push(self.peers[i]);
            i = i + 1;
        }
        failed
    }

    /// What to say when no peer is left.
    pub fn give_up(&self) -> (r: String)
        ensures
            r@ == (match self.complaint() {
                Some(error) => error,
                None => nobody_text(self.span().0, self.span().1),
            }),
    {
        match &self.last_error {
            Some(error) => error.clone(),
            None => {
                let mut text = String::from_str("no peer could download range ");
                text.append(decimal(self.start).as_str());
                text.append("..");
                text.append(decimal(self.target).as_str());
                text
            },
        }
    }
}

/// Every peer that is tried after the first has all the blocks of the share, and none of them is the
/// first peer.
pub proof fn stand_ins_are_able(
    candidates: Seq<Candidate>,
    peer: SocketAddr,
    target: u64,
    i: int,
)
    requires
        0 <= i < stand_ins(candidates, peer, target).len(),
    ensures
        stand_ins(candidates, peer, target)[i] != peer,
        exists|j: int|
            0 <= j < candidates.len() && (#[trigger] candidates[j]).addr == stand_ins(
                candidates,
                peer,
                target,
            )[i] && candidates[j].tip.0 >= target,
    decreases candidates.len(),
{
    let rest = stand_ins(candidates.drop_last(), peer, target);
    if i < rest.len() {
        stand_ins_are_able(candidates.drop_last(), peer, target, i);
        let j = choose|j: int|
            0 <= j < candidates.drop_last().len() && (#[trigger] candidates.drop_last()[j]).addr
                == rest[i] && candidates.drop_last()[j].tip.0 >= target;
        assert(candidates[j].addr == rest[i]);
    } else {
        assert(candidates[candidates.len() - 1] == candidates.last());
    }
}

} // verus!
