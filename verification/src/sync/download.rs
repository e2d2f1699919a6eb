//! Fetching blocks from a peer, batch by batch, against headers that were checked before.
use crate::chain::{block_models, Block, BlockHeader, BlockModel, SealedHeader};
use crate::ids::Height;
use crate::order::{Rank, Sortable};
use crate::sync::headers::{height_above, next_range, range_request, RangeRequest};
use crate::text::{decimal, decimal_text};
use vstd::prelude::*;
use vstd::string::*;

verus! {

fn same_root(a: &[u8; 32], b: &[u8; 32]) -> (r: bool)
    ensures
        r == (*a == *b),
{
    proof {
        <[u8; 32] as Sortable>::order_irreflexive(*a);
    }
    match a.rank(b) {
        Rank::Same => true,
        _ => false,
    }
}

impl BlockHeader {
    /// Whether two headers are equal.
    pub fn same(&self, other: &Self) -> (r: bool)
        ensures
            r == (*self == *other),
    {
        self.version == other.version && self.height.0 == other.height.0
            && self.previous_hash.same(&other.previous_hash) && same_root(
            &self.merkle_root,
            &other.merkle_root,
        ) && same_root(&self.witness_root, &other.witness_root) && same_root(
            &self.state_root,
            &other.state_root,
        ) && self.miner_address.same(&other.miner_address) && self.difficulty == other.difficulty
            && self.timestamp == other.timestamp && self.nonce.0 == other.nonce.0
    }
}

/// Why blocks of a peer are refused.
#[derive(Clone, Copy, Debug, PartialEq, Eq, Structural)]
pub enum DownloadError {
    /// The answer was no list of blocks.
    NoBlocks { start: u64 },
    /// The list of blocks was empty.
    EmptyRange { start: u64 },
    /// A block has another height than its place.
    WrongHeight { got: u64, expected: u64 },
    /// There is no header for a block.
    NoHeader { height: u64 },
    /// A block differs from its header.
    WrongHeader { height: u64 },
}

impl DownloadError {
    /// The error in words.
    pub open spec fn text(self) -> Seq<char> {
        match self {
            DownloadError::NoBlocks { start } => "peer did not return block range starting at height "@
                + decimal_text(start as nat),
            DownloadError::EmptyRange { start } => "peer returned empty block range starting at height "@
                + decimal_text(start as nat),
            DownloadError::WrongHeight { got, expected } => "peer returned height "@ + decimal_text(
                got as nat,
            ) + " while syncing height "@ + decimal_text(expected as nat),
            DownloadError::NoHeader { height } => "peer returned block "@ + decimal_text(
                height as nat,
            ) + " without a prevalidated header"@,
            DownloadError::WrongHeader { height } => "peer returned block "@ + decimal_text(
                height as nat,
            ) + " that does not match its prevalidated header"@,
        }
    }

    /// The error in words.
    pub fn message(&self) -> (r: String)
        ensures
            r@ == self.text(),
    {
        match self {
            DownloadError::NoBlocks { start } => {
                let mut text = String::from_str(
                    "peer did not return block range starting at height ",
                );
                text.append(decimal(*start).as_str());
                text
            },
            DownloadError::EmptyRange { start } => {
                let mut text = String::from_str(
                    "peer returned empty block range starting at height ",
                );
                text.append(decimal(*start).as_str());
                text
            },
            DownloadError::WrongHeight { got, expected } => {
                let mut text = String::from_str("peer returned height ");
                text.append(decimal(*got).as_str());
                text.append(" while syncing height ");
                text.append(decimal(*expected).as_str());
                text
            },
            DownloadError::NoHeader { height } => {
                let mut text = String::from_str("peer returned block ");
                text.append(decimal(*height).as_str());
                text.append(" without a prevalidated header");
                text
            },
            DownloadError::WrongHeader { height } => {
                let mut text = String::from_str("peer returned block ");
                text.append(decimal(*height).as_str());
                text.append(" that does not match its prevalidated header");
                text
            },
        }
    }
}

/// What is wrong with a block at a place, if anything. `index` is the place of its header.
pub open spec fn block_fault(
    block: BlockModel,
    expected: u64,
    headers: Seq<SealedHeader>,
    index: int,
) -> Option<DownloadError> {
    let height = block.header.height.0;
    if height != expected {
        Some(DownloadError::WrongHeight { got: height, expected })
    } else if index >= headers.len() {
        Some(DownloadError::NoHeader { height })
    } else if block.header != headers[index].header {
        Some(DownloadError::WrongHeader { height })
    } else {
        None
    }
}

/// The first `n` blocks of a batch are right.
pub open spec fn batch_right(
    batch: Seq<BlockModel>,
    next_height: u64,
    headers: Seq<SealedHeader>,
    index: int,
    n: int,
) -> bool {
    forall|i: int|
        0 <= i < n ==> block_fault(
            #[trigger] batch[i],
            height_above(next_height, i),
            headers,
            index + i,
        ) is None
}

/// The fetch of blocks from a start to a target.
#[derive(Clone, Debug, PartialEq, Eq)]
pub struct BlockDownload {
    start: u64,
    target: u64,
    next_height: u64,
    expected: Vec<SealedHeader>,
    downloaded: Vec<Block>,
}

impl BlockDownload {
    /// The blocks so far.
    pub closed spec fn blocks(&self) -> Seq<BlockModel> {
        block_models(self.downloaded@)
    }

    /// The headers that the blocks must have.
    pub closed spec fn headers(&self) -> Seq<SealedHeader> {
        self.expected@
    }

    /// The height that the fetch began at.
    pub closed spec fn origin(&self) -> u64 {
        self.start
    }

    /// The height to fetch up to.
    pub closed spec fn goal(&self) -> u64 {
        self.target
    }

    /// The height to ask for next.
    pub closed spec fn front(&self) -> u64 {
        self.next_height
    }

    /// The blocks so far are those of the first headers.
    pub closed spec fn wf(&self) -> bool {
        &&& batch_right(
            block_models(self.downloaded@),
            self.start,
            self.expected@,
            0,
            self.downloaded@.len() as int,
        )
        &&& self.next_height == height_above(self.start, self.downloaded@.len() as int)
    }

    /// Every downloaded block has the header that was checked for its place, and its height.
    pub proof fn blocks_match_headers(&self)
        requires
            self.wf(),
        ensures
            self.blocks().len() <= self.headers().len(),
            forall|i: int|
                0 <= i < self.blocks().len() ==> (#[trigger] self.blocks()[i]).header
                    == self.headers()[i].header && self.blocks()[i].header.height.0 == height_above(
                    self.origin(),
                    i,
                ),
            self.front() == height_above(self.origin(), self.blocks().len() as int),
    {
        let models = block_models(self.downloaded@);
        assert forall|i: int| 0 <= i < models.len() implies i < self.expected@.len() && (
        #[trigger] models[i]).header == self.expected@[i].header && models[i].header.height.0
            == height_above(self.start, i) by {
            assert(block_fault(
                models[i],
                height_above(self.start, i),
                self.expected@,
                0 + i,
            ) is None);
        }
        if models.len() > 0 {
            assert(models[models.len() - 1].header == self.expected@[models.len() - 1].header);
        }
    }

    /// Begins at a height with the headers of the blocks to come.
    pub fn begin(start: Height, target: u64, headers: Vec<SealedHeader>) -> (r: Self)
        ensures
            r.wf(),
            r.origin() == start.0,
            r.goal() == target,
            r.front() == start.0,
            r.headers() == headers@,
            r.blocks() == Seq::<BlockModel>::empty(),
    {
        let r = BlockDownload {
            start: start.0,
            target,
            next_height: start.0,
            expected: headers,
            downloaded: Vec::new(),
        };
        assert(r.blocks() =~= Seq::<BlockModel>::empty());
        r
    }

    /// The next request, until the target is reached.
    pub fn request(&self) -> (r: Option<RangeRequest>)
        ensures
            r == next_range(self.front(), self.goal()),
    {
        range_request(self.next_height, self.target)
    }

    /// Takes the answer to the last request; `None` stands for an answer that is no list of blocks.
    /// After an error the fetch is over.
    pub fn accept(&mut self, batch: Option<Vec<Block>>) -> (r: Result<(), DownloadError>)
        requires
            old(self).wf(),
        ensures
            final(self).wf(),
            final(self).origin() == old(self).origin(),
            final(self).goal() == old(self).goal(),
            final(self).headers() == old(self).headers(),
            match batch {
                None => r == Err::<(), DownloadError>(DownloadError::NoBlocks {
                    start: old(self).front(),
                }) && final(self).blocks() == old(self).blocks(),
                Some(batch) => if batch@.len() == 0 {
                    r == Err::<(), DownloadError>(DownloadError::EmptyRange {
                        start: old(self).front(),
                    }) && final(self).blocks() == old(self).blocks()
                } else {
                    let list = block_models(batch@);
                    match r {
                        Ok(_) => batch_right(
                            list,
                            old(self).front(),
                            old(self).headers(),
                            old(self).blocks().len() as int,
                            list.len() as int,
                        ) && final(self).blocks() == old(self).blocks() + list,
                        Err(error) => exists|n: int|
                            #![trigger list[n]]
                            0 <= n < list.len() && batch_right(
                                list,
                                old(self).front(),
                                old(self).headers(),
                                old(self).blocks().len() as int,
                                n,
                            ) && Some(error) == block_fault(
                                list[n],
                                height_above(old(self).front(), n),
                                old(self).headers(),
                                old(self).blocks().len() + n,
                            ),
                    }
                },
            },
    {
        let inner = match batch {
            Some(batch) => batch,
            None => {
                return Err(DownloadError::NoBlocks { start: self.next_height });
            },
        };
        if inner.len() == 0 {
            return Err(DownloadError::EmptyRange { start: self.next_height });
        }
        let ghost list = block_models(inner@);
        let ghost front = self.next_height;
        let ghost before = self.blocks();
        let mut i: usize = 0;
        assert(before + list.take(0) =~= before);
        while i < inner.len()
            invariant
                i <= inner@.len(),
                inner@.len() > 0,
                batch == Some(inner),
                list == block_models(inner@),
                self.wf(),
                self.origin() == old(self).origin(),
                self.goal() == old(self).goal(),
                self.headers() == old(self).headers(),
                front == old(self).front(),
                before == old(self).blocks(),
                self.blocks() == before + list.take(i as int),
                self.next_height == height_above(front, i as int),
                batch_right(list, front, self.expected@, before.len() as int, i as int),
            decreases inner@.len() - i,
        {
            let block = &inner[i];
            let ghost model = block@;
            let ghost known = self.blocks();
            assert(list[i as int] == model);
            assert(known.len() == before.len() + i);
            let height: u64 = block.header.height.0;
            if height != self.next_height {
                return Err(DownloadError::WrongHeight { got: height, expected: self.next_height });
            }
            let index: usize = self.downloaded.len();
            if index >= self.expected.len() {
                return Err(DownloadError::NoHeader { height });
            }
            if !block.header.same(&self.expected[index].header) {
                return Err(DownloadError::WrongHeader { height });
            }
            let copy = block.duplicate();
            self.downloaded.push(copy);
            self.next_height = self.next_height.saturating_add(1);
            proof {
                assert(self.blocks() =~= known.push(model));
                assert(self.blocks() =~= before + list.take(i + 1));
                assert(batch_right(
                    self.blocks(),
                    self.start,
                    self.expected@,
                    0,
                    self.downloaded@.len() as int,
                )) by {
                    assert forall|k: int| 0 <= k < self.blocks().len() implies block_fault(
                        #[trigger] self.blocks()[k],
                        height_above(self.start, k),
                        self.expected@,
                        0 + k,
                    ) is None by {
                        if k < known.len() {
                            assert(self.blocks()[k] == known[k]);
                        }
                    }
                }
            }
            i = i + 1;
        }
        assert(list.take(i as int) =~= list);
        Ok(())
    }

    /// The blocks, once the target is reached.
    pub fn finish(self) -> (r: Vec<Block>)
        ensures
            block_models(r@) == self.blocks(),
    {
        self.downloaded
    }
}

} // verus!
