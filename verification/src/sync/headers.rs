//! Fetching headers from a peer, batch by batch, as a chain that links up with a known block.
use crate::chain::SealedHeader;
use crate::ids::{BlockHash, Height};
use crate::text::{decimal, decimal_text, hex_encode, hex_text};
use vstd::prelude::*;
use vstd::string::*;

verus! {

/// Most blocks or headers that are asked for at a time.
pub const MAX_BLOCKS_PER_BATCH: u64 = 32;

/// A range of heights to ask a peer for.
#[derive(Clone, Copy, Debug, PartialEq, Eq, Structural)]
pub struct RangeRequest {
    pub start: Height,
    pub limit: u32,
}

/// The request for the next batch: what is left up to the target, at most one batch.
pub open spec fn next_range(next_height: u64, target: u64) -> Option<RangeRequest> {
    if next_height <= target {
        let left = target - next_height + 1;
        Some(
            RangeRequest {
                start: Height(next_height),
                limit: (if left < MAX_BLOCKS_PER_BATCH {
                    left
                } else {
                    MAX_BLOCKS_PER_BATCH as int
                }) as u32,
            },
        )
    } else {
        None
    }
}

/// The request for the next batch.
pub fn range_request(next_height: u64, target: u64) -> (r: Option<RangeRequest>)
    ensures
        r == next_range(next_height, target),
{
    if next_height <= target {
        let remaining: u64 = target.saturating_sub(next_height).saturating_add(1);
        let limit: u64 = if remaining < MAX_BLOCKS_PER_BATCH {
            remaining
        } else {
            MAX_BLOCKS_PER_BATCH
        };
        Some(RangeRequest { start: Height(next_height), limit: limit as u32 })
    } else {
        None
    }
}

/// The height `n` above another, capped at the highest height there is.
pub open spec fn height_above(height: u64, n: int) -> u64 {
    if height + n <= u64::MAX {
        (height + n) as u64
    } else {
        u64::MAX
    }
}

/// Why headers of a peer are refused.
#[derive(Clone, Copy, Debug, PartialEq, Eq)]
pub enum HeaderError {
    /// The answer was no list of headers.
    NoHeaders { start: u64 },
    /// The list of headers was empty.
    EmptyRange { start: u64 },
    /// A header has another height than its place.
    WrongHeight { got: u64, expected: u64 },
    /// A header does not refer to the one before it.
    WrongParent { height: u64, parent: BlockHash },
}

impl HeaderError {
    /// The error in words.
    pub open spec fn text(self) -> Seq<char> {
        match self {
            HeaderError::NoHeaders { start } => "peer did not return header range starting at height "@
                + decimal_text(start as nat),
            HeaderError::EmptyRange { start } => "peer returned empty header range starting at height "@
                + decimal_text(start as nat),
            HeaderError::WrongHeight { got, expected } => "peer returned header height "@
                + decimal_text(got as nat) + " while syncing height "@ + decimal_text(
                expected as nat,
            ),
            HeaderError::WrongParent { height, parent } => "peer returned header "@ + decimal_text(
                height as nat,
            ) + " with unexpected parent "@ + hex_text(parent.0@),
        }
    }

    /// The error in words.
    pub fn message(&self) -> (r: String)
        ensures
            r@ == self.text(),
    {
        match self {
            HeaderError::NoHeaders { start } => {
                let mut text = String::from_str(
                    "peer did not return header range starting at height ",
                );
                text.append(decimal(*start).as_str());
                text
            },
            HeaderError::EmptyRange { start } => {
                let mut text = String::from_str(
                    "peer returned empty header range starting at height ",
                );
                text.append(decimal(*start).as_str());
                text
            },
            HeaderError::WrongHeight { got, expected } => {
                let mut text = String::from_str("peer returned header height ");
                text.append(decimal(*got).as_str());
                text.append(" while syncing height ");
                text.append(decimal(*expected).as_str());
                text
            },
            HeaderError::WrongParent { height, parent } => {
                let mut text = String::from_str("peer returned header ");
                text.append(decimal(*height).as_str());
                text.append(" with unexpected parent ");
                text.append(hex_encode(parent.0.as_slice()).as_str());
                text
            },
        }
    }
}

/// What is wrong with a header at a place, if anything.
pub open spec fn header_fault(
    header: SealedHeader,
    expected: u64,
    parent: BlockHash,
) -> Option<HeaderError> {
    if header.header.height.0 != expected {
        Some(HeaderError::WrongHeight { got: header.header.height.0, expected })
    } else if header.header.previous_hash != parent {
        Some(
            HeaderError::WrongParent {
                height: header.header.height.0,
                parent: header.header.previous_hash,
            },
        )
    } else {
        None
    }
}

/// The hash that the `i`th header of a batch must refer to.
pub open spec fn parent_in(batch: Seq<SealedHeader>, anchor: BlockHash, i: int) -> BlockHash {
    if i == 0 {
        anchor
    } else {
        batch[i - 1].hash
    }
}

/// The `i`th header of a batch has the right height and parent.
pub open spec fn placed_right(
    batch: Seq<SealedHeader>,
    next_height: u64,
    anchor: BlockHash,
    i: int,
) -> bool {
    header_fault(
        batch[i],
        height_above(next_height, i),
        parent_in(batch, anchor, i),
    ) is None
}

/// The first `n` headers of a batch continue a chain at a height and an anchor.
pub open spec fn continues(
    batch: Seq<SealedHeader>,
    next_height: u64,
    anchor: BlockHash,
    n: int,
) -> bool {
    forall|i: int| 0 <= i < n ==> #[trigger] placed_right(batch, next_height, anchor, i)
}

proof fn lemma_one_header_more(
    known: Seq<SealedHeader>,
    start: u64,
    anchor: BlockHash,
    header: SealedHeader,
)
    requires
        continues(known, start, anchor, known.len() as int),
        header_fault(
            header,
            height_above(start, known.len() as int),
            parent_in(known, anchor, known.len() as int),
        ) is None,
    ensures
        continues(known.push(header), start, anchor, known.len() as int + 1),
        parent_in(known.push(header), anchor, known.len() as int + 1) == header.hash,
{
    let more = known.push(header);
    assert forall|k: int| 0 <= k < more.len() implies #[trigger] placed_right(
        more,
        start,
        anchor,
        k,
    ) by {
        assert(parent_in(more, anchor, k) == parent_in(known, anchor, k));
        if k < known.len() {
            assert(placed_right(known, start, anchor, k));
        }
    }
}

/// The fetch of headers from a start to a target.
#[derive(Clone, Debug, PartialEq, Eq)]
pub struct HeaderSync {
    start: u64,
    anchor: BlockHash,
    target: u64,
    next_height: u64,
    previous_hash: BlockHash,
    headers: Vec<SealedHeader>,
}

impl HeaderSync {
    /// The headers so far.
    pub closed spec fn chain(&self) -> Seq<SealedHeader> {
        self.headers@
    }

    /// The height that the fetch began at, and the hash of the block below it.
    pub closed spec fn origin(&self) -> (u64, BlockHash) {
        (self.start, self.anchor)
    }

    /// The height to fetch up to.
    pub closed spec fn goal(&self) -> u64 {
        self.target
    }

    /// The height to ask for next.
    pub closed spec fn front(&self) -> u64 {
        self.next_height
    }

    /// The hash that the next header must refer to.
    pub closed spec fn front_hash(&self) -> BlockHash {
        self.previous_hash
    }

    /// The headers so far continue the chain at the origin.
    pub closed spec fn wf(&self) -> bool {
        &&& continues(self.headers@, self.start, self.anchor, self.headers@.len() as int)
        &&& self.next_height == height_above(self.start, self.headers@.len() as int)
        &&& self.previous_hash == parent_in(self.headers@, self.anchor, self.headers@.len() as int)
    }

    /// Headers are always consecutive from the origin on, and each refers to the one before it, the
    /// first to the anchor.
    pub proof fn headers_link_up(&self)
        requires
            self.wf(),
        ensures
            forall|i: int|
                0 <= i < self.chain().len() ==> (#[trigger] self.chain()[i]).header.height.0
                    == height_above(self.origin().0, i) && self.chain()[i].header.previous_hash
                    == parent_in(self.chain(), self.origin().1, i),
            self.front() == height_above(self.origin().0, self.chain().len() as int),
    {
        assert forall|i: int| 0 <= i < self.chain().len() implies (
        #[trigger] self.chain()[i]).header.height.0 == height_above(self.origin().0, i)
            && self.chain()[i].header.previous_hash == parent_in(
            self.chain(),
            self.origin().1,
            i,
        ) by {
            assert(placed_right(self.headers@, self.start, self.anchor, i));
        }
    }

    /// Begins at a height on top of a known block.
    pub fn begin(start: Height, target: u64, anchor_hash: BlockHash) -> (r: Self)
        ensures
            r.wf(),
            r.origin() == (start.0, anchor_hash),
            r.goal() == target,
            r.front() == start.0,
            r.front_hash() == anchor_hash,
            r.chain() == Seq::<SealedHeader>::empty(),
    {
        HeaderSync {
            start: start.0,
            anchor: anchor_hash,
            target,
            next_height: start.0,
            previous_hash: anchor_hash,
            headers: Vec::new(),
        }
    }

    /// The next request, until the target is reached.
    pub fn request(&self) -> (r: Option<RangeRequest>)
        ensures
            r == next_range(self.front(), self.goal()),
    {
        range_request(self.next_height, self.target)
    }

    /// Takes the answer to the last request; `None` stands for an answer that is no list of headers.
    /// After an error the fetch is over.
    pub fn accept(&mut self, batch: Option<Vec<SealedHeader>>) -> (r: Result<(), HeaderError>)
        requires
            old(self).wf(),
        ensures
            final(self).wf(),
            final(self).origin() == old(self).origin(),
            final(self).goal() == old(self).goal(),
            match batch {
                None => r == Err::<(), HeaderError>(HeaderError::NoHeaders {
                    start: old(self).front(),
                }) && final(self).chain() == old(self).chain(),
                Some(batch) => if batch@.len() == 0 {
                    r == Err::<(), HeaderError>(HeaderError::EmptyRange {
                        start: old(self).front(),
                    }) && final(self).chain() == old(self).chain()
                } else {
                    match r {
                        Ok(_) => continues(
                            batch@,
                            old(self).front(),
                            old(self).front_hash(),
                            batch@.len() as int,
                        ) && final(self).chain() == old(self).chain() + batch@,
                        Err(error) => exists|n: int|
                            #![trigger batch@[n]]
                            0 <= n < batch@.len() && continues(
                                batch@,
                                old(self).front(),
                                old(self).front_hash(),
                                n,
                            ) && Some(error) == header_fault(
                                batch@[n],
                                height_above(old(self).front(), n),
                                parent_in(batch@, old(self).front_hash(), n),
                            ),
                    }
                },
            },
    {
        let inner = match batch {
            Some(batch) => batch,
            None => {
                return Err(HeaderError::NoHeaders { start: self.next_height });
            },
        };
        if inner.len() == 0 {
            return Err(HeaderError::EmptyRange { start: self.next_height });
        }
        let ghost front = self.next_height;
        let ghost hash = self.previous_hash;
        let ghost before = self.headers@;
        let mut i: usize = 0;
        assert(before + inner@.take(0) =~= before);
        while i < inner.len()
            invariant
                i <= inner@.len(),
                inner@.len() > 0,
                batch == Some(inner),
                self.wf(),
                self.origin() == old(self).origin(),
                self.goal() == old(self).goal(),
                front == old(self).front(),
                hash == old(self).front_hash(),
                before == old(self).chain(),
                self.headers@ == before + inner@.take(i as int),
                self.next_height == height_above(front, i as int),
                self.previous_hash == parent_in(inner@, hash, i as int),
                continues(inner@, front, hash, i as int),
            decreases inner@.len() - i,
        {
            let header = inner[i];
            let ghost known = self.headers@;
            if header.header.height.0 != self.next_height {
                return Err(
                    HeaderError::WrongHeight {
                        got: header.header.height.0,
                        expected: self.next_height,
                    },
                );
            }
            if !header.header.previous_hash.same(&self.previous_hash) {
                return Err(
                    HeaderError::WrongParent {
                        height: header.header.height.0,
                        parent: header.header.previous_hash,
                    },
                );
            }
            self.previous_hash = header.hash;
            self.headers.push(header);
            self.next_height = self.next_height.saturating_add(1);
            proof {
                assert(self.headers@ =~= known.push(header));
                assert(self.headers@ =~= before + inner@.take(i + 1));
                lemma_one_header_more(known, self.start, self.anchor, header);
            }
            i = i + 1;
        }
        assert(inner@.take(i as int) =~= inner@);
        Ok(())
    }

    /// The headers, once the target is reached.
    pub fn finish(self) -> (r: Vec<SealedHeader>)
        ensures
            r@ == self.chain(),
    {
        self.headers
    }
}

} // verus!
