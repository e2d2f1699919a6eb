//! The block locator: hashes from the tip down, dense at first and ever sparser, by which a peer
//! finds the last block that both chains share.
use crate::chain::{BlockModel, Ledger};
use crate::ids::{BlockHash, Height};
use vstd::prelude::*;

verus! {

/// Most hashes that the walk from the tip collects.
pub const MAX_BLOCK_LOCATOR_HASHES: usize = 32;

/// Hashes that the walk collects before its steps double.
pub const DENSE_LOCATOR_HASHES: usize = 10;

/// The hashes found so far and the one at this height, if there is a block.
pub open spec fn with_hash_at(
    chain: Map<Height, BlockModel>,
    height: u64,
    found: Seq<BlockHash>,
) -> Seq<BlockHash> {
    if chain.contains_key(Height(height)) {
        found.push(chain[Height(height)].hash)
    } else {
        found
    }
}

/// The step after the next one.
pub open spec fn next_step(step: u64, found: nat) -> u64 {
    if found < DENSE_LOCATOR_HASHES {
        step
    } else if step * 2 <= u64::MAX {
        (step * 2) as u64
    } else {
        u64::MAX
    }
}

/// The height one step down, at least zero.
pub open spec fn step_down(height: u64, step: u64) -> u64 {
    if step <= height {
        (height - step) as u64
    } else {
        0
    }
}

/// The hashes that the walk from a height collects on top of those found.
pub open spec fn walked(
    chain: Map<Height, BlockModel>,
    height: u64,
    step: u64,
    found: Seq<BlockHash>,
) -> Seq<BlockHash>
    decreases height,
{
    let more = with_hash_at(chain, height, found);
    if height == 0 || step == 0 || more.len() >= MAX_BLOCK_LOCATOR_HASHES {
        more
    } else {
        walked(chain, step_down(height, step), next_step(step, more.len()), more)
    }
}

/// The walk from the tip, with the genesis block at the end if the walk did not reach it.
pub open spec fn locator_of(
    chain: Map<Height, BlockModel>,
    tip: Option<Height>,
) -> Seq<BlockHash> {
    match tip {
        None => Seq::empty(),
        Some(height) => {
            let walk = walked(chain, height.0, 1, Seq::empty());
            if walk.len() > 0 && chain.contains_key(Height(0)) && chain[Height(0)].hash
                != walk.last() {
                walk.push(chain[Height(0)].hash)
            } else {
                walk
            }
        },
    }
}

/// The locator of a chain.
pub fn block_locator(ledger: &Ledger) -> (r: Vec<BlockHash>)
    requires
        ledger.wf(),
    ensures
        r@ == locator_of(ledger.block_map(), ledger.tip().0),
{
    let mut locator: Vec<BlockHash> = Vec::new();
    let tip_height = match ledger.tip_height() {
        Some(height) => height,
        None => {
            return locator;
        },
    };
    let ghost chain = ledger.block_map();
    let ghost whole = walked(chain, tip_height.0, 1, Seq::empty());
    let mut height: u64 = tip_height.0;
    let mut step: u64 = 1;
    let mut done = false;
    while !done
        invariant
            ledger.wf(),
            chain == ledger.block_map(),
            step >= 1,
            !done ==> walked(chain, height, step, locator@) == whole,
            done ==> locator@ == whole,
        decreases height, (if done { 0int } else { 1int }),
    {
        match ledger.block(&Height(height)) {
            Some(block) => {
                assert(block@.hash == block.hash);
                locator.push(block.hash);
            },
            None => {},
        }
        if height == 0 || locator.len() >= MAX_BLOCK_LOCATOR_HASHES {
            done = true;
        } else {
            height = height.saturating_sub(step);
            if locator.len() >= DENSE_LOCATOR_HASHES {
                step =
                match step.checked_mul(2) {
                    Some(doubled) => doubled,
                    None => u64::MAX,
                };
            }
        }
    }
    if locator.len() > 0 {
        let last = locator[locator.len() - 1];
        match ledger.block(&Height(0)) {
            Some(genesis) => {
                assert(genesis@.hash == genesis.hash);
                if !genesis.hash.same(&last) {
                    locator.push(genesis.hash);
                }
            },
            None => {},
        }
    }
    locator
}

/// Every hash is that of a block of the chain.
pub open spec fn from_chain(chain: Map<Height, BlockModel>, hashes: Seq<BlockHash>) -> bool {
    forall|i: int|
        0 <= i < hashes.len() ==> exists|h: Height| #[trigger]
            chain.contains_key(h) && chain[h].hash == #[trigger] hashes[i]
}

proof fn lemma_walked(
    chain: Map<Height, BlockModel>,
    height: u64,
    step: u64,
    found: Seq<BlockHash>,
)
    requires
        found.len() < MAX_BLOCK_LOCATOR_HASHES,
        from_chain(chain, found),
    ensures
        from_chain(chain, walked(chain, height, step, found)),
        walked(chain, height, step, found).len() <= MAX_BLOCK_LOCATOR_HASHES,
        found.len() <= walked(chain, height, step, found).len(),
        walked(chain, height, step, found).take(found.len() as int) == found,
        chain.contains_key(Height(height)) ==> walked(chain, height, step, found).len()
            > found.len() && walked(chain, height, step, found)[found.len() as int]
            == chain[Height(height)].hash,
    decreases height,
{
    let more = with_hash_at(chain, height, found);
    assert(from_chain(chain, more)) by {
        assert forall|i: int| 0 <= i < more.len() implies exists|h: Height| #[trigger]
            chain.contains_key(h) && chain[h].hash == #[trigger] more[i] by {
            if i < found.len() {
                assert(more[i] == found[i]);
            } else {
                assert(chain.contains_key(Height(height)));
            }
        }
    }
    assert(more.take(found.len() as int) =~= found);
    if height == 0 || step == 0 || more.len() >= MAX_BLOCK_LOCATOR_HASHES {
    } else {
        let down = step_down(height, step);
        let next = next_step(step, more.len());
        lemma_walked(chain, down, next, more);
        let whole = walked(chain, down, next, more);
        assert(whole.take(found.len() as int) =~= whole.take(more.len() as int).take(
            found.len() as int,
        ));
        if more.len() > found.len() {
            assert(whole.take(more.len() as int)[found.len() as int] == more[found.len() as int]);
        }
    }
}

/// A locator holds at most one hash more than the walk collects, all of them of blocks of the chain;
/// it starts with the tip and, on a chain with a genesis block, ends with genesis.
pub proof fn locator_spans_the_chain(chain: Map<Height, BlockModel>, tip: Height)
    requires
        chain.contains_key(tip),
    ensures
        ({
            let locator = locator_of(chain, Some(tip));
            &&& 1 <= locator.len() <= MAX_BLOCK_LOCATOR_HASHES + 1
            &&& from_chain(chain, locator)
            &&& locator[0] == chain[tip].hash
            &&& chain.contains_key(Height(0)) ==> locator.last() == chain[Height(0)].hash
        }),
{
    let none = Seq::<BlockHash>::empty();
    lemma_walked(chain, tip.0, 1, none);
    let walk = walked(chain, tip.0, 1, none);
    let locator = locator_of(chain, Some(tip));
    assert forall|i: int| 0 <= i < locator.len() implies exists|h: Height| #[trigger]
        chain.contains_key(h) && chain[h].hash == #[trigger] locator[i] by {
        if i < walk.len() {
            assert(locator[i] == walk[i]);
        } else {
            assert(chain.contains_key(Height(0)));
        }
    }
}

/// How far below the last one the next hash of a locator lies.
pub open spec fn stride(k: nat) -> nat
    decreases k,
{
    if k < 10 {
        1
    } else {
        2 * stride((k - 1) as nat)
    }
}

/// How far below the tip a hash of a locator lies.
pub open spec fn depth(k: nat) -> nat
    decreases k,
{
    if k == 0 {
        0
    } else {
        depth((k - 1) as nat) + stride((k - 1) as nat)
    }
}

proof fn lemma_strides(k: nat)
    requires
        k < 32,
    ensures
        1 <= stride(k) <= 0x40_0000,
{
    lemma_strides_grow(k, 31);
    reveal_with_fuel(stride, 32);
}

proof fn lemma_strides_grow(a: nat, b: nat)
    requires
        a <= b,
    ensures
        1 <= stride(a) <= stride(b),
    decreases b,
{
    if a < b {
        lemma_strides_grow(a, (b - 1) as nat);
    } else if b > 0 {
        lemma_strides_grow((a - 1) as nat, (b - 1) as nat);
    }
}

proof fn lemma_depths_grow(a: nat, b: nat)
    requires
        a <= b,
    ensures
        depth(a) <= depth(b),
    decreases b,
{
    if a < b {
        lemma_depths_grow(a, (b - 1) as nat);
    }
}

proof fn lemma_walk_places(
    chain: Map<Height, BlockModel>,
    tip: u64,
    k: nat,
    found: Seq<BlockHash>,
    i: nat,
)
    requires
        forall|h: Height| h.0 <= tip ==> #[trigger] chain.contains_key(h),
        from_chain(chain, found),
        found.len() == k,
        k <= i < 32,
        depth(i) <= tip,
    ensures
        ({
            let walk = walked(chain, (tip - depth(k)) as u64, stride(k) as u64, found);
            &&& walk.len() > i
            &&& walk[i as int] == chain[Height((tip - depth(i)) as u64)].hash
        }),
    decreases i - k,
{
    let height = (tip - depth(k)) as u64;
    let step = stride(k) as u64;
    lemma_depths_grow(k, i);
    lemma_strides(k);
    lemma_walked(chain, height, step, found);
    assert(chain.contains_key(Height(height)));
    if k < i {
        let more = with_hash_at(chain, height, found);
        lemma_depths_grow((k + 1) as nat, i);
        assert(depth((k + 1) as nat) == depth(k) + stride(k));
        assert(height >= step);
        assert(step_down(height, step) == (tip - depth((k + 1) as nat)) as u64);
        assert(next_step(step, more.len()) == stride((k + 1) as nat) as u64);
        assert(from_chain(chain, more)) by {
            assert forall|j: int| 0 <= j < more.len() implies exists|h: Height| #[trigger]
                chain.contains_key(h) && chain[h].hash == #[trigger] more[j] by {
                if j < found.len() {
                    assert(more[j] == found[j]);
                } else {
                    assert(chain.contains_key(Height(height)));
                }
            }
        }
        lemma_walk_places(chain, tip, (k + 1) as nat, more, i);
    }
}

/// On a chain without gaps a locator steps down from the tip one block at a time for ten hashes, and
/// from then on twice as far with each hash, for 32 hashes or as long as it stays above genesis.
pub proof fn locators_thin_out(chain: Map<Height, BlockModel>, tip: Height, i: nat)
    requires
        forall|h: Height| h.0 <= tip.0 ==> #[trigger] chain.contains_key(h),
        i < 32,
        depth(i) <= tip.0,
    ensures
        locator_of(chain, Some(tip)).len() > i,
        locator_of(chain, Some(tip))[i as int] == chain[Height((tip.0 - depth(i)) as u64)].hash,
{
    lemma_walk_places(chain, tip.0, 0, Seq::empty(), i);
}

} // verus!
