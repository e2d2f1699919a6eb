//! The mathematical picture of a mempool: which transactions are pending, how they queue up per
//! sender, and in which order they leave for a block.
use crate::ids::{Address, Height, Nonce, TransactionHash};
use crate::mempool::fee::rate_of_fee;
use crate::order::{Pair, Reversed, Sortable};
use crate::transaction::SignedTransaction;
use vstd::prelude::*;

verus! {

/// A transaction in the mempool with the time of its arrival and of its expiry.
#[derive(Clone, Copy, Debug, PartialEq, Eq)]
pub struct PendingTransaction {
    pub transaction: SignedTransaction,
    pub inserted_at: u64,
    pub expires_at: u64,
}

/// The place of a transaction: its sender and nonce.
pub type SenderNonce = Pair<Address, Nonce>;

/// The key by which queue heads compete: fee rate, fee, lower nonce, lower hash.
pub type FeeHeadKey = Pair<u64, Pair<u64, Pair<Reversed<Nonce>, Reversed<TransactionHash>>>>;

/// An expiry time and the transaction that expires.
pub type ExpiryKey = Pair<u64, TransactionHash>;

/// An address, a transaction that touches it, and whether it is the sender.
pub type AddressKey = Pair<Address, Pair<TransactionHash, bool>>;

/// The pending transactions by hash.
pub type Pool = Map<TransactionHash, PendingTransaction>;

impl PendingTransaction {
    /// Sender and nonce.
    pub open spec fn slot(self) -> SenderNonce {
        Pair(self.transaction.transaction.from, self.transaction.transaction.nonce)
    }

    /// Sender.
    pub open spec fn sender(self) -> Address {
        self.transaction.transaction.from
    }

    /// Nonce as a number.
    pub open spec fn nonce(self) -> int {
        self.transaction.transaction.nonce.0 as int
    }
}

/// The key of a transaction that heads its sender's queue.
pub open spec fn competing_key(tx: SignedTransaction) -> FeeHeadKey {
    Pair(
        rate_of_fee(tx.transaction.fee.0 as int, tx.virtual_size as int) as u64,
        Pair(tx.transaction.fee.0, Pair(Reversed(tx.transaction.nonce), Reversed(tx.hash))),
    )
}

/// Every transaction is filed under its own hash, and no two share sender and nonce.
pub open spec fn coherent(pool: Pool) -> bool {
    &&& pool.dom().finite()
    &&& forall|h: TransactionHash| #[trigger] pool.contains_key(h) ==> pool[h].transaction.hash == h
    &&& forall|g: TransactionHash, h: TransactionHash| #[trigger]
        pool.contains_key(g) && #[trigger] pool.contains_key(h) && pool[g].slot() == pool[h].slot()
            ==> g == h
}

/// The serialized bytes of all pending transactions together.
pub open spec fn pool_bytes(pool: Pool) -> nat
    decreases pool.dom().len(),
{
    if pool.dom().finite() && pool.dom().len() > 0 {
        let h = pool.dom().choose();
        pool[h].transaction.serialized_size as nat + pool_bytes(pool.remove(h))
    } else {
        0
    }
}

/// The bytes of a pool are those of any one transaction and of the rest.
pub proof fn lemma_pool_bytes_split(pool: Pool, h: TransactionHash)
    requires
        pool.dom().finite(),
        pool.contains_key(h),
    ensures
        pool_bytes(pool) == pool[h].transaction.serialized_size as nat + pool_bytes(pool.remove(h)),
    decreases pool.dom().len(),
{
    assert(pool.dom().contains(h));
    let c = pool.dom().choose();
    assert(pool.dom().len() > 0) by {
        if pool.dom().len() == 0 {
            assert(pool.dom() =~= Set::empty());
        }
    }
    assert(pool.remove(c).dom() =~= pool.dom().remove(c));
    assert(pool.remove(h).dom() =~= pool.dom().remove(h));
    if c != h {
        lemma_pool_bytes_split(pool.remove(c), h);
        lemma_pool_bytes_split(pool.remove(h), c);
        assert(pool.remove(c).remove(h) =~= pool.remove(h).remove(c));
    }
}

/// The bytes of an empty pool.
pub proof fn lemma_pool_bytes_empty()
    ensures
        pool_bytes(Map::empty()) == 0,
{
    assert(Map::<TransactionHash, PendingTransaction>::empty().dom() =~= Set::empty());
}

/// Adding a transaction under a fresh hash adds its bytes.
pub proof fn lemma_pool_bytes_insert(pool: Pool, h: TransactionHash, entry: PendingTransaction)
    requires
        pool.dom().finite(),
        !pool.contains_key(h),
    ensures
        pool_bytes(pool.insert(h, entry)) == pool_bytes(pool)
            + entry.transaction.serialized_size as nat,
{
    let grown = pool.insert(h, entry);
    assert(grown.dom() =~= pool.dom().insert(h));
    lemma_pool_bytes_split(grown, h);
    assert(grown.remove(h) =~= pool);
}

/// The sender has a pending transaction with this nonce or a higher one.
pub open spec fn queued_from(pool: Pool, sender: Address, floor: int) -> bool {
    exists|h: TransactionHash| #[trigger]
        pool.contains_key(h) && pool[h].sender() == sender && pool[h].nonce() >= floor
}

/// `h` is the sender's pending transaction with the lowest nonce at or above `floor`.
pub open spec fn is_first_from(pool: Pool, sender: Address, floor: int, h: TransactionHash) -> bool {
    &&& pool.contains_key(h)
    &&& pool[h].sender() == sender
    &&& pool[h].nonce() >= floor
    &&& forall|g: TransactionHash| #[trigger]
        pool.contains_key(g) && pool[g].sender() == sender && pool[g].nonce() >= floor
            ==> pool[h].nonce() <= pool[g].nonce()
}

/// The sender's pending transaction with the lowest nonce at or above `floor`.
pub open spec fn first_from(pool: Pool, sender: Address, floor: int) -> TransactionHash {
    choose|h: TransactionHash| is_first_from(pool, sender, floor, h)
}

/// There is only one such transaction.
pub proof fn lemma_first_from_unique(pool: Pool, sender: Address, floor: int, h: TransactionHash)
    requires
        coherent(pool),
        is_first_from(pool, sender, floor, h),
    ensures
        first_from(pool, sender, floor) == h,
        queued_from(pool, sender, floor),
{
    let g = first_from(pool, sender, floor);
    assert(is_first_from(pool, sender, floor, g));
    assert(pool[g].transaction.transaction.nonce == pool[h].transaction.transaction.nonce);
    assert(pool[g].slot() == pool[h].slot());
}

/// Where something is queued, there is a first.
pub proof fn lemma_first_from_exists(pool: Pool, sender: Address, floor: int)
    requires
        coherent(pool),
        queued_from(pool, sender, floor),
    ensures
        is_first_from(pool, sender, floor, first_from(pool, sender, floor)),
{
    let h = choose|h: TransactionHash| #[trigger]
        pool.contains_key(h) && pool[h].sender() == sender && pool[h].nonce() >= floor;
    let g = descend_to_first(pool, sender, floor, h);
    assert(is_first_from(pool, sender, floor, g));
}

proof fn descend_to_first(pool: Pool, sender: Address, floor: int, h: TransactionHash) -> (g:
    TransactionHash)
    requires
        pool.contains_key(h),
        pool[h].sender() == sender,
        pool[h].nonce() >= floor,
    ensures
        is_first_from(pool, sender, floor, g),
    decreases pool[h].nonce(),
{
    if is_first_from(pool, sender, floor, h) {
        h
    } else {
        let lower = choose|g: TransactionHash| #[trigger]
            pool.contains_key(g) && pool[g].sender() == sender && pool[g].nonce() >= floor
                && pool[h].nonce() > pool[g].nonce();
        descend_to_first(pool, sender, floor, lower)
    }
}

/// The sender's pending transactions with nonces from `floor` on, in nonce order.
pub open spec fn queue_from(pool: Pool, sender: Address, floor: int) -> Seq<SignedTransaction>
    decreases u64::MAX + 1 - floor,
{
    if queued_from(pool, sender, floor) {
        let h = first_from(pool, sender, floor);
        if is_first_from(pool, sender, floor, h) {
            seq![pool[h].transaction] + queue_from(pool, sender, pool[h].nonce() + 1)
        } else {
            Seq::empty()
        }
    } else {
        Seq::empty()
    }
}

/// The transactions that head their senders' queues.
pub open spec fn queue_heads(pool: Pool) -> Map<Address, TransactionHash> {
    Map::new(|s: Address| queued_from(pool, s, 0), |s: Address| first_from(pool, s, 0))
}

/// The lowest nonce that may follow a given one.
pub open spec fn following(nonce: int) -> int {
    if nonce < u64::MAX {
        nonce + 1
    } else {
        nonce
    }
}

/// `sender` has the queue head with the greatest competing key.
pub open spec fn leads(
    pool: Pool,
    heads: Map<Address, TransactionHash>,
    sender: Address,
) -> bool {
    &&& heads.contains_key(sender)
    &&& forall|other: Address| #[trigger]
        heads.contains_key(other) && other != sender ==> competing_key(
            pool[heads[other]].transaction,
        ).before(competing_key(pool[heads[sender]].transaction))
}

/// The sender whose queue head wins.
pub open spec fn leader(pool: Pool, heads: Map<Address, TransactionHash>) -> Address {
    choose|sender: Address| leads(pool, heads, sender)
}

/// Whether a transaction may enter a block at this height and minimum rate.
pub open spec fn eligible(tx: SignedTransaction, min_rate: int, height: Option<Height>) -> bool {
    &&& rate_of_fee(tx.transaction.fee.0 as int, tx.virtual_size as int) >= min_rate
    &&& match height {
        Some(height) => tx.transaction.validity.holds_at(height),
        None => true,
    }
}

/// The heads after the leader's transaction was taken: its successor in the queue moves up.
pub open spec fn promoted(
    pool: Pool,
    heads: Map<Address, TransactionHash>,
    sender: Address,
) -> Map<Address, TransactionHash> {
    let floor = following(pool[heads[sender]].nonce());
    if queued_from(pool, sender, floor) {
        heads.insert(sender, first_from(pool, sender, floor))
    } else {
        heads.remove(sender)
    }
}

/// Draws up to `limit` transactions: the best queue head first; a head that is not eligible is
/// passed over together with everything queued behind it.
pub open spec fn drawn(
    pool: Pool,
    heads: Map<Address, TransactionHash>,
    limit: nat,
    min_rate: int,
    height: Option<Height>,
) -> Seq<SignedTransaction>
    decreases limit, heads.dom().len(),
{
    if limit > 0 && heads.dom().finite() && exists|s: Address| leads(pool, heads, s) {
        let sender = leader(pool, heads);
        let tx = pool[heads[sender]].transaction;
        if eligible(tx, min_rate, height) {
            seq![tx] + drawn(
                pool,
                promoted(pool, heads, sender),
                (limit - 1) as nat,
                min_rate,
                height,
            )
        } else if heads.contains_key(sender) {
            drawn(pool, heads.remove(sender), limit, min_rate, height)
        } else {
            Seq::empty()
        }
    } else {
        Seq::empty()
    }
}

/// The transactions that are not expired at a time.
pub open spec fn unexpired(pool: Pool, now: u64) -> Pool {
    Map::new(
        |h: TransactionHash| pool.contains_key(h) && pool[h].expires_at > now,
        |h: TransactionHash| pool[h],
    )
}

/// The transactions that are not among those confirmed.
pub open spec fn unconfirmed(pool: Pool, confirmed: Seq<SignedTransaction>) -> Pool {
    Map::new(
        |h: TransactionHash|
            pool.contains_key(h) && forall|i: int|
                0 <= i < confirmed.len() ==> (#[trigger] confirmed[i]).hash != h,
        |h: TransactionHash| pool[h],
    )
}

/// A list that holds exactly the pending transactions with a property, in ascending hash order.
pub open spec fn lists(
    list: Seq<SignedTransaction>,
    pool: Pool,
    wanted: spec_fn(SignedTransaction) -> bool,
) -> bool {
    &&& forall|i: int, j: int|
        0 <= i < j < list.len() ==> (#[trigger] list[i]).hash.before((#[trigger] list[j]).hash)
    &&& forall|i: int| 0 <= i < list.len() ==> {
        let tx = #[trigger] list[i];
        pool.contains_key(tx.hash) && pool[tx.hash].transaction == tx && wanted(tx)
    }
    &&& forall|h: TransactionHash| #[trigger]
        pool.contains_key(h) && wanted(pool[h].transaction) ==> list.contains(pool[h].transaction)
}

/// A list that holds all pending transactions, in ascending hash order.
pub open spec fn lists_all(list: Seq<SignedTransaction>, pool: Pool) -> bool {
    lists(list, pool, |tx: SignedTransaction| true)
}

} // verus!
