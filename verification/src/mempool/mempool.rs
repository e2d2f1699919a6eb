//! The pool of pending transfers, indexed by hash, sender and nonce, fee, expiry and address.
use crate::chain::{Block, Ledger, LedgerError, StateError};
use crate::ids::{Address, Height, Nonce, TransactionHash};
use crate::mempool::error::MempoolError;
use crate::mempool::fee::{
    fee_at_rate, fee_rate_key, occupancy_bps, pressured_rate, required_fee_for_rate,
};
use crate::mempool::policy::{
    admission_error, affords, bytes_less, bytes_unexpired, bytes_with, chain_error, expiry_time,
    fit_error, going_rate, insert_error, insert_validated_error, ledger_fit, place_holder,
    place_taken, pool_with, pool_without, pressure, relay_error, relay_fee, timestamp_error,
    underbids, MempoolConfig, SignatureVerdicts,
};
use crate::mempool::pool::{
    coherent, competing_key, drawn, eligible, first_from, following, is_first_from, leader, leads,
    lemma_first_from_exists, lemma_first_from_unique, lemma_pool_bytes_empty,
    lemma_pool_bytes_insert, lemma_pool_bytes_split, lists, lists_all, pool_bytes, promoted, queue_from,
    queue_heads, queued_from, unconfirmed, unexpired, AddressKey, ExpiryKey, FeeHeadKey, PendingTransaction,
    Pool, SenderNonce,
};
use crate::order::{Pair, Reversed, Sortable};
use crate::params::{
    MAX_RELAY_TRANSACTION_AGE_SECS, MAX_RELAY_TRANSACTION_FUTURE_SECS, MIN_RELAY_FEE_FLOOR,
};
use crate::sorted_map::SortedMap;
use crate::transaction::{SignedTransaction, TransactionError};
use vstd::prelude::*;
use vstd::set_lib::lemma_map_size;

verus! {

/// Pending transfers. Each occupies one place, given by its sender and nonce.
#[derive(Clone, Debug)]
pub struct Mempool {
    transactions: SortedMap<TransactionHash, PendingTransaction>,
    by_sender_nonce: SortedMap<SenderNonce, TransactionHash>,
    head_by_sender: SortedMap<Address, Pair<TransactionHash, FeeHeadKey>>,
    heads_by_fee: SortedMap<FeeHeadKey, TransactionHash>,
    expiries: SortedMap<ExpiryKey, TransactionHash>,
    by_address: SortedMap<AddressKey, TransactionHash>,
    config: MempoolConfig,
    total_bytes: usize,
}

/// How many entries the indexes of a mempool have.
#[derive(Clone, Copy, Debug, PartialEq, Eq)]
pub struct IndexSizes {
    pub places: usize,
    pub heads: usize,
    pub heads_by_fee: usize,
    pub expiries: usize,
}

/// The place index has one entry for each pending transaction, and no other.
spec fn places_indexed(pool: Pool, places: Map<SenderNonce, TransactionHash>) -> bool {
    &&& forall|h: TransactionHash| #[trigger]
        pool.contains_key(h) ==> places.contains_key(pool[h].slot()) && places[pool[h].slot()] == h
    &&& forall|k: SenderNonce| #[trigger]
        places.contains_key(k) ==> pool.contains_key(places[k]) && pool[places[k]].slot() == k
}

/// The head index is right for one sender.
spec fn head_indexed(
    pool: Pool,
    heads: Map<Address, Pair<TransactionHash, FeeHeadKey>>,
    sender: Address,
) -> bool {
    if queued_from(pool, sender, 0) {
        &&& heads.contains_key(sender)
        &&& is_first_from(pool, sender, 0, heads[sender].0)
        &&& heads[sender].1 == competing_key(pool[heads[sender].0].transaction)
    } else {
        !heads.contains_key(sender)
    }
}

/// The two head indexes hold the same heads.
spec fn heads_linked(
    heads: Map<Address, Pair<TransactionHash, FeeHeadKey>>,
    by_fee: Map<FeeHeadKey, TransactionHash>,
) -> bool {
    &&& forall|s: Address| #[trigger]
        heads.contains_key(s) ==> by_fee.contains_key(heads[s].1) && by_fee[heads[s].1]
            == heads[s].0 && heads[s].1.1.1.1.0 == heads[s].0
    &&& forall|k: FeeHeadKey| #[trigger]
        by_fee.contains_key(k) ==> exists|s: Address| #[trigger]
            heads.contains_key(s) && heads[s] == Pair(by_fee[k], k)
    &&& forall|s: Address, t: Address| #[trigger]
        heads.contains_key(s) && #[trigger] heads.contains_key(t) && s != t ==> heads[s].0
            != heads[t].0
}

/// The expiry index has one entry for each pending transaction, and no other.
spec fn expiries_indexed(pool: Pool, expiries: Map<ExpiryKey, TransactionHash>) -> bool {
    &&& forall|k: ExpiryKey| #[trigger]
        expiries.contains_key(k) <==> pool.contains_key(k.1) && pool[k.1].expires_at == k.0
    &&& forall|k: ExpiryKey| #[trigger] expiries.contains_key(k) ==> expiries[k] == k.1
}

/// A transaction is indexed under its sender, and under its receiver if that is another address.
spec fn touches(entry: PendingTransaction, address: Address, outgoing: bool) -> bool {
    if outgoing {
        entry.transaction.transaction.from == address
    } else {
        entry.transaction.transaction.to == address && entry.transaction.transaction.from != address
    }
}

/// The address index is right.
spec fn addresses_indexed(pool: Pool, index: Map<AddressKey, TransactionHash>) -> bool {
    &&& forall|k: AddressKey| #[trigger]
        index.contains_key(k) <==> pool.contains_key(k.1.0) && touches(pool[k.1.0], k.0, k.1.1)
    &&& forall|k: AddressKey| #[trigger] index.contains_key(k) ==> index[k] == k.1.0
}

proof fn lemma_sandwich(s: Address, low: Nonce, mid: SenderNonce, high: Nonce)
    requires
        !mid.before(Pair(s, low)),
        mid == Pair(s, high) || mid.before(Pair(s, high)),
    ensures
        mid.0 == s,
        mid.1.0 >= low.0,
        mid.1.0 <= high.0,
{
    if mid.0 != s {
        Address::order_connected(mid.0, s);
        if mid.0.before(s) {
        } else {
            Address::order_transitive(mid.0, s, mid.0);
            Address::order_irreflexive(mid.0);
        }
    }
    Address::order_irreflexive(s);
}

impl Mempool {
    /// The pending transactions by hash.
    pub closed spec fn pool(&self) -> Pool {
        self.transactions@
    }

    /// The byte count.
    pub closed spec fn bytes(&self) -> int {
        self.total_bytes as int
    }

    /// The configuration.
    pub closed spec fn settings(&self) -> MempoolConfig {
        self.config
    }

    spec fn maps_sorted(&self) -> bool {
        &&& self.transactions.wf()
        &&& self.by_sender_nonce.wf()
        &&& self.head_by_sender.wf()
        &&& self.heads_by_fee.wf()
        &&& self.expiries.wf()
        &&& self.by_address.wf()
    }

    /// The indexes agree with the pool, the byte count is the sum of the sizes unless it was capped
    /// at the largest `usize`, and the pool keeps within its limits.
    pub closed spec fn wf(&self) -> bool {
        &&& self.maps_sorted()
        &&& coherent(self.transactions@)
        &&& places_indexed(self.transactions@, self.by_sender_nonce@)
        &&& forall|s: Address| #[trigger] head_indexed(self.transactions@, self.head_by_sender@, s)
        &&& heads_linked(self.head_by_sender@, self.heads_by_fee@)
        &&& expiries_indexed(self.transactions@, self.expiries@)
        &&& addresses_indexed(self.transactions@, self.by_address@)
        &&& self.total_bytes <= pool_bytes(self.transactions@)
        &&& self.config.max_bytes < usize::MAX ==> self.total_bytes == pool_bytes(
            self.transactions@,
        )
        &&& self.total_bytes <= self.config.max_bytes
        &&& self.transactions@.len() <= self.config.max_transactions
    }

    /// A mempool keeps within its limits, files each transaction under its own hash, holds at most
    /// one transaction per sender and nonce, and counts its bytes exactly unless its byte limit is
    /// the largest `usize`.
    pub proof fn pool_keeps_its_promises(&self)
        requires
            self.wf(),
        ensures
            coherent(self.pool()),
            self.pool().len() <= self.settings().max_transactions,
            0 <= self.bytes() <= self.settings().max_bytes,
            self.bytes() <= pool_bytes(self.pool()),
            self.settings().max_bytes < usize::MAX ==> self.bytes() == pool_bytes(self.pool()),
    {
    }

    /// An empty mempool with given limits.
    pub fn with_config(config: MempoolConfig) -> (r: Self)
        ensures
            r.wf(),
            r.pool() == Map::<TransactionHash, PendingTransaction>::empty(),
            r.bytes() == 0,
            r.settings() == config,
    {
        proof {
            lemma_pool_bytes_empty();
        }
        Mempool {
            transactions: SortedMap::new(),
            by_sender_nonce: SortedMap::new(),
            head_by_sender: SortedMap::new(),
            heads_by_fee: SortedMap::new(),
            expiries: SortedMap::new(),
            by_address: SortedMap::new(),
            config,
            total_bytes: 0,
        }
    }

    /// An empty mempool with the standard limits.
    pub fn new() -> (r: Self)
        ensures
            r.wf(),
            r.pool() == Map::<TransactionHash, PendingTransaction>::empty(),
            r.bytes() == 0,
            r.settings() == MempoolConfig::standard(),
    {
        Self::with_config(MempoolConfig::default())
    }

    /// The hash of the sender's pending transaction with the lowest nonce at or above `floor`.
    fn first_sender_hash(&self, sender: Address, floor: Nonce) -> (r: Option<TransactionHash>)
        requires
            self.maps_sorted(),
            coherent(self.transactions@),
            places_indexed(self.transactions@, self.by_sender_nonce@),
        ensures
            match r {
                Some(h) => is_first_from(self.transactions@, sender, floor.0 as int, h) && h
                    == first_from(self.transactions@, sender, floor.0 as int),
                None => !queued_from(self.transactions@, sender, floor.0 as int),
            },
            r is Some <==> queued_from(self.transactions@, sender, floor.0 as int),
    {
        let bound: SenderNonce = Pair(sender, floor);
        let p: usize = self.by_sender_nonce.lower_bound(&bound);
        let ghost order = self.by_sender_nonce.order();
        let ghost pool = self.transactions@;
        proof {
            self.by_sender_nonce.lemma_order();
            assert forall|g: TransactionHash| #[trigger]
                pool.contains_key(g) && pool[g].sender() == sender && pool[g].nonce()
                    >= floor.0 implies p < order.len() && order[p as int].0 == sender
                && order[p as int].1.0 >= floor.0 && order[p as int].1.0 <= pool[g].nonce() by {
                let k = pool[g].slot();
                assert(order.contains(k));
                let i = order.index_of(k);
                Address::order_irreflexive(sender);
                assert(!k.before(bound));
                assert(i >= p);
                lemma_sandwich(sender, floor, order[p as int], k.1);
            }
        }
        if p < self.by_sender_nonce.len() {
            let key = self.by_sender_nonce.key_at(p);
            let hash = *self.by_sender_nonce.value_at(p);
            if key.0.same(&sender) {
                proof {
                    assert(!key.before(bound));
                    assert(key.1.0 >= floor.0);
                    assert(is_first_from(pool, sender, floor.0 as int, hash));
                    lemma_first_from_unique(pool, sender, floor.0 as int, hash);
                }
                return Some(hash);
            }
        }
        None
    }

    fn head_key(&self, hash: TransactionHash) -> (r: Option<FeeHeadKey>)
        requires
            self.maps_sorted(),
            coherent(self.transactions@),
        ensures
            match r {
                Some(k) => self.transactions@.contains_key(hash) && k == competing_key(
                    self.transactions@[hash].transaction,
                ),
                None => !self.transactions@.contains_key(hash),
            },
    {
        match self.transactions.get(&hash) {
            Some(entry) => {
                let fee: u64 = entry.transaction.transaction.fee.0;
                let rate: u64 = fee_rate_key(fee, entry.transaction.virtual_size);
                Some(
                    Pair(
                        rate,
                        Pair(
                            fee,
                            Pair(Reversed(entry.transaction.transaction.nonce), Reversed(hash)),
                        ),
                    ),
                )
            },
            None => None,
        }
    }

    fn remove_sender_head(&mut self, sender: Address)
        requires
            old(self).maps_sorted(),
            heads_linked(old(self).head_by_sender@, old(self).heads_by_fee@),
        ensures
            final(self).maps_sorted(),
            heads_linked(final(self).head_by_sender@, final(self).heads_by_fee@),
            final(self).head_by_sender@ == old(self).head_by_sender@.remove(sender),
            final(self).transactions == old(self).transactions,
            final(self).by_sender_nonce == old(self).by_sender_nonce,
            final(self).expiries == old(self).expiries,
            final(self).by_address == old(self).by_address,
            final(self).config == old(self).config,
            final(self).total_bytes == old(self).total_bytes,
    {
        let ghost heads = self.head_by_sender@;
        let ghost by_fee = self.heads_by_fee@;
        match self.head_by_sender.remove(&sender) {
            Some(head) => {
                let _ = self.heads_by_fee.remove(&head.1);
                proof {
                    let heads2 = self.head_by_sender@;
                    let by_fee2 = self.heads_by_fee@;
                    assert forall|k: FeeHeadKey| #[trigger] by_fee2.contains_key(k) implies exists|
                        s: Address,
                    | #[trigger] heads2.contains_key(s) && heads2[s] == Pair(by_fee2[k], k) by {
                        assert(by_fee.contains_key(k));
                        let s = choose|s: Address| #[trigger]
                            heads.contains_key(s) && heads[s] == Pair(by_fee[k], k);
                        assert(heads2.contains_key(s));
                    }
                    assert forall|s: Address| #[trigger]
                        heads2.contains_key(s) implies by_fee2.contains_key(heads2[s].1)
                        && by_fee2[heads2[s].1] == heads2[s].0 && heads2[s].1.1.1.1.0
                        == heads2[s].0 by {
                        assert(heads.contains_key(s));
                        assert(heads.contains_key(sender));
                    }
                }
            },
            None => {},
        }
    }

    fn refresh_sender_head(&mut self, sender: Address)
        requires
            old(self).maps_sorted(),
            coherent(old(self).transactions@),
            places_indexed(old(self).transactions@, old(self).by_sender_nonce@),
            heads_linked(old(self).head_by_sender@, old(self).heads_by_fee@),
            forall|s: Address|
                s != sender ==> #[trigger] head_indexed(
                    old(self).transactions@,
                    old(self).head_by_sender@,
                    s,
                ),
        ensures
            final(self).maps_sorted(),
            heads_linked(final(self).head_by_sender@, final(self).heads_by_fee@),
            forall|s: Address| #[trigger]
                head_indexed(final(self).transactions@, final(self).head_by_sender@, s),
            final(self).transactions == old(self).transactions,
            final(self).by_sender_nonce == old(self).by_sender_nonce,
            final(self).expiries == old(self).expiries,
            final(self).by_address == old(self).by_address,
            final(self).config == old(self).config,
            final(self).total_bytes == old(self).total_bytes,
    {
        let ghost before = self.head_by_sender@;
        self.remove_sender_head(sender);
        let ghost pool = self.transactions@;
        let ghost heads = self.head_by_sender@;
        let ghost by_fee = self.heads_by_fee@;
        proof {
            assert forall|s: Address| s != sender implies #[trigger] head_indexed(
                pool,
                heads,
                s,
            ) by {
                assert(head_indexed(pool, before, s));
            }
        }
        let hash = match self.first_sender_hash(sender, Nonce(0)) {
            Some(hash) => hash,
            None => {
                return ;
            },
        };
        let key = match self.head_key(hash) {
            Some(key) => key,
            None => {
                return ;
            },
        };
        self.head_by_sender.insert(sender, Pair(hash, key));
        self.heads_by_fee.insert(key, hash);
        proof {
            let heads2 = self.head_by_sender@;
            let by_fee2 = self.heads_by_fee@;
            assert forall|s: Address| #[trigger] head_indexed(pool, heads2, s) by {
                if s != sender {
                    assert(head_indexed(pool, heads, s));
                }
            }
            assert forall|s: Address| #[trigger] heads.contains_key(s) implies heads[s].0 != hash by {
                assert(head_indexed(pool, heads, s));
            }
            assert forall|k: FeeHeadKey| #[trigger] by_fee2.contains_key(k) implies exists|
                s: Address,
            | #[trigger] heads2.contains_key(s) && heads2[s] == Pair(by_fee2[k], k) by {
                if k == key {
                    assert(heads2.contains_key(sender));
                } else {
                    assert(by_fee.contains_key(k));
                    let s = choose|s: Address| #[trigger]
                        heads.contains_key(s) && heads[s] == Pair(by_fee[k], k);
                    assert(heads2.contains_key(s));
                }
            }
            assert forall|s: Address| #[trigger] heads2.contains_key(s) implies by_fee2.contains_key(
                heads2[s].1,
            ) && by_fee2[heads2[s].1] == heads2[s].0 && heads2[s].1.1.1.1.0 == heads2[s].0 by {
                if s != sender {
                    assert(heads.contains_key(s));
                }
            }
            assert forall|s: Address, t: Address| #[trigger]
                heads2.contains_key(s) && #[trigger] heads2.contains_key(t) && s
                    != t implies heads2[s].0 != heads2[t].0 by {
                if s != sender {
                    assert(heads.contains_key(s));
                }
                if t != sender {
                    assert(heads.contains_key(t));
                }
            }
        }
    }
}

/// A sender's head is untouched by changes to other senders' transactions.
proof fn lemma_head_elsewhere(
    pool: Pool,
    other: Pool,
    heads: Map<Address, Pair<TransactionHash, FeeHeadKey>>,
    sender: Address,
)
    requires
        head_indexed(pool, heads, sender),
        forall|h: TransactionHash|
            #![trigger pool.contains_key(h)]
            #![trigger other.contains_key(h)]
            (pool.contains_key(h) && pool[h].sender() == sender) <==> (other.contains_key(h)
                && other[h].sender() == sender),
        forall|h: TransactionHash|
            #![trigger pool.contains_key(h)]
            #![trigger other.contains_key(h)]
            pool.contains_key(h) && pool[h].sender() == sender ==> other[h] == pool[h],
    ensures
        head_indexed(other, heads, sender),
{
    if queued_from(pool, sender, 0) {
        let h = choose|h: TransactionHash| #[trigger]
            pool.contains_key(h) && pool[h].sender() == sender && pool[h].nonce() >= 0;
        assert(other.contains_key(h));
        assert(pool.contains_key(heads[sender].0));
        assert(other.contains_key(heads[sender].0));
    } else if queued_from(other, sender, 0) {
        let h = choose|h: TransactionHash| #[trigger]
            other.contains_key(h) && other[h].sender() == sender && other[h].nonce() >= 0;
        assert(pool.contains_key(h));
    }
}

impl Mempool {
    /// The configuration.
    pub fn config(&self) -> (r: MempoolConfig)
        ensures
            r == self.settings(),
    {
        self.config
    }

    /// The number of pending transactions.
    pub fn len(&self) -> (r: usize)
        requires
            self.wf(),
        ensures
            r == self.pool().len(),
    {
        self.transactions.len()
    }

    /// Whether nothing is pending.
    pub fn is_empty(&self) -> (r: bool)
        requires
            self.wf(),
        ensures
            r == (self.pool() == Map::<TransactionHash, PendingTransaction>::empty()),
    {
        let n: usize = self.transactions.len();
        proof {
            let pool = self.transactions@;
            if n == 0 {
                assert(pool.dom() =~= Set::empty());
                assert(pool =~= Map::<TransactionHash, PendingTransaction>::empty());
            } else {
                assert(Map::<TransactionHash, PendingTransaction>::empty().dom() =~= Set::empty());
            }
        }
        n == 0
    }

    /// The serialized bytes of all pending transactions.
    pub fn total_bytes(&self) -> (r: usize)
        ensures
            r == self.bytes(),
    {
        self.total_bytes
    }

    /// A pending transaction by its hash.
    pub fn get(&self, hash: &TransactionHash) -> (r: Option<&SignedTransaction>)
        requires
            self.wf(),
        ensures
            match r {
                Some(tx) => self.pool().contains_key(*hash) && *tx
                    == self.pool()[*hash].transaction,
                None => !self.pool().contains_key(*hash),
            },
    {
        match self.transactions.get(hash) {
            Some(entry) => Some(&entry.transaction),
            None => None,
        }
    }

    /// Whether a transaction is pending.
    pub fn contains(&self, hash: &TransactionHash) -> (r: bool)
        requires
            self.wf(),
        ensures
            r == self.pool().contains_key(*hash),
    {
        self.transactions.contains_key(hash)
    }

    /// Whether a sender has a pending transaction.
    pub fn contains_sender(&self, sender: Address) -> (r: bool)
        requires
            self.wf(),
        ensures
            r == queued_from(self.pool(), sender, 0),
    {
        self.first_sender_hash(sender, Nonce(0)).is_some()
    }

    /// The pending transaction of a sender with a nonce.
    pub fn hash_at(&self, sender: Address, nonce: Nonce) -> (r: Option<TransactionHash>)
        requires
            self.wf(),
        ensures
            match r {
                Some(h) => self.pool().contains_key(h) && self.pool()[h].slot() == Pair(
                    sender,
                    nonce,
                ),
                None => forall|h: TransactionHash| #[trigger]
                    self.pool().contains_key(h) ==> self.pool()[h].slot() != Pair(sender, nonce),
            },
    {
        let place: SenderNonce = Pair(sender, nonce);
        match self.by_sender_nonce.get(&place) {
            Some(hash) => Some(*hash),
            None => None,
        }
    }

    /// The transaction that heads a sender's queue.
    pub fn queue_head(&self, sender: Address) -> (r: Option<TransactionHash>)
        requires
            self.wf(),
        ensures
            r == (if queued_from(self.pool(), sender, 0) {
                Some(first_from(self.pool(), sender, 0))
            } else {
                None
            }),
    {
        assert(head_indexed(self.transactions@, self.head_by_sender@, sender));
        match self.head_by_sender.get(&sender) {
            Some(head) => {
                proof {
                    lemma_first_from_unique(self.transactions@, sender, 0, head.0);
                }
                Some(head.0)
            },
            None => None,
        }
    }

    /// When a pending transaction expires.
    pub fn expiry(&self, hash: &TransactionHash) -> (r: Option<u64>)
        requires
            self.wf(),
        ensures
            r == (if self.pool().contains_key(*hash) {
                Some(self.pool()[*hash].expires_at)
            } else {
                None
            }),
    {
        match self.transactions.get(hash) {
            Some(entry) => Some(entry.expires_at),
            None => None,
        }
    }

    /// How many entries the indexes have: one place and one expiry per transaction, one queue head
    /// per sender.
    pub fn index_sizes(&self) -> (r: IndexSizes)
        requires
            self.wf(),
        ensures
            r.places == self.pool().len(),
            r.expiries == self.pool().len(),
            r.heads == queue_heads(self.pool()).dom().len(),
            r.heads_by_fee == queue_heads(self.pool()).dom().len(),
    {
        proof {
            let pool = self.transactions@;
            self.transactions.lemma_order();
            let slot = |h: TransactionHash| pool[h].slot();
            assert(pool.dom().map(slot) =~= self.by_sender_nonce@.dom()) by {
                assert forall|k: SenderNonce| self.by_sender_nonce@.contains_key(
                    k,
                ) implies pool.dom().map(slot).contains(k) by {
                    let h = self.by_sender_nonce@[k];
                    assert(pool.dom().contains(h) && slot(h) == k);
                }
            }
            lemma_map_size(pool.dom(), self.by_sender_nonce@.dom(), slot);
            let expiry = |h: TransactionHash| Pair(pool[h].expires_at, h);
            assert(pool.dom().map(expiry) =~= self.expiries@.dom()) by {
                assert forall|k: ExpiryKey| self.expiries@.contains_key(
                    k,
                ) implies pool.dom().map(expiry).contains(k) by {
                    assert(pool.dom().contains(k.1) && expiry(k.1) == k);
                }
                assert forall|k: ExpiryKey| pool.dom().map(expiry).contains(
                    k,
                ) implies self.expiries@.contains_key(k) by {
                    let h = choose|h: TransactionHash| pool.dom().contains(h) && k == expiry(h);
                    assert(pool.contains_key(k.1));
                }
            }
            lemma_map_size(pool.dom(), self.expiries@.dom(), expiry);
            let heads = self.head_by_sender@;
            self.head_by_sender.lemma_order();
            assert(queue_heads(pool).dom() =~= heads.dom()) by {
                assert forall|s: Address| queue_heads(pool).dom().contains(s)
                    == heads.dom().contains(s) by {
                    assert(head_indexed(pool, heads, s));
                }
            }
            let key = |s: Address| heads[s].1;
            assert(heads.dom().map(key) =~= self.heads_by_fee@.dom()) by {
                assert forall|k: FeeHeadKey| self.heads_by_fee@.contains_key(
                    k,
                ) implies heads.dom().map(key).contains(k) by {
                    let s = choose|s: Address| #[trigger]
                        heads.contains_key(s) && heads[s] == Pair(self.heads_by_fee@[k], k);
                    assert(heads.dom().contains(s) && key(s) == k);
                }
            }
            assert(vstd::relations::injective_on(key, heads.dom())) by {
                assert forall|s: Address, t: Address|
                    heads.dom().contains(s) && heads.dom().contains(t) && key(s) == key(
                        t,
                    ) implies s == t by {
                    assert(heads.contains_key(s) && heads.contains_key(t));
                    assert(heads[s].0 == heads[t].0);
                }
            }
            lemma_map_size(heads.dom(), self.heads_by_fee@.dom(), key);
        }
        IndexSizes {
            places: self.by_sender_nonce.len(),
            heads: self.head_by_sender.len(),
            heads_by_fee: self.heads_by_fee.len(),
            expiries: self.expiries.len(),
        }
    }

    /// How full the pool is, in hundredths of a percent: the worse of bytes and transactions.
    pub fn mempool_pressure_bps(&self) -> (r: u64)
        requires
            self.wf(),
        ensures
            r == pressure(self.settings(), self.bytes(), self.pool().len() as int),
    {
        self.pressure_now()
    }

    fn pressure_now(&self) -> (r: u64)
        requires
            self.maps_sorted(),
        ensures
            r == pressure(self.config, self.total_bytes as int, self.transactions@.len() as int),
    {
        let byte_pressure: u64 = occupancy_bps(self.total_bytes, self.config.max_bytes);
        let tx_pressure: u64 = occupancy_bps(
            self.transactions.len(),
            self.config.max_transactions,
        );
        if byte_pressure >= tx_pressure {
            byte_pressure
        } else {
            tx_pressure
        }
    }

    /// The market fee rate at the present pressure.
    pub fn dynamic_market_fee_rate(&self) -> (r: u64)
        requires
            self.wf(),
        ensures
            r == going_rate(self.settings(), self.bytes(), self.pool().len() as int),
    {
        self.rate_now()
    }

    fn rate_now(&self) -> (r: u64)
        requires
            self.maps_sorted(),
        ensures
            r == going_rate(self.config, self.total_bytes as int, self.transactions@.len() as int),
    {
        let base_rate: u64 = if self.config.market_fee >= self.config.min_relay_fee {
            self.config.market_fee
        } else {
            self.config.min_relay_fee
        };
        pressured_rate(base_rate, self.pressure_now())
    }

    fn transaction_ttl(&self, transaction: &SignedTransaction) -> (r: u64)
        requires
            self.maps_sorted(),
        ensures
            r == (if transaction.transaction.fee.0 < fee_at_rate(
                going_rate(self.config, self.total_bytes as int, self.transactions@.len() as int),
                transaction.virtual_size as int,
            ) {
                self.config.low_fee_ttl_secs
            } else {
                self.config.transaction_ttl_secs
            }),
    {
        let market_fee: u64 = required_fee_for_rate(self.rate_now(), transaction.virtual_size);
        if transaction.transaction.fee.0 < market_fee {
            self.config.low_fee_ttl_secs
        } else {
            self.config.transaction_ttl_secs
        }
    }

    fn expires_at(&self, transaction: &SignedTransaction, inserted_at: u64) -> (r: u64)
        requires
            self.maps_sorted(),
        ensures
            r == expiry_time(
                self.config,
                self.total_bytes as int,
                self.transactions@.len() as int,
                *transaction,
                inserted_at,
            ),
    {
        inserted_at.saturating_add(self.transaction_ttl(transaction)).saturating_add(1)
    }

    /// Takes a transaction out of the pool.
    pub fn remove(&mut self, hash: &TransactionHash) -> (r: Option<SignedTransaction>)
        requires
            old(self).wf(),
        ensures
            final(self).wf(),
            final(self).settings() == old(self).settings(),
            match r {
                Some(tx) => {
                    &&& old(self).pool().contains_key(*hash)
                    &&& tx == old(self).pool()[*hash].transaction
                    &&& final(self).pool() == old(self).pool().remove(*hash)
                    &&& final(self).bytes() == bytes_less(
                        old(self).bytes(),
                        tx.serialized_size as int,
                    )
                },
                None => !old(self).pool().contains_key(*hash) && *final(self) == *old(self),
            },
    {
        let ghost pool = self.transactions@;
        let ghost places = self.by_sender_nonce@;
        let ghost expiries = self.expiries@;
        let ghost addresses = self.by_address@;
        let entry = match self.transactions.remove(hash) {
            Some(entry) => entry,
            None => {
                return None;
            },
        };
        let sender = entry.transaction.transaction.from;
        let receiver = entry.transaction.transaction.to;
        let slot: SenderNonce = Pair(sender, entry.transaction.transaction.nonce);
        let _ = self.by_sender_nonce.remove(&slot);
        let ghost rest = self.transactions@;
        proof {
            assert(rest =~= pool.remove(*hash));
            assert(rest.dom() =~= pool.dom().remove(*hash));
            assert forall|h: TransactionHash| #[trigger] rest.contains_key(h) implies pool.contains_key(
                h,
            ) && rest[h] == pool[h] && h != *hash by {}
            assert(coherent(rest)) by {
                assert forall|g: TransactionHash, h: TransactionHash| #[trigger]
                    rest.contains_key(g) && #[trigger] rest.contains_key(h) && rest[g].slot()
                        == rest[h].slot() implies g == h by {
                    assert(pool.contains_key(g) && pool.contains_key(h));
                }
            }
            assert(places_indexed(rest, self.by_sender_nonce@)) by {
                assert forall|h: TransactionHash| #[trigger]
                    rest.contains_key(h) implies self.by_sender_nonce@.contains_key(rest[h].slot())
                    && self.by_sender_nonce@[rest[h].slot()] == h by {
                    assert(pool.contains_key(h));
                    assert(rest[h].slot() != slot);
                }
                assert forall|k: SenderNonce| #[trigger]
                    self.by_sender_nonce@.contains_key(k) implies rest.contains_key(
                    self.by_sender_nonce@[k],
                ) && rest[self.by_sender_nonce@[k]].slot() == k by {
                    assert(places.contains_key(k));
                }
            }
            assert forall|s: Address| s != sender implies #[trigger] head_indexed(
                rest,
                self.head_by_sender@,
                s,
            ) by {
                assert(head_indexed(pool, self.head_by_sender@, s));
                lemma_head_elsewhere(pool, rest, self.head_by_sender@, s);
            }
        }
        self.refresh_sender_head(sender);
        let _ = self.expiries.remove(&Pair(entry.expires_at, *hash));
        let _ = self.by_address.remove(&Pair(sender, Pair(*hash, true)));
        if !receiver.same(&sender) {
            let _ = self.by_address.remove(&Pair(receiver, Pair(*hash, false)));
        }
        self.total_bytes = self.total_bytes.saturating_sub(entry.transaction.serialized_size);
        proof {
            assert(expiries_indexed(rest, self.expiries@)) by {
                assert forall|k: ExpiryKey| #[trigger] self.expiries@.contains_key(k) <==> rest.contains_key(k.1) && rest[k.1].expires_at == k.0 by {
                    assert(expiries.contains_key(k) <==> pool.contains_key(k.1) && pool[k.1].expires_at == k.0);
                }
            }
            assert(addresses_indexed(rest, self.by_address@)) by {
                assert forall|k: AddressKey| #[trigger] self.by_address@.contains_key(k) <==> rest.contains_key(k.1.0) && touches(rest[k.1.0], k.0, k.1.1) by {
                    assert(addresses.contains_key(k) <==> pool.contains_key(k.1.0) && touches(pool[k.1.0], k.0, k.1.1));
                }
                assert forall|k: AddressKey| #[trigger] self.by_address@.contains_key(k) implies self.by_address@[k] == k.1.0 by {
                    assert(addresses.contains_key(k));
                }
            }
            lemma_pool_bytes_split(pool, *hash);
        }
        Some(entry.transaction)
    }

    /// Adds a transaction whose validity was checked, in place of `replacement` if there is one.
    fn insert_unchecked(
        &mut self,
        transaction: SignedTransaction,
        inserted_at: u64,
        replacement: Option<TransactionHash>,
    ) -> (r: Result<TransactionHash, MempoolError>)
        requires
            old(self).wf(),
            match replacement {
                Some(h) => old(self).pool().contains_key(h) && old(self).pool()[h].slot() == Pair(
                    transaction.transaction.from,
                    transaction.transaction.nonce,
                ),
                None => true,
            },
        ensures
            final(self).wf(),
            final(self).settings() == old(self).settings(),
            match admission_error(
                old(self).pool(),
                old(self).bytes(),
                old(self).settings(),
                transaction,
                replacement,
            ) {
                Some(error) => r == Err::<TransactionHash, MempoolError>(error) && *final(self)
                    == *old(self),
                None => {
                    &&& r == Ok::<TransactionHash, MempoolError>(transaction.hash)
                    &&& final(self).pool() == pool_with(
                        old(self).pool(),
                        old(self).bytes(),
                        old(self).settings(),
                        transaction,
                        inserted_at,
                        replacement,
                    )
                    &&& final(self).bytes() == bytes_with(
                        old(self).pool(),
                        old(self).bytes(),
                        transaction,
                        replacement,
                    )
                },
            },
    {
        let hash = transaction.hash;
        if self.transactions.contains_key(&hash) {
            return Err(MempoolError::DuplicateTransaction);
        }
        let sender = transaction.transaction.from;
        let receiver = transaction.transaction.to;
        let slot: SenderNonce = Pair(sender, transaction.transaction.nonce);
        match self.by_sender_nonce.get(&slot) {
            Some(existing) => {
                let kept = match replacement {
                    Some(replaced) => existing.same(&replaced),
                    None => false,
                };
                if !kept {
                    assert(self.pool().contains_key(*existing));
                    return Err(MempoolError::DuplicateTransaction);
                }
            },
            None => {},
        }
        let ghost before = *self;
        proof {
            assert(!place_taken(self.pool(), transaction, replacement)) by {
                if place_taken(self.pool(), transaction, replacement) {
                    let h = choose|h: TransactionHash| #[trigger]
                        self.pool().contains_key(h) && self.pool()[h].slot() == slot && Some(h)
                            != replacement;
                    assert(self.by_sender_nonce@[slot] == h);
                }
            }
        }
        let transaction_size: usize = transaction.serialized_size;
        let replacement_size: usize = match replacement {
            Some(replaced) => match self.transactions.get(&replaced) {
                Some(entry) => entry.transaction.serialized_size,
                None => 0,
            },
            None => 0,
        };
        if replacement.is_none() && self.transactions.len() >= self.config.max_transactions {
            return Err(MempoolError::MempoolFull);
        }
        if self.total_bytes.saturating_sub(replacement_size).saturating_add(transaction_size)
            > self.config.max_bytes {
            return Err(MempoolError::MempoolFull);
        }
        match replacement {
            Some(replaced) => {
                let _ = self.remove(&replaced);
                proof {
                    assert(before.pool().remove(replaced).dom() =~= before.pool().dom().remove(
                        replaced,
                    ));
                    assert(before.pool().dom().contains(replaced));
                    vstd::set_lib::lemma_set_empty_equivalency_len(before.pool().dom());
                }
            },
            None => {},
        }
        let expires_at: u64 = self.expires_at(&transaction, inserted_at);
        let entry = PendingTransaction { transaction, inserted_at, expires_at };
        let ghost rest = self.transactions@;
        let ghost places = self.by_sender_nonce@;
        let ghost expiries = self.expiries@;
        let ghost addresses = self.by_address@;
        proof {
            assert(!rest.contains_key(hash));
            assert forall|h: TransactionHash| #[trigger] rest.contains_key(h) implies rest[h].slot()
                != slot by {
                assert(before.pool().contains_key(h));
                if rest[h].slot() == slot {
                    assert(place_taken(before.pool(), transaction, replacement));
                }
            }
        }
        self.transactions.insert(hash, entry);
        self.by_sender_nonce.insert(slot, hash);
        let ghost pool = self.transactions@;
        proof {
            assert(pool.dom() =~= rest.dom().insert(hash));
            assert forall|h: TransactionHash| #[trigger] pool.contains_key(h) implies (h == hash
                && pool[h] == entry) || (h != hash && rest.contains_key(h) && pool[h] == rest[h]) by {}
            assert(coherent(pool)) by {
                assert forall|g: TransactionHash, h: TransactionHash| #[trigger]
                    pool.contains_key(g) && #[trigger] pool.contains_key(h) && pool[g].slot()
                        == pool[h].slot() implies g == h by {
                    if g != hash && h != hash {
                        assert(rest.contains_key(g) && rest.contains_key(h));
                    } else if g != hash {
                        assert(rest.contains_key(g));
                    } else if h != hash {
                        assert(rest.contains_key(h));
                    }
                }
            }
            assert(places_indexed(pool, self.by_sender_nonce@)) by {
                assert forall|h: TransactionHash| #[trigger]
                    pool.contains_key(h) implies self.by_sender_nonce@.contains_key(pool[h].slot())
                    && self.by_sender_nonce@[pool[h].slot()] == h by {
                    if h != hash {
                        assert(rest.contains_key(h));
                    }
                }
                assert forall|k: SenderNonce| #[trigger]
                    self.by_sender_nonce@.contains_key(k) implies pool.contains_key(
                    self.by_sender_nonce@[k],
                ) && pool[self.by_sender_nonce@[k]].slot() == k by {
                    if k != slot {
                        assert(places.contains_key(k));
                    }
                }
            }
            assert forall|s: Address| s != sender implies #[trigger] head_indexed(
                pool,
                self.head_by_sender@,
                s,
            ) by {
                assert(head_indexed(rest, self.head_by_sender@, s));
                lemma_head_elsewhere(rest, pool, self.head_by_sender@, s);
            }
        }
        self.refresh_sender_head(sender);
        self.expiries.insert(Pair(expires_at, hash), hash);
        self.by_address.insert(Pair(sender, Pair(hash, true)), hash);
        if !receiver.same(&sender) {
            self.by_address.insert(Pair(receiver, Pair(hash, false)), hash);
        }
        self.total_bytes = self.total_bytes.saturating_add(transaction_size);
        proof {
            assert(expiries_indexed(pool, self.expiries@)) by {
                assert forall|k: ExpiryKey| #[trigger] self.expiries@.contains_key(k) <==> pool.contains_key(k.1) && pool[k.1].expires_at == k.0 by {
                    assert(expiries.contains_key(k) <==> rest.contains_key(k.1) && rest[k.1].expires_at == k.0);
                }
                assert forall|k: ExpiryKey| #[trigger] self.expiries@.contains_key(k) implies self.expiries@[k] == k.1 by {
                    if k != Pair(expires_at, hash) {
                        assert(expiries.contains_key(k));
                    }
                }
            }
            assert(addresses_indexed(pool, self.by_address@)) by {
                assert forall|k: AddressKey| #[trigger] self.by_address@.contains_key(k) <==> pool.contains_key(k.1.0) && touches(pool[k.1.0], k.0, k.1.1) by {
                    assert(addresses.contains_key(k) <==> rest.contains_key(k.1.0) && touches(rest[k.1.0], k.0, k.1.1));
                }
                assert forall|k: AddressKey| #[trigger] self.by_address@.contains_key(k) implies self.by_address@[k] == k.1.0 by {
                    if addresses.contains_key(k) {
                        assert(addresses[k] == k.1.0);
                    }
                }
            }
            lemma_pool_bytes_insert(rest, hash, entry);
        }
        Ok(hash)
    }
}

proof fn lemma_place_holder(pool: Pool, tx: SignedTransaction, h: TransactionHash)
    requires
        coherent(pool),
        pool.contains_key(h),
        pool[h].slot() == Pair(tx.transaction.from, tx.transaction.nonce),
    ensures
        place_holder(pool, tx) == Some(h),
{
    assert(place_taken(pool, tx, None));
}

/// Each further confirmed transaction takes its hash out.
proof fn lemma_unconfirmed_step(pool: Pool, confirmed: Seq<SignedTransaction>, i: int)
    requires
        0 <= i < confirmed.len(),
    ensures
        unconfirmed(pool, confirmed.take(i + 1)) == unconfirmed(pool, confirmed.take(i)).remove(
            confirmed[i].hash,
        ),
{
    let more = unconfirmed(pool, confirmed.take(i + 1));
    let fewer = unconfirmed(pool, confirmed.take(i)).remove(confirmed[i].hash);
    assert forall|h: TransactionHash| more.contains_key(h) == fewer.contains_key(h) by {
        assert(confirmed.take(i + 1)[i] == confirmed[i]);
        if fewer.contains_key(h) {
            assert forall|k: int| 0 <= k < confirmed.take(i + 1).len() implies (
            #[trigger] confirmed.take(i + 1)[k]).hash != h by {
                if k < i {
                    assert(confirmed.take(i)[k].hash != h);
                }
            }
        }
        if more.contains_key(h) {
            assert forall|k: int| 0 <= k < confirmed.take(i).len() implies (
            #[trigger] confirmed.take(i)[k]).hash != h by {
                assert(confirmed.take(i + 1)[k].hash != h);
            }
        }
    }
    assert(more =~= fewer);
}

/// A stretch of nonces without transactions can be skipped.
proof fn lemma_queue_skip(pool: Pool, sender: Address, floor: int, next: int)
    requires
        coherent(pool),
        floor <= next <= u64::MAX + 1,
        forall|h: TransactionHash| #[trigger]
            pool.contains_key(h) && pool[h].sender() == sender ==> pool[h].nonce() < floor
                || pool[h].nonce() >= next,
    ensures
        queue_from(pool, sender, floor) == queue_from(pool, sender, next),
{
    if queued_from(pool, sender, floor) {
        lemma_first_from_exists(pool, sender, floor);
        let h = first_from(pool, sender, floor);
        assert(is_first_from(pool, sender, next, h));
        lemma_first_from_unique(pool, sender, next, h);
    } else if queued_from(pool, sender, next) {
        let h = choose|h: TransactionHash| #[trigger]
            pool.contains_key(h) && pool[h].sender() == sender && pool[h].nonce() >= next;
        assert(queued_from(pool, sender, floor));
    }
}

impl Mempool {
    /// Takes the expired transactions out and says how many there were.
    pub fn prune_expired(&mut self, now: u64) -> (removed: usize)
        requires
            old(self).wf(),
        ensures
            final(self).wf(),
            final(self).settings() == old(self).settings(),
            final(self).pool() == unexpired(old(self).pool(), now),
            final(self).bytes() == bytes_unexpired(old(self).pool(), old(self).bytes(), now),
            removed + final(self).pool().len() == old(self).pool().len(),
    {
        let ghost before = *self;
        let mut removed: usize = 0;
        let mut more: bool = true;
        proof {
            self.transactions.lemma_order();
        }
        while more
            invariant
                self.wf(),
                before.wf(),
                self.settings() == before.settings(),
                forall|h: TransactionHash| #[trigger]
                    self.pool().contains_key(h) ==> before.pool().contains_key(h) && self.pool()[h]
                        == before.pool()[h],
                forall|h: TransactionHash| #[trigger]
                    before.pool().contains_key(h) && !self.pool().contains_key(h)
                        ==> before.pool()[h].expires_at <= now,
                pool_bytes(self.pool()) <= pool_bytes(before.pool()),
                self.bytes() == bytes_less(
                    before.bytes(),
                    pool_bytes(before.pool()) - pool_bytes(self.pool()),
                ),
                removed + self.pool().len() == before.pool().len(),
                before.pool().len() <= usize::MAX,
                !more ==> forall|h: TransactionHash| #[trigger]
                    self.pool().contains_key(h) ==> self.pool()[h].expires_at > now,
            decreases self.pool().len(), (if more { 1int } else { 0int }),
        {
            let ghost current = *self;
            proof {
                self.expiries.lemma_order();
                self.transactions.lemma_order();
            }
            let count: usize = self.expiries.len();
            let mut due = false;
            if count > 0 {
                let first = self.expiries.key_at(0);
                if first.0 <= now {
                    due = true;
                    proof {
                        lemma_pool_bytes_split(self.pool(), first.1);
                        assert(self.pool().remove(first.1).dom() =~= self.pool().dom().remove(
                            first.1,
                        ));
                        assert(self.pool().dom().contains(first.1));
                        vstd::set_lib::lemma_set_empty_equivalency_len(self.pool().dom());
                    }
                    let _ = self.remove(&first.1);
                    removed = removed + 1;
                }
            }
            if !due {
                proof {
                    let order = self.expiries.order();
                    assert forall|h: TransactionHash| #[trigger]
                        self.pool().contains_key(h) implies self.pool()[h].expires_at > now by {
                        let k: ExpiryKey = Pair(self.pool()[h].expires_at, h);
                        assert(self.expiries@.contains_key(k));
                        assert(order.contains(k));
                        let i = order.index_of(k);
                        if i > 0 {
                            assert(order[0].before(order[i]));
                        }
                    }
                }
                more = false;
            }
        }
        proof {
            assert(self.pool() =~= unexpired(before.pool(), now));
        }
        removed
    }

    /// Takes the transactions of a block out of the pool.
    pub fn remove_confirmed(&mut self, block: &Block)
        requires
            old(self).wf(),
        ensures
            final(self).wf(),
            final(self).settings() == old(self).settings(),
            final(self).pool() == unconfirmed(old(self).pool(), block@.transactions),
            final(self).bytes() == bytes_less(
                old(self).bytes(),
                pool_bytes(old(self).pool()) - pool_bytes(final(self).pool()),
            ),
    {
        let ghost confirmed = block@.transactions;
        let ghost before = *self;
        let ghost pool = self.pool();
        let mut i: usize = 0;
        assert(unconfirmed(pool, confirmed.take(0)) =~= pool);
        while i < block.transactions.len()
            invariant
                self.wf(),
                self.settings() == before.settings(),
                before.wf(),
                pool == before.pool(),
                confirmed == block.transactions@,
                i <= confirmed.len(),
                self.pool() == unconfirmed(pool, confirmed.take(i as int)),
                pool_bytes(self.pool()) <= pool_bytes(pool),
                self.bytes() == bytes_less(
                    before.bytes(),
                    pool_bytes(pool) - pool_bytes(self.pool()),
                ),
            decreases confirmed.len() - i,
        {
            let hash = block.transactions[i].hash;
            let ghost current = self.pool();
            let _ = self.remove(&hash);
            proof {
                if current.contains_key(hash) {
                    lemma_pool_bytes_split(current, hash);
                } else {
                    assert(current.remove(hash) =~= current);
                }
                lemma_unconfirmed_step(pool, confirmed, i as int);
                assert(self.pool() =~= current.remove(hash));
            }
            i = i + 1;
        }
        assert(confirmed.take(i as int) =~= confirmed);
    }

    /// Takes everything out.
    pub fn clear(&mut self)
        requires
            old(self).wf(),
        ensures
            final(self).wf(),
            final(self).settings() == old(self).settings(),
            final(self).pool() == Map::<TransactionHash, PendingTransaction>::empty(),
            final(self).bytes() == 0,
    {
        let config = self.config;
        *self = Self::with_config(config);
    }

    pub(crate) fn validate_fee_policy(&self, transaction: &SignedTransaction) -> (r: Result<(), MempoolError>)
        ensures
            r == (if transaction.transaction.fee.0 < relay_fee(self.settings(), *transaction) {
                Err::<(), MempoolError>(MempoolError::FeeTooLow)
            } else {
                Ok::<(), MempoolError>(())
            }),
    {
        let rate: u64 = if self.config.min_relay_fee >= MIN_RELAY_FEE_FLOOR {
            self.config.min_relay_fee
        } else {
            MIN_RELAY_FEE_FLOOR
        };
        let owed: u64 = required_fee_for_rate(rate, transaction.virtual_size);
        let min_relay_fee: u64 = if owed >= MIN_RELAY_FEE_FLOOR {
            owed
        } else {
            MIN_RELAY_FEE_FLOOR
        };
        if transaction.transaction.fee.0 < min_relay_fee {
            return Err(MempoolError::FeeTooLow);
        }
        Ok(())
    }

    pub(crate) fn validate_timestamp_policy(
        &self,
        transaction: &SignedTransaction,
        now: u64,
    ) -> (r: Result<(), MempoolError>)
        ensures
            r == (match timestamp_error(*transaction, now) {
                Some(error) => Err::<(), MempoolError>(MempoolError::InvalidTransaction(error)),
                None => Ok::<(), MempoolError>(()),
            }),
    {
        if transaction.transaction.timestamp > now.saturating_add(
            MAX_RELAY_TRANSACTION_FUTURE_SECS,
        ) {
            return Err(MempoolError::InvalidTransaction(TransactionError::FromFuture));
        }
        if now.saturating_sub(transaction.transaction.timestamp) > MAX_RELAY_TRANSACTION_AGE_SECS {
            return Err(MempoolError::InvalidTransaction(TransactionError::Expired));
        }
        Ok(())
    }

    /// The checks on timestamp, signature and fee, in this order.
    pub(crate) fn validate_relay(
        &self,
        transaction: &SignedTransaction,
        now: u64,
        signed: Result<(), TransactionError>,
    ) -> (r: Result<(), MempoolError>)
        ensures
            r == (match relay_error(self.settings(), *transaction, now, signed) {
                Some(error) => Err::<(), MempoolError>(error),
                None => Ok::<(), MempoolError>(()),
            }),
    {
        match self.validate_timestamp_policy(transaction, now) {
            Err(error) => {
                return Err(error);
            },
            Ok(_) => {},
        }
        match signed {
            Err(error) => {
                return Err(MempoolError::InvalidTransaction(error));
            },
            Ok(_) => {},
        }
        self.validate_fee_policy(transaction)
    }

    pub(crate) fn replacement_candidate(&self, transaction: &SignedTransaction) -> (r: Result<
        Option<TransactionHash>,
        MempoolError,
    >)
        requires
            self.wf(),
        ensures
            r == (if underbids(self.pool(), *transaction) {
                Err::<Option<TransactionHash>, MempoolError>(MempoolError::ReplacementFeeTooLow)
            } else {
                Ok::<Option<TransactionHash>, MempoolError>(
                    place_holder(self.pool(), *transaction),
                )
            }),
    {
        let slot: SenderNonce = Pair(transaction.transaction.from, transaction.transaction.nonce);
        let hash = match self.by_sender_nonce.get(&slot) {
            Some(hash) => *hash,
            None => {
                assert(!place_taken(self.pool(), *transaction, None));
                return Ok(None);
            },
        };
        proof {
            lemma_place_holder(self.pool(), *transaction, hash);
        }
        match self.transactions.get(&hash) {
            Some(entry) => {
                if transaction.transaction.fee.0 <= entry.transaction.transaction.fee.0 {
                    return Err(MempoolError::ReplacementFeeTooLow);
                }
            },
            None => {},
        }
        Ok(Some(hash))
    }

    /// Whether a transaction fits behind its sender's pending ones, leaving out one of them.
    fn validate_ledger_fit_excluding(
        &self,
        ledger: &Ledger,
        transaction: &SignedTransaction,
        excluded: Option<TransactionHash>,
    ) -> (r: Result<(), MempoolError>)
        requires
            self.wf(),
            ledger.wf(),
        ensures
            r == (match ledger_fit(self.pool(), ledger.account_map(), *transaction, excluded) {
                Err(error) => Err::<(), MempoolError>(MempoolError::InvalidLedger(error)),
                Ok(_) => Ok::<(), MempoolError>(()),
            }),
    {
        let payload = &transaction.transaction;
        let from = payload.from;
        let sender = match ledger.account(&from) {
            Some(account) => *account,
            None => {
                return Err(MempoolError::InvalidLedger(LedgerError::AccountNotFound));
            },
        };
        let mut expected_nonce: u64 = sender.nonce.0;
        let mut spendable: u64 = sender.available.0;
        let ghost pool = self.pool();
        let ghost rest = pool_without(pool, excluded);
        let ghost outcome = ledger_fit(pool, ledger.account_map(), *transaction, excluded);
        proof {
            assert(rest.dom().subset_of(pool.dom()));
            vstd::set_lib::lemma_set_subset_finite(pool.dom(), rest.dom());
            assert(coherent(rest)) by {
                assert forall|g: TransactionHash, h: TransactionHash| #[trigger]
                    rest.contains_key(g) && #[trigger] rest.contains_key(h) && rest[g].slot()
                        == rest[h].slot() implies g == h by {
                    assert(pool.contains_key(g) && pool.contains_key(h));
                }
            }
        }
        let mut floor: u64 = 0;
        let mut done: bool = false;
        let ghost mut reached: int = 0;
        while !done
            invariant
                self.wf(),
                from == transaction.transaction.from,
                pool == self.pool(),
                rest == pool_without(pool, excluded),
                coherent(rest),
                0 <= reached <= u64::MAX + 1,
                !done ==> reached == floor,
                done ==> !queued_from(rest, from, reached),
                outcome == affords(
                    queue_from(rest, from, reached).push(*transaction),
                    expected_nonce,
                    spendable,
                ),
                outcome == ledger_fit(pool, ledger.account_map(), *transaction, excluded),
            decreases u64::MAX - floor, (if done { 0int } else { 1int }),
        {
            let hash = match self.first_sender_hash(from, Nonce(floor)) {
                Some(hash) => hash,
                None => {
                    proof {
                        if queued_from(rest, from, reached) {
                            let h = choose|h: TransactionHash| #[trigger]
                                rest.contains_key(h) && rest[h].sender() == from && rest[h].nonce()
                                    >= reached;
                            assert(pool.contains_key(h));
                        }
                    }
                    done = true;
                    continue ;
                },
            };
            let pending = match self.transactions.get(&hash) {
                Some(entry) => entry.transaction,
                None => {
                    done = true;
                    continue ;
                },
            };
            let skipped = match excluded {
                Some(excluded) => excluded.same(&hash),
                None => false,
            };
            let pending_nonce: u64 = pending.transaction.nonce.0;
            if skipped {
                proof {
                    assert forall|h: TransactionHash| #[trigger]
                        rest.contains_key(h) && rest[h].sender() == from implies rest[h].nonce()
                        < reached || rest[h].nonce() >= pending_nonce + 1 by {
                        assert(pool.contains_key(h));
                        if rest[h].nonce() >= reached && rest[h].nonce() <= pending_nonce {
                            assert(pool[h].slot() == pool[hash].slot());
                        }
                    }
                    lemma_queue_skip(rest, from, reached, pending_nonce + 1);
                }
            } else {
                proof {
                    assert(is_first_from(rest, from, reached, hash)) by {
                        assert(rest.contains_key(hash));
                        assert forall|g: TransactionHash| #[trigger]
                            rest.contains_key(g) && rest[g].sender() == from && rest[g].nonce()
                                >= reached implies rest[hash].nonce() <= rest[g].nonce() by {
                            assert(pool.contains_key(g));
                        }
                    }
                    lemma_first_from_unique(rest, from, reached, hash);
                    let tail = queue_from(rest, from, pending_nonce + 1);
                    assert(queue_from(rest, from, reached) == seq![pending] + tail);
                    assert((seq![pending] + tail).push(*transaction).skip(1) =~= tail.push(
                        *transaction,
                    ));
                    assert((seq![pending] + tail).push(*transaction)[0] == pending);
                }
                if pending_nonce != expected_nonce {
                    return Err(
                        MempoolError::InvalidLedger(
                            LedgerError::InvalidState(StateError::InvalidNonce),
                        ),
                    );
                }
                let total: u64 = match pending.transaction.amount.0.checked_add(
                    pending.transaction.fee.0,
                ) {
                    Some(total) => total,
                    None => {
                        return Err(
                            MempoolError::InvalidLedger(
                                LedgerError::InvalidState(StateError::BalanceOverflow),
                            ),
                        );
                    },
                };
                if spendable < total {
                    return Err(
                        MempoolError::InvalidLedger(
                            LedgerError::InvalidState(StateError::InsufficientBalance),
                        ),
                    );
                }
                spendable = spendable - total;
                expected_nonce = expected_nonce.saturating_add(1);
            }
            proof {
                reached = pending_nonce + 1;
            }
            if pending_nonce == u64::MAX {
                done = true;
            } else {
                floor = pending_nonce + 1;
            }
        }
        proof {
            let single = queue_from(rest, from, reached).push(*transaction);
            assert(single.len() == 1 && single[0] == *transaction);
            assert(single.skip(1).len() == 0);
            reveal_with_fuel(affords, 2);
        }
        if payload.nonce.0 != expected_nonce {
            return Err(
                MempoolError::InvalidLedger(LedgerError::InvalidState(StateError::InvalidNonce)),
            );
        }
        let total: u64 = match payload.amount.0.checked_add(payload.fee.0) {
            Some(total) => total,
            None => {
                return Err(
                    MempoolError::InvalidLedger(
                        LedgerError::InvalidState(StateError::BalanceOverflow),
                    ),
                );
            },
        };
        if spendable < total {
            return Err(
                MempoolError::InvalidLedger(
                    LedgerError::InvalidState(StateError::InsufficientBalance),
                ),
            );
        }
        Ok(())
    }
}

/// What a pool looks like after a transaction was offered to it: unchanged on the error that was
/// found, with the transaction in it otherwise.
pub open spec fn offered(
    after: &Mempool,
    r: Result<TransactionHash, MempoolError>,
    pool: Pool,
    bytes: int,
    tx: SignedTransaction,
    now: u64,
    replaced: Option<TransactionHash>,
    error: Option<MempoolError>,
) -> bool {
    match error {
        Some(error) => {
            &&& r == Err::<TransactionHash, MempoolError>(error)
            &&& after.pool() == pool
            &&& after.bytes() == bytes
        },
        None => {
            &&& r == Ok::<TransactionHash, MempoolError>(tx.hash)
            &&& after.pool() == pool_with(pool, bytes, after.settings(), tx, now, replaced)
            &&& after.bytes() == bytes_with(pool, bytes, tx, replaced)
        },
    }
}

/// The heads that still compete are exactly those in the fee index.
spec fn frontier_linked(
    pool: Pool,
    by_fee: Map<FeeHeadKey, TransactionHash>,
    heads: Map<Address, TransactionHash>,
) -> bool {
    &&& heads.dom().finite()
    &&& forall|s: Address| #[trigger]
        heads.contains_key(s) ==> {
            &&& pool.contains_key(heads[s])
            &&& pool[heads[s]].sender() == s
            &&& by_fee.contains_key(competing_key(pool[heads[s]].transaction))
        }
    &&& forall|k: FeeHeadKey| #[trigger]
        by_fee.contains_key(k) ==> {
            &&& pool.contains_key(by_fee[k])
            &&& heads.contains_key(pool[by_fee[k]].sender())
            &&& heads[pool[by_fee[k]].sender()] == by_fee[k]
            &&& k == competing_key(pool[by_fee[k]].transaction)
        }
}

/// At most one sender leads.
proof fn lemma_one_leader(
    pool: Pool,
    heads: Map<Address, TransactionHash>,
    sender: Address,
)
    requires
        leads(pool, heads, sender),
    ensures
        leader(pool, heads) == sender,
{
    let other = leader(pool, heads);
    assert(leads(pool, heads, other));
    if other != sender {
        let a = competing_key(pool[heads[other]].transaction);
        let b = competing_key(pool[heads[sender]].transaction);
        assert(heads.contains_key(other) && heads.contains_key(sender));
        assert(a.before(b) && b.before(a));
        FeeHeadKey::order_transitive(a, b, a);
        FeeHeadKey::order_irreflexive(a);
    }
}

fn is_eligible(
    transaction: &SignedTransaction,
    min_fee_rate: u64,
    height: Option<Height>,
) -> (r: bool)
    ensures
        r == eligible(*transaction, min_fee_rate as int, height),
{
    if fee_rate_key(transaction.transaction.fee.0, transaction.virtual_size) < min_fee_rate {
        return false;
    }
    match height {
        Some(height) => transaction.transaction.validity.validate_at(height).is_ok(),
        None => true,
    }
}

impl Mempool {
    /// Adds a transaction without looking at the chain. `signed` is the outcome of checking its
    /// signature at `now`.
    pub fn insert_at(
        &mut self,
        transaction: SignedTransaction,
        now: u64,
        signed: Result<(), TransactionError>,
    ) -> (r: Result<TransactionHash, MempoolError>)
        requires
            old(self).wf(),
        ensures
            final(self).wf(),
            final(self).settings() == old(self).settings(),
            ({
                let pool = unexpired(old(self).pool(), now);
                let bytes = bytes_unexpired(old(self).pool(), old(self).bytes(), now);
                offered(
                    final(self),
                    r,
                    pool,
                    bytes,
                    transaction,
                    now,
                    None,
                    insert_error(pool, bytes, old(self).settings(), transaction, now, signed),
                )
            }),
    {
        let _ = self.prune_expired(now);
        match self.validate_relay(&transaction, now, signed) {
            Err(error) => {
                return Err(error);
            },
            Ok(_) => {},
        }
        self.insert_unchecked(transaction, now, None)
    }

    /// Adds a transaction that fits the chain, replacing a cheaper one in its place.
    pub fn insert_validated_at(
        &mut self,
        ledger: &Ledger,
        transaction: SignedTransaction,
        now: u64,
        signed: SignatureVerdicts,
    ) -> (r: Result<TransactionHash, MempoolError>)
        requires
            old(self).wf(),
            ledger.wf(),
        ensures
            final(self).wf(),
            final(self).settings() == old(self).settings(),
            ({
                let pool = unexpired(old(self).pool(), now);
                let bytes = bytes_unexpired(old(self).pool(), old(self).bytes(), now);
                offered(
                    final(self),
                    r,
                    pool,
                    bytes,
                    transaction,
                    now,
                    place_holder(pool, transaction),
                    insert_validated_error(
                        pool,
                        bytes,
                        old(self).settings(),
                        ledger.account_map(),
                        transaction,
                        now,
                        signed,
                    ),
                )
            }),
    {
        let _ = self.prune_expired(now);
        match self.validate_relay(&transaction, now, signed.at_now) {
            Err(error) => {
                return Err(error);
            },
            Ok(_) => {},
        }
        self.insert_replacing(ledger, transaction, now, signed.timeless)
    }

    /// Adds a transaction whose relay checks are passed.
    pub(crate) fn insert_replacing(
        &mut self,
        ledger: &Ledger,
        transaction: SignedTransaction,
        now: u64,
        signed: Result<(), TransactionError>,
    ) -> (r: Result<TransactionHash, MempoolError>)
        requires
            old(self).wf(),
            ledger.wf(),
            transaction.transaction.fee.0 >= relay_fee(old(self).settings(), transaction),
        ensures
            final(self).wf(),
            final(self).settings() == old(self).settings(),
            offered(
                final(self),
                r,
                old(self).pool(),
                old(self).bytes(),
                transaction,
                now,
                place_holder(old(self).pool(), transaction),
                chain_error(
                    old(self).pool(),
                    old(self).bytes(),
                    old(self).settings(),
                    ledger.account_map(),
                    transaction,
                    signed,
                ),
            ),
    {
        let replacement = match self.replacement_candidate(&transaction) {
            Err(error) => {
                return Err(error);
            },
            Ok(replacement) => replacement,
        };
        match self.validate_against_ledger_excluding(ledger, &transaction, replacement, signed) {
            Err(error) => {
                return Err(error);
            },
            Ok(_) => {},
        }
        self.insert_unchecked(transaction, now, replacement)
    }

    fn validate_against_ledger_excluding(
        &self,
        ledger: &Ledger,
        transaction: &SignedTransaction,
        excluded: Option<TransactionHash>,
        signed: Result<(), TransactionError>,
    ) -> (r: Result<(), MempoolError>)
        requires
            self.wf(),
            ledger.wf(),
        ensures
            r == (match fit_error(
                self.pool(),
                self.settings(),
                ledger.account_map(),
                *transaction,
                excluded,
                signed,
            ) {
                Some(error) => Err::<(), MempoolError>(error),
                None => Ok::<(), MempoolError>(()),
            }),
    {
        match signed {
            Err(error) => {
                return Err(MempoolError::InvalidTransaction(error));
            },
            Ok(_) => {},
        }
        match self.validate_fee_policy(transaction) {
            Err(error) => {
                return Err(error);
            },
            Ok(_) => {},
        }
        self.validate_ledger_fit_excluding(ledger, transaction, excluded)
    }

    /// Whether a transaction pays enough and fits the chain behind its sender's pending ones. `signed`
    /// is the outcome of checking its signature.
    pub fn validate_against_ledger(
        &self,
        ledger: &Ledger,
        transaction: &SignedTransaction,
        signed: Result<(), TransactionError>,
    ) -> (r: Result<(), MempoolError>)
        requires
            self.wf(),
            ledger.wf(),
        ensures
            r == (match fit_error(
                self.pool(),
                self.settings(),
                ledger.account_map(),
                *transaction,
                None,
                signed,
            ) {
                Some(error) => Err::<(), MempoolError>(error),
                None => Ok::<(), MempoolError>(()),
            }),
    {
        self.validate_against_ledger_excluding(ledger, transaction, None, signed)
    }

    /// The transactions for a block: the best queue head first, up to a limit.
    fn select_for_block_with_policy(
        &self,
        limit: usize,
        min_fee_rate: u64,
        height: Option<Height>,
    ) -> (selected: Vec<SignedTransaction>)
        requires
            self.wf(),
        ensures
            selected@ == drawn(
                self.pool(),
                queue_heads(self.pool()),
                limit as nat,
                min_fee_rate as int,
                height,
            ),
    {
        let ghost pool = self.pool();
        let ghost mut heads = queue_heads(pool);
        let ghost whole = drawn(pool, heads, limit as nat, min_fee_rate as int, height);
        let mut heads_by_fee = self.heads_by_fee.duplicate();
        let mut selected: Vec<SignedTransaction> = Vec::new();
        proof {
            self.head_by_sender.lemma_order();
            let index = self.head_by_sender@;
            assert forall|s: Address|
                #![trigger heads.contains_key(s)]
                #![trigger index.contains_key(s)]
                heads.contains_key(s) == index.contains_key(s) && (
            heads.contains_key(s) ==> heads[s] == index[s].0 && index[s].1 == competing_key(
                pool[index[s].0].transaction,
            ) && pool.contains_key(heads[s]) && pool[heads[s]].sender() == s) by {
                assert(head_indexed(pool, index, s));
                if queued_from(pool, s, 0) {
                    lemma_first_from_unique(pool, s, 0, index[s].0);
                }
            }
            assert(heads.dom() =~= index.dom());
            assert(frontier_linked(pool, heads_by_fee@, heads)) by {
                let by_fee = heads_by_fee@;
                assert forall|s: Address| #[trigger] heads.contains_key(s) implies pool.contains_key(
                    heads[s],
                ) && pool[heads[s]].sender() == s && by_fee.contains_key(
                    competing_key(pool[heads[s]].transaction),
                ) by {
                    assert(index.contains_key(s));
                }
                assert forall|k: FeeHeadKey| #[trigger] by_fee.contains_key(k) implies pool.contains_key(
                    by_fee[k],
                ) && heads.contains_key(pool[by_fee[k]].sender())
                    && heads[pool[by_fee[k]].sender()] == by_fee[k] && k == competing_key(
                    pool[by_fee[k]].transaction,
                ) by {
                    let s = choose|s: Address| #[trigger]
                        index.contains_key(s) && index[s] == Pair(by_fee[k], k);
                    assert(heads.contains_key(s));
                }
            }
            assert(selected@ + whole =~= whole);
        }
        let mut open = true;
        while open && selected.len() < limit
            invariant
                self.wf(),
                pool == self.pool(),
                selected@.len() <= limit,
                heads_by_fee.wf(),
                frontier_linked(pool, heads_by_fee@, heads),
                open ==> selected@ + drawn(
                    pool,
                    heads,
                    (limit - selected@.len()) as nat,
                    min_fee_rate as int,
                    height,
                ) == whole,
                !open ==> selected@ == whole,
            decreases
                    limit - selected@.len(),
                    heads_by_fee.order().len(),
                    (if open {
                        1int
                    } else {
                        0int
                    }),
        {
            let ghost by_fee = heads_by_fee@;
            let ghost left = (limit - selected@.len()) as nat;
            let (key, hash) = match heads_by_fee.pop_last() {
                Some((key, hash)) => (key, hash),
                None => {
                    proof {
                        assert forall|s: Address| !leads(pool, heads, s) by {
                            if heads.contains_key(s) {
                                assert(by_fee.contains_key(
                                    competing_key(pool[heads[s]].transaction),
                                ));
                            }
                        }
                        assert(drawn(pool, heads, left, min_fee_rate as int, height)
                            =~= Seq::<SignedTransaction>::empty());
                        assert(selected@ + Seq::<SignedTransaction>::empty() =~= selected@);
                    }
                    open = false;
                    continue ;
                },
            };
            let ghost sender = pool[hash].sender();
            proof {
                assert(by_fee.contains_key(key));
                assert(leads(pool, heads, sender)) by {
                    assert forall|other: Address| #[trigger]
                        heads.contains_key(other) && other != sender implies competing_key(
                        pool[heads[other]].transaction,
                    ).before(competing_key(pool[heads[sender]].transaction)) by {
                        let k = competing_key(pool[heads[other]].transaction);
                        assert(by_fee.contains_key(k));
                        assert(k.1.1.1.0 == heads[other]);
                        assert(key.1.1.1.0 == heads[sender]);
                    }
                }
                lemma_one_leader(pool, heads, sender);
            }
            let transaction = match self.transactions.get(&hash) {
                Some(entry) => entry.transaction,
                None => {
                    open = false;
                    continue ;
                },
            };
            if !is_eligible(&transaction, min_fee_rate, height) {
                proof {
                    let rest = heads.remove(sender);
                    assert(frontier_linked(pool, heads_by_fee@, rest)) by {
                        assert forall|s: Address| #[trigger] rest.contains_key(
                            s,
                        ) implies pool.contains_key(rest[s]) && pool[rest[s]].sender() == s
                            && heads_by_fee@.contains_key(
                            competing_key(pool[rest[s]].transaction),
                        ) by {
                            assert(heads.contains_key(s));
                        }
                        assert forall|k: FeeHeadKey| #[trigger]
                            heads_by_fee@.contains_key(k) implies pool.contains_key(
                            heads_by_fee@[k],
                        ) && rest.contains_key(pool[heads_by_fee@[k]].sender())
                            && rest[pool[heads_by_fee@[k]].sender()] == heads_by_fee@[k] && k
                            == competing_key(pool[heads_by_fee@[k]].transaction) by {
                            assert(by_fee.contains_key(k));
                        }
                    }
                    heads = rest;
                }
                continue ;
            }
            selected.push(transaction);
            let next_nonce: u64 = transaction.transaction.nonce.0.saturating_add(1);
            let next = self.first_sender_hash(transaction.transaction.from, Nonce(next_nonce));
            let ghost popped = heads_by_fee@;
            let ghost onward = promoted(pool, heads, sender);
            proof {
                let tail = drawn(pool, onward, (left - 1) as nat, min_fee_rate as int, height);
                assert(drawn(pool, heads, left, min_fee_rate as int, height) == seq![transaction]
                    + tail);
                assert(selected@.drop_last() + (seq![transaction] + tail) =~= selected@ + tail);
                assert(next_nonce == following(pool[heads[sender]].nonce()));
            }
            match next {
                Some(next_hash) => {
                    match self.head_key(next_hash) {
                        Some(next_key) => {
                            heads_by_fee.insert(next_key, next_hash);
                        },
                        None => {},
                    }
                },
                None => {},
            }
            proof {
                assert(frontier_linked(pool, heads_by_fee@, onward)) by {
                    assert forall|s: Address| #[trigger] onward.contains_key(
                        s,
                    ) implies pool.contains_key(onward[s]) && pool[onward[s]].sender() == s
                        && heads_by_fee@.contains_key(
                        competing_key(pool[onward[s]].transaction),
                    ) by {
                        if s != sender {
                            assert(heads.contains_key(s));
                            assert(by_fee.contains_key(competing_key(pool[heads[s]].transaction)));
                        }
                    }
                    assert forall|k: FeeHeadKey| #[trigger]
                        heads_by_fee@.contains_key(k) implies pool.contains_key(heads_by_fee@[k])
                        && onward.contains_key(pool[heads_by_fee@[k]].sender())
                        && onward[pool[heads_by_fee@[k]].sender()] == heads_by_fee@[k] && k
                        == competing_key(pool[heads_by_fee@[k]].transaction) by {
                        if popped.contains_key(k) {
                            assert(by_fee.contains_key(k));
                        }
                    }
                }
                heads = onward;
            }
        }
        proof {
            if open {
                assert(drawn(pool, heads, 0, min_fee_rate as int, height) =~= Seq::<
                    SignedTransaction,
                >::empty());
                assert(selected@ + Seq::<SignedTransaction>::empty() =~= selected@);
            }
        }
        selected
    }

    /// The transactions for a block at no particular height, with a minimum fee rate.
    pub fn select_for_block_with_min_fee_rate(
        &self,
        limit: usize,
        min_fee_rate: u64,
    ) -> (selected: Vec<SignedTransaction>)
        requires
            self.wf(),
        ensures
            selected@ == drawn(
                self.pool(),
                queue_heads(self.pool()),
                limit as nat,
                min_fee_rate as int,
                None,
            ),
    {
        self.select_for_block_with_policy(limit, min_fee_rate, None)
    }

    /// The transactions for a block at no particular height that pay the market rate.
    pub fn select_for_block(&self, limit: usize) -> (selected: Vec<SignedTransaction>)
        requires
            self.wf(),
        ensures
            selected@ == drawn(
                self.pool(),
                queue_heads(self.pool()),
                limit as nat,
                going_rate(self.settings(), self.bytes(), self.pool().len() as int),
                None,
            ),
    {
        self.select_for_block_with_min_fee_rate(limit, self.dynamic_market_fee_rate())
    }

    /// The transactions for a block at a given height.
    pub fn select_for_block_at_height(
        &self,
        limit: usize,
        min_fee_rate: u64,
        height: Height,
    ) -> (selected: Vec<SignedTransaction>)
        requires
            self.wf(),
        ensures
            selected@ == drawn(
                self.pool(),
                queue_heads(self.pool()),
                limit as nat,
                min_fee_rate as int,
                Some(height),
            ),
    {
        self.select_for_block_with_policy(limit, min_fee_rate, Some(height))
    }

    /// All pending transactions in hash order.
    pub fn transactions(&self) -> (list: Vec<SignedTransaction>)
        requires
            self.wf(),
        ensures
            lists_all(list@, self.pool()),
            list@.len() == self.pool().len(),
    {
        let mut list: Vec<SignedTransaction> = Vec::new();
        let n: usize = self.transactions.len();
        let ghost order = self.transactions.order();
        let ghost pool = self.transactions@;
        proof {
            self.transactions.lemma_order();
        }
        let mut i: usize = 0;
        while i < n
            invariant
                self.wf(),
                order == self.transactions.order(),
                pool == self.transactions@,
                n == order.len(),
                i <= n,
                list@.len() == i,
                forall|j: int| 0 <= j < n ==> pool.contains_key(#[trigger] order[j]),
                forall|j: int| 0 <= j < i ==> (#[trigger] list@[j]) == pool[order[j]].transaction,
            decreases n - i,
        {
            let entry = *self.transactions.value_at(i);
            list.push(entry.transaction);
            i = i + 1;
        }
        proof {
            assert forall|i: int, j: int| 0 <= i < j < list@.len() implies (
            #[trigger] list@[i]).hash.before((#[trigger] list@[j]).hash) by {
                assert(pool.contains_key(order[i]) && pool.contains_key(order[j]));
            }
            assert forall|i: int| 0 <= i < list@.len() implies {
                let tx = #[trigger] list@[i];
                pool.contains_key(tx.hash) && pool[tx.hash].transaction == tx
            } by {
                assert(pool.contains_key(order[i]));
            }
            assert forall|h: TransactionHash| #[trigger] pool.contains_key(h) implies list@.contains(
                pool[h].transaction,
            ) by {
                assert(order.contains(h));
                let j = order.index_of(h);
                assert(list@[j] == pool[h].transaction);
            }
        }
        list
    }

    /// The pending transactions that an address sends or receives, in hash order.
    pub fn transactions_for_address(&self, address: &Address) -> (list: Vec<SignedTransaction>)
        requires
            self.wf(),
        ensures
            lists(
                list@,
                self.pool(),
                |tx: SignedTransaction|
                    tx.transaction.from == *address || tx.transaction.to == *address,
            ),
    {
        let mut list: Vec<SignedTransaction> = Vec::new();
        let ghost wanted = |tx: SignedTransaction|
            tx.transaction.from == *address || tx.transaction.to == *address;
        let ghost pool = self.transactions@;
        let low: AddressKey = Pair(*address, Pair(TransactionHash([0;32]), false));
        let n: usize = self.by_address.len();
        let mut i: usize = self.by_address.lower_bound(&low);
        let ghost start = i as int;
        let ghost order = self.by_address.order();
        proof {
            self.by_address.lemma_order();
            assert forall|k: AddressKey| k.0 == *address && #[trigger] order.contains(
                k,
            ) implies order.index_of(k) >= start by {
                assert(!k.before(low)) by {
                    Address::order_irreflexive(*address);
                    let zero = low.1.0;
                    if k.1.0.before(zero) {
                        let j = choose|j: int|
                            0 <= j < k.1.0.0@.len() && j < zero.0@.len() && #[trigger] k.1.0.0@[j]
                                < zero.0@[j] && k.1.0.0@.take(j) =~= zero.0@.take(j);
                        assert(zero.0@[j] == 0);
                    }
                }
            }
        }
        let mut open = true;
        while open && i < n
            invariant
                self.wf(),
                pool == self.transactions@,
                order == self.by_address.order(),
                n == order.len(),
                crate::sorted_map::ascending(order),
                forall|k: AddressKey| self.by_address@.contains_key(k) <==> #[trigger] order.contains(k),
                0 <= start <= i <= n,
                list@.len() == i - start,
                forall|j: int| start <= j < i ==> (#[trigger] order[j]).0 == *address,
                forall|j: int|
                    0 <= j < i - start ==> (#[trigger] list@[j]) == pool[order[start + j].1.0].transaction,
                !open ==> i < n && order[i as int].0 != *address && (forall|j: int|
                    0 <= j < start ==> (#[trigger] order[j]).before(low)),
                forall|j: int| 0 <= j < start ==> (#[trigger] order[j]).before(low),
                forall|j: int| start <= j < n ==> !(#[trigger] order[j]).before(low),
            decreases n - i, (if open { 1int } else { 0int }),
        {
            let key = self.by_address.key_at(i);
            if !key.0.same(address) {
                open = false;
                continue ;
            }
            let hash = *self.by_address.value_at(i);
            proof {
                assert(order.contains(order[i as int]));
            }
            match self.transactions.get(&hash) {
                Some(entry) => {
                    list.push(entry.transaction);
                },
                None => {},
            }
            i = i + 1;
        }
        proof {
            let stop = i as int;
            assert forall|j: int| start <= j < n && (#[trigger] order[j]).0 == *address implies j
                < stop by {
                if j >= stop {
                    if j > stop {
                        assert(order[stop].before(order[j]));
                        assert(!order[stop].before(low));
                        AddressKey::order_connected(order[stop], low);
                        Address::order_irreflexive(*address);
                        if order[stop].0.before(*address) {
                        } else {
                            Address::order_connected(order[stop].0, *address);
                            Address::order_transitive(*address, order[stop].0, *address);
                        }
                    }
                }
            }
            assert forall|i: int, j: int| 0 <= i < j < list@.len() implies (
            #[trigger] list@[i]).hash.before((#[trigger] list@[j]).hash) by {
                let a = order[start + i];
                let b = order[start + j];
                assert(order.contains(a) && order.contains(b));
                assert(a.before(b));
                Address::order_irreflexive(*address);
                assert(self.by_address@.contains_key(a) && self.by_address@.contains_key(b));
                if a.1.0 == b.1.0 {
                    assert(touches(pool[a.1.0], *address, a.1.1));
                    assert(touches(pool[a.1.0], *address, b.1.1));
                }
            }
            assert forall|i: int| 0 <= i < list@.len() implies {
                let tx = #[trigger] list@[i];
                pool.contains_key(tx.hash) && pool[tx.hash].transaction == tx && wanted(tx)
            } by {
                let a = order[start + i];
                assert(order.contains(a));
                assert(self.by_address@.contains_key(a));
            }
            assert forall|h: TransactionHash| #[trigger] pool.contains_key(h) && wanted(
                pool[h].transaction,
            ) implies list@.contains(pool[h].transaction) by {
                let outgoing = pool[h].transaction.transaction.from == *address;
                let k: AddressKey = Pair(*address, Pair(h, outgoing));
                assert(touches(pool[h], *address, outgoing));
                assert(self.by_address@.contains_key(k));
                assert(order.contains(k));
                let j = order.index_of(k);
                assert(order[j].0 == *address);
                assert(list@[j - start] == pool[h].transaction);
            }
        }
        list
    }
}

} // verus!
