//! The state of a node that answers are made from.
use crate::cache::CoreCache;
use crate::chain::Ledger;
use crate::ids::{Address, BlockHash, Height};
use crate::mempool::extension::ExtensionMempool;
use crate::mempool::mempool::Mempool;
use crate::mempool::policy::MempoolConfig;
use crate::network::message::TipInfo;
use vstd::prelude::*;

verus! {

/// The chain, the cache and the mempools of a node. `V` is the type of cached verifying keys.
#[derive(Clone, Debug)]
pub struct Node<V> {
    pub ledger: Ledger,
    pub cache: CoreCache<V>,
    pub mempool: Mempool,
    pub extension_mempool: ExtensionMempool,
}

/// Height and hash of the tip, if there is one.
pub open spec fn tip_info(tip: (Option<Height>, Option<BlockHash>)) -> Option<TipInfo> {
    match tip {
        (Some(height), Some(hash)) => Some(TipInfo { height, hash }),
        _ => None,
    }
}

impl<V> Node<V> {
    /// All parts are well formed.
    pub open spec fn wf(&self) -> bool {
        &&& self.ledger.wf()
        &&& self.cache.wf()
        &&& self.mempool.wf()
        &&& self.extension_mempool.wf()
    }

    /// A node with empty mempools whose cache holds its chain.
    pub fn from_ledger(ledger: Ledger) -> (r: Self)
        requires
            ledger.wf(),
        ensures
            r.wf(),
            r.ledger == ledger,
            r.cache.account_map() == ledger.account_map(),
            r.cache.height_map() == ledger.block_map(),
            crate::cache::resolves(r.cache.hash_map(), ledger.block_map()),
            r.cache.addresses() == Map::<Seq<u8>, Address>::empty(),
            r.cache.verifying_keys() == Map::<Seq<u8>, V>::empty(),
            r.cache.tip() == ledger.tip(),
            r.mempool.settings() == MempoolConfig::standard(),
            r.mempool.bytes() == 0,
            r.mempool.pool() == Map::<
                crate::ids::TransactionHash,
                crate::mempool::pool::PendingTransaction,
            >::empty(),
            r.extension_mempool.pool() == Map::<
                crate::ids::TransactionHash,
                crate::transaction::ProtocolModel,
            >::empty(),
    {
        let cache = CoreCache::from_ledger(&ledger);
        Node {
            ledger,
            cache,
            mempool: Mempool::new(),
            extension_mempool: ExtensionMempool::new(),
        }
    }

    /// The tip of the chain.
    pub fn tip(&self) -> (r: Option<TipInfo>)
        ensures
            r == tip_info(self.ledger.tip()),
    {
        match (self.ledger.tip_height(), self.ledger.tip_hash()) {
            (Some(height), Some(hash)) => Some(TipInfo { height, hash }),
            _ => None,
        }
    }

    /// The height of the tip, zero for an empty chain.
    pub fn tip_height_or_zero(&self) -> (r: u64)
        ensures
            r == tip_number(self.ledger.tip().0),
    {
        match self.ledger.tip_height() {
            Some(height) => height.0,
            None => 0,
        }
    }
}

/// The height of a tip as a number, zero for an empty chain.
pub open spec fn tip_number(tip: Option<Height>) -> int {
    match tip {
        Some(height) => height.0 as int,
        None => 0,
    }
}

} // verus!
