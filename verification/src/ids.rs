//! Identifiers and quantities that every part of the node speaks of.
use crate::order::{Rank, Sortable};
use vstd::prelude::*;

verus! {

/// Address of an account.
#[derive(Clone, Copy, Debug, PartialEq, Eq, PartialOrd, Ord, Hash)]
pub struct Address(pub [u8; 20]);

impl Sortable for Address {
    open spec fn before(self, other: Self) -> bool {
        self.0.before(other.0)
    }

    proof fn order_irreflexive(a: Self) {
        <[u8; 20] as Sortable>::order_irreflexive(a.0);
    }

    proof fn order_transitive(a: Self, b: Self, c: Self) {
        <[u8; 20] as Sortable>::order_transitive(a.0, b.0, c.0);
    }

    proof fn order_connected(a: Self, b: Self) {
        <[u8; 20] as Sortable>::order_connected(a.0, b.0);
    }

    fn rank(&self, other: &Self) -> (r: Rank) {
        self.0.rank(&other.0)
    }
}

impl Address {
    /// Whether two values are equal.
    pub fn same(&self, other: &Self) -> (r: bool)
        ensures
            r == (*self == *other),
    {
        proof {
            <Self as Sortable>::order_irreflexive(*self);
        }
        match self.rank(other) {
            Rank::Same => true,
            _ => false,
        }
    }
}

/// Hash of a block.
#[derive(Clone, Copy, Debug, PartialEq, Eq, PartialOrd, Ord, Hash)]
pub struct BlockHash(pub [u8; 32]);

impl Sortable for BlockHash {
    open spec fn before(self, other: Self) -> bool {
        self.0.before(other.0)
    }

    proof fn order_irreflexive(a: Self) {
        <[u8; 32] as Sortable>::order_irreflexive(a.0);
    }

    proof fn order_transitive(a: Self, b: Self, c: Self) {
        <[u8; 32] as Sortable>::order_transitive(a.0, b.0, c.0);
    }

    proof fn order_connected(a: Self, b: Self) {
        <[u8; 32] as Sortable>::order_connected(a.0, b.0);
    }

    fn rank(&self, other: &Self) -> (r: Rank) {
        self.0.rank(&other.0)
    }
}

impl BlockHash {
    /// Whether two values are equal.
    pub fn same(&self, other: &Self) -> (r: bool)
        ensures
            r == (*self == *other),
    {
        proof {
            <Self as Sortable>::order_irreflexive(*self);
        }
        match self.rank(other) {
            Rank::Same => true,
            _ => false,
        }
    }
}

/// Hash of a transaction.
#[derive(Clone, Copy, Debug, PartialEq, Eq, PartialOrd, Ord, Hash)]
pub struct TransactionHash(pub [u8; 32]);

impl Sortable for TransactionHash {
    open spec fn before(self, other: Self) -> bool {
        self.0.before(other.0)
    }

    proof fn order_irreflexive(a: Self) {
        <[u8; 32] as Sortable>::order_irreflexive(a.0);
    }

    proof fn order_transitive(a: Self, b: Self, c: Self) {
        <[u8; 32] as Sortable>::order_transitive(a.0, b.0, c.0);
    }

    proof fn order_connected(a: Self, b: Self) {
        <[u8; 32] as Sortable>::order_connected(a.0, b.0);
    }

    fn rank(&self, other: &Self) -> (r: Rank) {
        self.0.rank(&other.0)
    }
}

impl TransactionHash {
    /// Whether two values are equal.
    pub fn same(&self, other: &Self) -> (r: bool)
        ensures
            r == (*self == *other),
    {
        proof {
            <Self as Sortable>::order_irreflexive(*self);
        }
        match self.rank(other) {
            Rank::Same => true,
            _ => false,
        }
    }
}

/// Identifier of a bearer coin.
#[derive(Clone, Copy, Debug, PartialEq, Eq, PartialOrd, Ord, Hash)]
pub struct CashCoinId(pub [u8; 32]);

impl Sortable for CashCoinId {
    open spec fn before(self, other: Self) -> bool {
        self.0.before(other.0)
    }

    proof fn order_irreflexive(a: Self) {
        <[u8; 32] as Sortable>::order_irreflexive(a.0);
    }

    proof fn order_transitive(a: Self, b: Self, c: Self) {
        <[u8; 32] as Sortable>::order_transitive(a.0, b.0, c.0);
    }

    proof fn order_connected(a: Self, b: Self) {
        <[u8; 32] as Sortable>::order_connected(a.0, b.0);
    }

    fn rank(&self, other: &Self) -> (r: Rank) {
        self.0.rank(&other.0)
    }
}

impl CashCoinId {
    /// Whether two values are equal.
    pub fn same(&self, other: &Self) -> (r: bool)
        ensures
            r == (*self == *other),
    {
        proof {
            <Self as Sortable>::order_irreflexive(*self);
        }
        match self.rank(other) {
            Rank::Same => true,
            _ => false,
        }
    }
}

/// Height of a block; the genesis block has height zero.
#[derive(Clone, Copy, Debug, PartialEq, Eq, PartialOrd, Ord, Hash, Structural)]
pub struct Height(pub u64);

impl Sortable for Height {
    open spec fn before(self, other: Self) -> bool {
        self.0.before(other.0)
    }

    proof fn order_irreflexive(a: Self) {
        <u64 as Sortable>::order_irreflexive(a.0);
    }

    proof fn order_transitive(a: Self, b: Self, c: Self) {
        <u64 as Sortable>::order_transitive(a.0, b.0, c.0);
    }

    proof fn order_connected(a: Self, b: Self) {
        <u64 as Sortable>::order_connected(a.0, b.0);
    }

    fn rank(&self, other: &Self) -> (r: Rank) {
        self.0.rank(&other.0)
    }
}

/// Position of a transaction among those of its sender.
#[derive(Clone, Copy, Debug, PartialEq, Eq, PartialOrd, Ord, Hash, Structural)]
pub struct Nonce(pub u64);

impl Sortable for Nonce {
    open spec fn before(self, other: Self) -> bool {
        self.0.before(other.0)
    }

    proof fn order_irreflexive(a: Self) {
        <u64 as Sortable>::order_irreflexive(a.0);
    }

    proof fn order_transitive(a: Self, b: Self, c: Self) {
        <u64 as Sortable>::order_transitive(a.0, b.0, c.0);
    }

    proof fn order_connected(a: Self, b: Self) {
        <u64 as Sortable>::order_connected(a.0, b.0);
    }

    fn rank(&self, other: &Self) -> (r: Rank) {
        self.0.rank(&other.0)
    }
}

/// An amount in the smallest unit.
#[derive(Clone, Copy, Debug, PartialEq, Eq, PartialOrd, Ord, Hash, Structural)]
pub struct Amount(pub u64);

/// Thirty-two zero bytes.
pub open spec fn zero_bytes() -> [u8; 32] {
    [
        0u8, 0u8, 0u8, 0u8, 0u8, 0u8, 0u8, 0u8, 0u8, 0u8, 0u8, 0u8, 0u8, 0u8, 0u8, 0u8,
        0u8, 0u8, 0u8, 0u8, 0u8, 0u8, 0u8, 0u8, 0u8, 0u8, 0u8, 0u8, 0u8, 0u8, 0u8, 0u8,
    ]
}

/// Thirty-two zero bytes.
pub fn zeros() -> (r: [u8; 32])
    ensures
        r == zero_bytes(),
        forall|i: int| 0 <= i < 32 ==> #[trigger] r@[i] == 0,
{
    [
        0u8, 0u8, 0u8, 0u8, 0u8, 0u8, 0u8, 0u8, 0u8, 0u8, 0u8, 0u8, 0u8, 0u8, 0u8, 0u8,
        0u8, 0u8, 0u8, 0u8, 0u8, 0u8, 0u8, 0u8, 0u8, 0u8, 0u8, 0u8, 0u8, 0u8, 0u8, 0u8,
    ]
}

} // verus!
