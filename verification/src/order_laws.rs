//! Which key comes first.
use crate::ids::{Address, BlockHash, CashCoinId, Height, Nonce, TransactionHash};
use crate::order::{bytes_before, Pair, Reversed, Sortable};
use vstd::prelude::*;

verus! {

/// Of two byte strings of one length the one with the lower byte at the first difference comes first.
pub proof fn the_first_difference_decides(a: Seq<u8>, b: Seq<u8>, i: int)
    requires
        a.len() == b.len(),
        0 <= i < a.len(),
        a[i] != b[i],
        forall|j: int| 0 <= j < i ==> a[j] == b[j],
    ensures
        bytes_before(a, b) <==> a[i] < b[i],
{
    if bytes_before(a, b) {
        let k = choose|k: int|
            0 <= k < a.len() && k < b.len() && #[trigger] a[k] < b[k] && a.take(k) =~= b.take(k);
        if k > i {
            assert(a.take(k)[i] == b.take(k)[i]);
        }
    }
    if a[i] < b[i] {
        assert(a.take(i) =~= b.take(i));
    }
}

/// Identifiers are ordered by their bytes, and numbers by their size.
pub proof fn identifiers_are_ordered_by_their_bytes(
    addresses: (Address, Address),
    blocks: (BlockHash, BlockHash),
    transactions: (TransactionHash, TransactionHash),
    coins: (CashCoinId, CashCoinId),
    heights: (Height, Height),
    nonces: (Nonce, Nonce),
)
    ensures
        addresses.0.before(addresses.1) <==> bytes_before(addresses.0.0@, addresses.1.0@),
        blocks.0.before(blocks.1) <==> bytes_before(blocks.0.0@, blocks.1.0@),
        transactions.0.before(transactions.1) <==> bytes_before(
            transactions.0.0@,
            transactions.1.0@,
        ),
        coins.0.before(coins.1) <==> bytes_before(coins.0.0@, coins.1.0@),
        heights.0.before(heights.1) <==> heights.0.0 < heights.1.0,
        nonces.0.before(nonces.1) <==> nonces.0.0 < nonces.1.0,
{
}

/// A pair is ordered by its first part, and by its second where the first parts are equal; a reversed
/// key the other way round.
pub proof fn pairs_are_ordered_from_the_left<A: Sortable, B: Sortable>(
    a: (A, A),
    b: (B, B),
)
    ensures
        a.0.before(a.1) ==> Pair(a.0, b.0).before(Pair(a.1, b.1)),
        Pair(a.0, b.0).before(Pair(a.0, b.1)) <==> b.0.before(b.1),
        a.0.before(a.1) ==> !Pair(a.1, b.1).before(Pair(a.0, b.0)),
        Reversed(a.0).before(Reversed(a.1)) <==> a.1.before(a.0),
{
    A::order_irreflexive(a.0);
    A::order_irreflexive(a.1);
    A::order_transitive(a.0, a.1, a.0);
}

} // verus!
