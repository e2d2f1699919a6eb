//! What a cache answers and what a checked signature means.
use crate::cache::{derivable, makeable, resolves, signature_checked, CoreCache};
use crate::chain::BlockModel;
use crate::ids::{Address, BlockHash, Height};
use crate::transaction::{SignedTransaction, TransactionError};
use vstd::prelude::*;

verus! {

/// Every block of a chain whose hashes differ is found by its hash, and what is found by a hash is the
/// block of the chain with that hash.
pub proof fn blocks_are_found_by_their_hash(
    by_hash: Map<BlockHash, BlockModel>,
    chain: Map<Height, BlockModel>,
    height: Height,
    hash: BlockHash,
)
    requires
        resolves(by_hash, chain),
        forall|a: Height, b: Height| #[trigger]
            chain.contains_key(a) && #[trigger] chain.contains_key(b) && chain[a].hash
                == chain[b].hash ==> a == b,
    ensures
        chain.contains_key(height) ==> by_hash.contains_key(chain[height].hash)
            && by_hash[chain[height].hash] == chain[height],
        by_hash.contains_key(hash) <==> exists|h: Height| #[trigger]
            chain.contains_key(h) && chain[h].hash == hash,
{
    if chain.contains_key(height) {
        let found = by_hash[chain[height].hash];
        assert(chain.contains_key(found.header.height));
    }
    if by_hash.contains_key(hash) {
        assert(chain.contains_key(by_hash[hash].header.height));
    }
}

/// A signature passes only if the transaction passed its own checks, its key belongs to its sender, and
/// the verifying key of that key accepted it. What was known of a key is used, and only what was not is
/// derived or made anew.
pub proof fn passed_signatures_belong_to_the_sender<
    V,
    D: Fn(&Vec<u8>) -> Option<Address>,
    F: Fn(&Vec<u8>) -> V,
    S: Fn(&V) -> bool,
>(
    before: &CoreCache<V>,
    after: &CoreCache<V>,
    transaction: SignedTransaction,
    public_key: Seq<u8>,
    checked: Result<(), TransactionError>,
    derive: D,
    make: F,
    verify: S,
)
    requires
        signature_checked(
            before,
            after,
            transaction,
            public_key,
            checked,
            derive,
            make,
            verify,
            None,
        ),
    ensures
        checked is Ok,
        before.addresses().contains_key(public_key) ==> before.addresses()[public_key]
            == transaction.transaction.from,
        !before.addresses().contains_key(public_key) ==> exists|k: Vec<u8>| #[trigger]
            call_ensures(derive, (&k,), Some(transaction.transaction.from)) && k@ == public_key,
        before.verifying_keys().contains_key(public_key) ==> call_ensures(
            verify,
            (&before.verifying_keys()[public_key],),
            true,
        ),
        !before.verifying_keys().contains_key(public_key) ==> exists|k: Vec<u8>, v: V|
            #![trigger call_ensures(make, (&k,), v), call_ensures(verify, (&v,), true)]
            call_ensures(make, (&k,), v) && k@ == public_key && call_ensures(verify, (&v,), true),
        after.addresses().contains_key(public_key),
        after.addresses()[public_key] == transaction.transaction.from,
{
    let v = after.verifying_keys()[public_key];
    assert(makeable(make, before.verifying_keys(), public_key, v));
    assert(derivable(
        derive,
        before.addresses(),
        public_key,
        Some(after.addresses()[public_key]),
    ));
    assert(call_ensures(verify, (&v,), true));
    if !before.verifying_keys().contains_key(public_key) {
        let k = choose|k: Vec<u8>| #[trigger] call_ensures(make, (&k,), v) && k@ == public_key;
        assert(call_ensures(make, (&k,), v) && call_ensures(verify, (&v,), true));
    }
}

/// A transaction that fails its own checks fails with that error; one whose key is known to belong to
/// another address fails for its sender; and one whose known verifying key can only refuse it fails for
/// its signature. What is known of other keys stays as it is.
pub proof fn failed_signatures_say_why<
    V,
    D: Fn(&Vec<u8>) -> Option<Address>,
    F: Fn(&Vec<u8>) -> V,
    S: Fn(&V) -> bool,
>(
    before: &CoreCache<V>,
    after: &CoreCache<V>,
    transaction: SignedTransaction,
    public_key: Seq<u8>,
    checked: Result<(), TransactionError>,
    derive: D,
    make: F,
    verify: S,
    error: Option<TransactionError>,
)
    requires
        signature_checked(
            before,
            after,
            transaction,
            public_key,
            checked,
            derive,
            make,
            verify,
            error,
        ),
    ensures
        checked is Err ==> error == Some(checked->Err_0),
        checked is Ok && before.addresses().contains_key(public_key)
            && before.addresses()[public_key] != transaction.transaction.from ==> error == Some(
            TransactionError::SenderAddressMismatch,
        ),
        checked is Ok && before.addresses().contains_key(public_key)
            && before.addresses()[public_key] == transaction.transaction.from
            && before.verifying_keys().contains_key(public_key) && !call_ensures(
            verify,
            (&before.verifying_keys()[public_key],),
            true,
        ) ==> error == Some(TransactionError::InvalidSignature),
        forall|key: Seq<u8>| #[trigger]
            before.addresses().contains_key(key) ==> after.addresses().contains_key(key)
                && after.addresses()[key] == before.addresses()[key],
        forall|key: Seq<u8>| #[trigger]
            after.addresses().contains_key(key) && key != public_key
                ==> before.addresses().contains_key(key),
        forall|key: Seq<u8>| #[trigger]
            before.verifying_keys().contains_key(key) ==> after.verifying_keys().contains_key(key)
                && after.verifying_keys()[key] == before.verifying_keys()[key],
        forall|key: Seq<u8>| #[trigger]
            after.verifying_keys().contains_key(key) && key != public_key
                ==> before.verifying_keys().contains_key(key),
{
}

} // verus!
