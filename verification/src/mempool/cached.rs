//! Admission to the mempool with signatures checked through the key cache.
use crate::cache::{error_of, signature_checked, CoreCache};
use crate::chain::Ledger;
use crate::ids::{Address, TransactionHash};
use crate::mempool::error::MempoolError;
use crate::mempool::laws::pruning_is_idempotent;
use crate::mempool::mempool::{offered, Mempool};
use crate::mempool::policy::{
    bytes_unexpired, fit_error, insert_error, insert_validated_error, place_holder, relay_error,
    timestamp_error, underbids, SignatureVerdicts,
};
use crate::mempool::pool::{unexpired, Pool};
use crate::transaction::{SignedTransaction, TransactionError};
use vstd::prelude::*;

verus! {

/// A signature check at a time went through its stages.
pub open spec fn checked_at<
    V,
    C: Fn(&SignedTransaction, u64) -> Result<(), TransactionError>,
    D: Fn(&Vec<u8>) -> Option<Address>,
    F: Fn(&Vec<u8>) -> V,
    S: Fn(&V) -> bool,
>(
    before: &CoreCache<V>,
    after: &CoreCache<V>,
    transaction: SignedTransaction,
    public_key: Seq<u8>,
    now: u64,
    check: C,
    derive: D,
    make: F,
    verify: S,
    error: Option<TransactionError>,
) -> bool {
    exists|checked: Result<(), TransactionError>| #[trigger]
        call_ensures(check, (&transaction, now), checked) && signature_checked(
            before,
            after,
            transaction,
            public_key,
            checked,
            derive,
            make,
            verify,
            error,
        )
}

/// The keys that two caches hold are the same.
pub open spec fn same_keys<V>(a: &CoreCache<V>, b: &CoreCache<V>) -> bool {
    a.addresses() == b.addresses() && a.verifying_keys() == b.verifying_keys()
}

impl Mempool {
    /// Adds a transaction without looking at the chain. The cache checks the signature unless the
    /// timestamp already stands against the transaction.
    pub fn insert_at_with_cache<
        V,
        C: Fn(&SignedTransaction, u64) -> Result<(), TransactionError>,
        D: Fn(&Vec<u8>) -> Option<Address>,
        F: Fn(&Vec<u8>) -> V,
        S: Fn(&V) -> bool,
    >(
        &mut self,
        transaction: SignedTransaction,
        public_key: &Vec<u8>,
        now: u64,
        cache: &mut CoreCache<V>,
        check: C,
        derive: D,
        make: F,
        verify: S,
    ) -> (r: Result<TransactionHash, MempoolError>)
        requires
            old(self).wf(),
            old(cache).wf(),
            call_requires(check, (&transaction, now)),
            forall|k: Vec<u8>| #[trigger] call_requires(derive, (&k,)),
            forall|k: Vec<u8>| #[trigger] call_requires(make, (&k,)),
            forall|v: V| #[trigger] call_requires(verify, (&v,)),
        ensures
            final(self).wf(),
            final(cache).wf(),
            final(cache).same_chain(old(cache)),
            final(self).settings() == old(self).settings(),
            exists|signed: Result<(), TransactionError>|
                {
                    &&& if timestamp_error(transaction, now) is Some {
                        same_keys(old(cache), final(cache))
                    } else {
                        checked_at(
                            old(cache),
                            final(cache),
                            transaction,
                            public_key@,
                            now,
                            check,
                            derive,
                            make,
                            verify,
                            #[trigger] error_of(signed),
                        )
                    }
                    &&& offered(
                        final(self),
                        r,
                        unexpired(old(self).pool(), now),
                        bytes_unexpired(old(self).pool(), old(self).bytes(), now),
                        transaction,
                        now,
                        None,
                        insert_error(
                            unexpired(old(self).pool(), now),
                            bytes_unexpired(old(self).pool(), old(self).bytes(), now),
                            old(self).settings(),
                            transaction,
                            now,
                            signed,
                        ),
                    )
                },
    {
        let ghost pool = unexpired(self.pool(), now);
        let ghost bytes = bytes_unexpired(self.pool(), self.bytes(), now);
        proof {
            self.pool_keeps_its_promises();
            pruning_is_idempotent(self.pool(), now, now);
        }
        let _ = self.prune_expired(now);
        match self.validate_timestamp_policy(&transaction, now) {
            Err(error) => {
                proof {
                    let signed: Result<(), TransactionError> = Err(TransactionError::Expired);
                    assert(error_of(signed) is Some);
                }
                return Err(error);
            },
            Ok(_) => {},
        }
        let signed = cache.validate_signed_transaction_at(
            &transaction,
            public_key,
            now,
            check,
            derive,
            make,
            verify,
        );
        let r = self.insert_at(transaction, now, signed);
        assert(error_of(signed) == error_of(signed));
        r
    }

    /// Adds a transaction that fits the chain, replacing a cheaper one in its place. The cache checks
    /// the signature at the time once the timestamp is in order, and again without regard to time
    /// once fee and bid are in order.
    pub fn insert_validated_at_with_cache<
        V,
        C: Fn(&SignedTransaction, u64) -> Result<(), TransactionError>,
        D: Fn(&Vec<u8>) -> Option<Address>,
        F: Fn(&Vec<u8>) -> V,
        S: Fn(&V) -> bool,
    >(
        &mut self,
        ledger: &Ledger,
        transaction: SignedTransaction,
        public_key: &Vec<u8>,
        now: u64,
        cache: &mut CoreCache<V>,
        timeless: Result<(), TransactionError>,
        check: &C,
        derive: &D,
        make: &F,
        verify: &S,
    ) -> (r: Result<TransactionHash, MempoolError>)
        requires
            old(self).wf(),
            old(cache).wf(),
            ledger.wf(),
            call_requires(check, (&transaction, now)),
            forall|k: Vec<u8>| #[trigger] call_requires(derive, (&k,)),
            forall|k: Vec<u8>| #[trigger] call_requires(make, (&k,)),
            forall|v: V| #[trigger] call_requires(verify, (&v,)),
        ensures
            final(self).wf(),
            final(cache).wf(),
            final(cache).same_chain(old(cache)),
            final(self).settings() == old(self).settings(),
            exists|signed: SignatureVerdicts, middle: CoreCache<V>|
                #![trigger error_of(signed.at_now), same_keys(&middle, &middle)]
                {
                    let pool = unexpired(old(self).pool(), now);
                    let bytes = bytes_unexpired(old(self).pool(), old(self).bytes(), now);
                    &&& if timestamp_error(transaction, now) is Some {
                        same_keys(old(cache), &middle)
                    } else {
                        checked_at(
                            old(cache),
                            &middle,
                            transaction,
                            public_key@,
                            now,
                            check,
                            derive,
                            make,
                            verify,
                            error_of(signed.at_now),
                        )
                    }
                    &&& if relay_error(
                        old(self).settings(),
                        transaction,
                        now,
                        signed.at_now,
                    ) is Some || underbids(pool, transaction) {
                        same_keys(&middle, final(cache))
                    } else {
                        signature_checked(
                            &middle,
                            final(cache),
                            transaction,
                            public_key@,
                            timeless,
                            derive,
                            make,
                            verify,
                            error_of(signed.timeless),
                        )
                    }
                    &&& offered(
                        final(self),
                        r,
                        pool,
                        bytes,
                        transaction,
                        now,
                        place_holder(pool, transaction),
                        insert_validated_error(
                            pool,
                            bytes,
                            old(self).settings(),
                            ledger.account_map(),
                            transaction,
                            now,
                            signed,
                        ),
                    )
                },
    {
        let ghost pool = unexpired(self.pool(), now);
        let ghost bytes = bytes_unexpired(self.pool(), self.bytes(), now);
        let ghost failed: Result<(), TransactionError> = Err(TransactionError::Expired);
        let _ = self.prune_expired(now);
        match self.validate_timestamp_policy(&transaction, now) {
            Err(error) => {
                proof {
                    let signed = SignatureVerdicts { at_now: failed, timeless: failed };
                    let middle = *cache;
                    assert(error_of(signed.at_now) is Some);
                    assert(same_keys(&middle, &middle));
                }
                return Err(error);
            },
            Ok(_) => {},
        }
        let at_now = cache.validate_signed_transaction_at(
            &transaction,
            public_key,
            now,
            check,
            derive,
            make,
            verify,
        );
        let ghost middle = *cache;
        proof {
            assert(checked_at(
                old(cache),
                &middle,
                transaction,
                public_key@,
                now,
                check,
                derive,
                make,
                verify,
                error_of(at_now),
            ));
            assert(same_keys(&middle, &middle));
            assert(SignatureVerdicts { at_now, timeless: failed }.at_now == at_now);
            assert(error_of(SignatureVerdicts { at_now, timeless: failed }.at_now) == error_of(
                at_now,
            ));
        }
        match self.validate_relay(&transaction, now, at_now) {
            Err(error) => {
                return Err(error);
            },
            Ok(_) => {},
        }
        match self.replacement_candidate(&transaction) {
            Err(error) => {
                return Err(error);
            },
            Ok(_) => {},
        }
        let again = cache.validate_signed_transaction(
            &transaction,
            public_key,
            timeless,
            derive,
            make,
            verify,
        );
        proof {
            let signed = SignatureVerdicts { at_now, timeless: again };
            assert(error_of(signed.at_now) == error_of(at_now));
        }
        self.insert_replacing(ledger, transaction, now, again)
    }

    /// Whether a transaction pays enough and fits the chain behind its sender's pending ones, with
    /// its signature checked by the cache.
    pub fn validate_against_ledger_with_cache<
        V,
        D: Fn(&Vec<u8>) -> Option<Address>,
        F: Fn(&Vec<u8>) -> V,
        S: Fn(&V) -> bool,
    >(
        &self,
        ledger: &Ledger,
        transaction: &SignedTransaction,
        public_key: &Vec<u8>,
        cache: &mut CoreCache<V>,
        checked: Result<(), TransactionError>,
        derive: D,
        make: F,
        verify: S,
    ) -> (r: Result<(), MempoolError>)
        requires
            self.wf(),
            old(cache).wf(),
            ledger.wf(),
            forall|k: Vec<u8>| #[trigger] call_requires(derive, (&k,)),
            forall|k: Vec<u8>| #[trigger] call_requires(make, (&k,)),
            forall|v: V| #[trigger] call_requires(verify, (&v,)),
        ensures
            final(cache).wf(),
            final(cache).same_chain(old(cache)),
            exists|signed: Result<(), TransactionError>|
                {
                    &&& signature_checked(
                        old(cache),
                        final(cache),
                        *transaction,
                        public_key@,
                        checked,
                        derive,
                        make,
                        verify,
                        #[trigger] error_of(signed),
                    )
                    &&& r == (match fit_error(
                        self.pool(),
                        self.settings(),
                        ledger.account_map(),
                        *transaction,
                        None,
                        signed,
                    ) {
                        Some(error) => Err::<(), MempoolError>(error),
                        None => Ok::<(), MempoolError>(()),
                    })
                },
    {
        let signed = cache.validate_signed_transaction(
            transaction,
            public_key,
            checked,
            derive,
            make,
            verify,
        );
        let r = self.validate_against_ledger(ledger, transaction, signed);
        assert(error_of(signed) == error_of(signed));
        r
    }
}

} // verus!
