//! What the node keeps at hand of the chain and of the keys that it has met.
use crate::chain::{block_models, copy_list, Account, Block, BlockModel, Ledger};
use crate::ids::{Address, BlockHash, Height};
use crate::key_map::KeyMap;
use crate::sorted_map::SortedMap;
use crate::transaction::{SignedTransaction, TransactionError};
use vstd::prelude::*;

verus! {

/// Accounts, blocks, and the addresses and verifying keys of public keys. `V` is the type of the
/// verifying keys.
#[derive(Clone, Debug)]
pub struct CoreCache<V> {
    accounts: SortedMap<Address, Account>,
    blocks_by_height: SortedMap<Height, Block>,
    blocks_by_hash: SortedMap<BlockHash, Block>,
    addresses_by_public_key: KeyMap<Address>,
    verifying_keys_by_public_key: KeyMap<V>,
    tip_height: Option<Height>,
    tip_hash: Option<BlockHash>,
}

/// Heights ascend along a list of blocks.
spec fn ordered_by_height(list: Seq<BlockModel>) -> bool {
    forall|i: int, j: int|
        0 <= i < j < list.len() ==> (#[trigger] list[i]).header.height.0 < (
        #[trigger] list[j]).header.height.0
}

/// A block of the list is filed under its height.
spec fn filed_by_height(list: Seq<BlockModel>, height: Height, block: BlockModel) -> bool {
    exists|j: int|
        0 <= j < list.len() && #[trigger] list[j] == block && list[j].header.height == height
}

/// A block is the last of a list with its hash.
spec fn last_with_hash(list: Seq<BlockModel>, hash: BlockHash, block: BlockModel) -> bool {
    exists|j: int|
        0 <= j < list.len() && #[trigger] list[j] == block && list[j].hash == hash && forall|m: int|
            j < m < list.len() ==> (#[trigger] list[m]).hash != hash
}

/// Every block of a chain is found by its hash; of several with one hash, the highest.
pub open spec fn resolves(
    by_hash: Map<BlockHash, BlockModel>,
    chain: Map<Height, BlockModel>,
) -> bool {
    &&& forall|hash: BlockHash| #[trigger]
        by_hash.contains_key(hash) ==> {
            &&& by_hash[hash].hash == hash
            &&& chain.contains_key(by_hash[hash].header.height)
            &&& chain[by_hash[hash].header.height] == by_hash[hash]
            &&& forall|h: Height| #[trigger]
                chain.contains_key(h) && chain[h].hash == hash ==> h.0
                    <= by_hash[hash].header.height.0
        }
    &&& forall|h: Height| #[trigger]
        chain.contains_key(h) ==> by_hash.contains_key(chain[h].hash)
}

/// The cached address of a key, or what `derive` may yield for it.
pub open spec fn derivable<D: Fn(&Vec<u8>) -> Option<Address>>(
    derive: D,
    known: Map<Seq<u8>, Address>,
    key: Seq<u8>,
    address: Option<Address>,
) -> bool {
    if known.contains_key(key) {
        address == Some(known[key])
    } else {
        exists|k: Vec<u8>| #[trigger] call_ensures(derive, (&k,), address) && k@ == key
    }
}

/// The cached verifying key of a key, or what `make` may yield for it.
pub open spec fn makeable<V, F: Fn(&Vec<u8>) -> V>(
    make: F,
    known: Map<Seq<u8>, V>,
    key: Seq<u8>,
    verifying_key: V,
) -> bool {
    if known.contains_key(key) {
        verifying_key == known[key]
    } else {
        exists|k: Vec<u8>| #[trigger] call_ensures(make, (&k,), verifying_key) && k@ == key
    }
}

impl<V> CoreCache<V> {
    /// The maps are well formed, and blocks and accounts are filed under the keys that they carry.
    pub closed spec fn wf(&self) -> bool {
        &&& self.accounts.wf()
        &&& self.blocks_by_height.wf()
        &&& self.blocks_by_hash.wf()
        &&& self.addresses_by_public_key.wf()
        &&& self.verifying_keys_by_public_key.wf()
        &&& forall|a: Address| #[trigger]
            self.accounts@.contains_key(a) ==> self.accounts@[a].address == a
        &&& forall|h: Height| #[trigger]
            self.blocks_by_height@.contains_key(h) ==> self.blocks_by_height@[h].header.height == h
        &&& forall|h: BlockHash| #[trigger]
            self.blocks_by_hash@.contains_key(h) ==> self.blocks_by_hash@[h].hash == h
    }

    /// The cached accounts.
    pub closed spec fn account_map(&self) -> Map<Address, Account> {
        self.accounts@
    }

    /// The cached blocks by height.
    pub closed spec fn height_map(&self) -> Map<Height, BlockModel> {
        Map::new(
            |h: Height| self.blocks_by_height@.contains_key(h),
            |h: Height| self.blocks_by_height@[h]@,
        )
    }

    /// The cached blocks by hash.
    pub closed spec fn hash_map(&self) -> Map<BlockHash, BlockModel> {
        Map::new(
            |h: BlockHash| self.blocks_by_hash@.contains_key(h),
            |h: BlockHash| self.blocks_by_hash@[h]@,
        )
    }

    /// The cached addresses of public keys.
    pub closed spec fn addresses(&self) -> Map<Seq<u8>, Address> {
        self.addresses_by_public_key@
    }

    /// The cached verifying keys of public keys.
    pub closed spec fn verifying_keys(&self) -> Map<Seq<u8>, V> {
        self.verifying_keys_by_public_key@
    }

    /// The tip.
    pub closed spec fn tip(&self) -> (Option<Height>, Option<BlockHash>) {
        (self.tip_height, self.tip_hash)
    }

    /// Everything but the addresses and verifying keys is the same.
    pub open spec fn same_chain(&self, other: &Self) -> bool {
        &&& self.account_map() == other.account_map()
        &&& self.height_map() == other.height_map()
        &&& self.hash_map() == other.hash_map()
        &&& self.tip() == other.tip()
    }

    /// A cached block is filed under the height and the hash that it carries.
    pub proof fn blocks_carry_their_keys(&self)
        requires
            self.wf(),
        ensures
            forall|h: Height| #[trigger]
                self.height_map().contains_key(h) ==> self.height_map()[h].header.height == h,
            forall|h: BlockHash| #[trigger]
                self.hash_map().contains_key(h) ==> self.hash_map()[h].hash == h,
            forall|a: Address| #[trigger]
                self.account_map().contains_key(a) ==> self.account_map()[a].address == a,
    {
    }

    /// An empty cache.
    pub fn new() -> (r: Self)
        ensures
            r.wf(),
            r.account_map() == Map::<Address, Account>::empty(),
            r.height_map() == Map::<Height, BlockModel>::empty(),
            r.hash_map() == Map::<BlockHash, BlockModel>::empty(),
            r.addresses() == Map::<Seq<u8>, Address>::empty(),
            r.verifying_keys() == Map::<Seq<u8>, V>::empty(),
            r.tip() == (None::<Height>, None::<BlockHash>),
    {
        let r = CoreCache {
            accounts: SortedMap::new(),
            blocks_by_height: SortedMap::new(),
            blocks_by_hash: SortedMap::new(),
            addresses_by_public_key: KeyMap::new(),
            verifying_keys_by_public_key: KeyMap::new(),
            tip_height: None,
            tip_hash: None,
        };
        assert(r.height_map() =~= Map::<Height, BlockModel>::empty());
        assert(r.hash_map() =~= Map::<BlockHash, BlockModel>::empty());
        r
    }

    /// A cache of a whole chain. Of two blocks with one hash, the higher is found by the hash.
    pub fn from_ledger(ledger: &Ledger) -> (r: Self)
        requires
            ledger.wf(),
        ensures
            r.wf(),
            r.account_map() == ledger.account_map(),
            r.height_map() == ledger.block_map(),
            resolves(r.hash_map(), ledger.block_map()),
            r.addresses() == Map::<Seq<u8>, Address>::empty(),
            r.verifying_keys() == Map::<Seq<u8>, V>::empty(),
            r.tip() == ledger.tip(),
    {
        let mut cache = Self::new();
        cache.absorb_accounts(ledger);
        cache.absorb_blocks(ledger);
        let ghost filled = cache;
        cache.tip_height = ledger.tip_height();
        cache.tip_hash = ledger.tip_hash();
        assert(cache.height_map() =~= filled.height_map());
        assert(cache.hash_map() =~= filled.hash_map());
        cache
    }

    fn absorb_accounts(&mut self, ledger: &Ledger)
        requires
            old(self).wf(),
            ledger.wf(),
            old(self).account_map() == Map::<Address, Account>::empty(),
        ensures
            final(self).wf(),
            final(self).account_map() == ledger.account_map(),
            final(self).height_map() == old(self).height_map(),
            final(self).hash_map() == old(self).hash_map(),
            final(self).addresses() == old(self).addresses(),
            final(self).verifying_keys() == old(self).verifying_keys(),
    {
        let accounts = ledger.accounts();
        let mut i: usize = 0;
        while i < accounts.len()
            invariant
                self.wf(),
                i <= accounts@.len(),
                forall|a: Address| #[trigger]
                    self.account_map().contains_key(a) ==> ledger.account_map().contains_key(a)
                        && self.account_map()[a] == ledger.account_map()[a],
                forall|j: int|
                    0 <= j < i ==> self.account_map().contains_key(
                        (#[trigger] accounts@[j]).address,
                    ),
                forall|account: Account| #[trigger]
                    accounts@.contains(account) <==> ledger.account_map().contains_key(
                        account.address,
                    ) && ledger.account_map()[account.address] == account,
                self.height_map() == old(self).height_map(),
                self.hash_map() == old(self).hash_map(),
                self.addresses() == old(self).addresses(),
                self.verifying_keys() == old(self).verifying_keys(),
            decreases accounts@.len() - i,
        {
            assert(accounts@.contains(accounts@[i as int]));
            self.insert_account(accounts[i]);
            i = i + 1;
        }
        proof {
            ledger.records_carry_their_keys();
            assert forall|a: Address| #[trigger]
                ledger.account_map().contains_key(a) implies self.account_map().contains_key(a) by {
                let account = ledger.account_map()[a];
                assert(accounts@.contains(account));
                let j = accounts@.index_of(account);
                assert(accounts@[j].address == a);
            }
            assert(self.account_map() =~= ledger.account_map());
        }
    }

    fn absorb_blocks(&mut self, ledger: &Ledger)
        requires
            old(self).wf(),
            ledger.wf(),
            old(self).height_map() == Map::<Height, BlockModel>::empty(),
            old(self).hash_map() == Map::<BlockHash, BlockModel>::empty(),
        ensures
            final(self).wf(),
            final(self).account_map() == old(self).account_map(),
            final(self).height_map() == ledger.block_map(),
            resolves(final(self).hash_map(), ledger.block_map()),
            final(self).addresses() == old(self).addresses(),
            final(self).verifying_keys() == old(self).verifying_keys(),
    {
        let blocks = ledger.blocks();
        let ghost models = block_models(blocks@);
        let ghost chain = ledger.block_map();
        proof {
            assert(ordered_by_height(models));
            assert forall|i: int| 0 <= i < models.len() implies chain.contains_key(
                (#[trigger] models[i]).header.height,
            ) && chain[models[i].header.height] == models[i] by {
                assert(models[i] == blocks@[i]@);
            }
            assert forall|h: Height| #[trigger] chain.contains_key(h) implies models.contains(
                chain[h],
            ) by {
                let i = choose|i: int| 0 <= i < blocks@.len() && (#[trigger] blocks@[i])@ == chain[h];
                assert(models[i] == chain[h]);
            }
        }
        let mut k: usize = 0;
        while k < blocks.len()
            invariant
                self.wf(),
                k <= blocks@.len(),
                models == block_models(blocks@),
                self.account_map() == old(self).account_map(),
                self.addresses() == old(self).addresses(),
                self.verifying_keys() == old(self).verifying_keys(),
                forall|h: Height| #[trigger]
                    self.height_map().contains_key(h) ==> filed_by_height(
                        models.take(k as int),
                        h,
                        self.height_map()[h],
                    ),
                forall|j: int|
                    0 <= j < k ==> self.height_map().contains_key(
                        (#[trigger] models[j]).header.height,
                    ) && self.hash_map().contains_key(models[j].hash),
                forall|hash: BlockHash| #[trigger]
                    self.hash_map().contains_key(hash) ==> last_with_hash(
                        models.take(k as int),
                        hash,
                        self.hash_map()[hash],
                    ),
            decreases blocks@.len() - k,
        {
            let ghost by_hash = self.hash_map();
            let ghost by_height = self.height_map();
            let ghost block = blocks@[k as int]@;
            self.insert_block(blocks[k].duplicate());
            proof {
                let fewer = models.take(k as int);
                let more = models.take(k + 1);
                assert(more =~= fewer.push(block));
                assert forall|hash: BlockHash| #[trigger]
                    self.hash_map().contains_key(hash) implies last_with_hash(
                    more,
                    hash,
                    self.hash_map()[hash],
                ) by {
                    if hash == block.hash {
                        assert(more[k as int] == block);
                    } else {
                        assert(by_hash.contains_key(hash));
                        let j = choose|j: int|
                            0 <= j < fewer.len() && #[trigger] fewer[j] == by_hash[hash]
                                && fewer[j].hash == hash && forall|m: int|
                                j < m < fewer.len() ==> (#[trigger] fewer[m]).hash != hash;
                        assert(more[j] == fewer[j]);
                        assert forall|m: int| j < m < more.len() implies (
                        #[trigger] more[m]).hash != hash by {
                            if m < k {
                                assert(more[m] == fewer[m]);
                            }
                        }
                    }
                }
                assert forall|h: Height| #[trigger]
                    self.height_map().contains_key(h) implies filed_by_height(
                    more,
                    h,
                    self.height_map()[h],
                ) by {
                    if h == block.header.height {
                        assert(more[k as int] == block);
                    } else {
                        assert(by_height.contains_key(h));
                        let j = choose|j: int|
                            0 <= j < fewer.len() && #[trigger] fewer[j] == by_height[h]
                                && fewer[j].header.height == h;
                        assert(more[j] == fewer[j]);
                    }
                }
            }
            k = k + 1;
        }
        proof {
            assert(models.take(k as int) =~= models);
            assert forall|h: Height| #[trigger] chain.contains_key(h) implies self.height_map().contains_key(h)
                && self.hash_map().contains_key(chain[h].hash) by {
                ledger.records_carry_their_keys();
                let j = models.index_of(chain[h]);
                assert(models[j] == chain[h]);
            }
            assert(self.height_map() =~= chain);
            assert(resolves(self.hash_map(), chain)) by {
                assert forall|hash: BlockHash| #[trigger] self.hash_map().contains_key(hash) implies {
                    &&& self.hash_map()[hash].hash == hash
                    &&& chain.contains_key(self.hash_map()[hash].header.height)
                    &&& chain[self.hash_map()[hash].header.height] == self.hash_map()[hash]
                    &&& forall|h: Height| #[trigger]
                        chain.contains_key(h) && chain[h].hash == hash ==> h.0
                            <= self.hash_map()[hash].header.height.0
                } by {
                    let block = self.hash_map()[hash];
                    let j = choose|j: int|
                        0 <= j < models.len() && #[trigger] models[j] == block && models[j].hash
                            == hash && forall|m: int|
                            j < m < models.len() ==> (#[trigger] models[m]).hash != hash;
                    assert forall|h: Height| #[trigger]
                        chain.contains_key(h) && chain[h].hash == hash implies h.0
                        <= block.header.height.0 by {
                        ledger.records_carry_their_keys();
                        let m = models.index_of(chain[h]);
                        assert(models[m] == chain[h]);
                        assert(m <= j);
                    }
                }
            }
        }
    }

    /// Keeps an account.
    pub fn insert_account(&mut self, account: Account)
        requires
            old(self).wf(),
        ensures
            final(self).wf(),
            final(self).account_map() == old(self).account_map().insert(account.address, account),
            final(self).height_map() == old(self).height_map(),
            final(self).hash_map() == old(self).hash_map(),
            final(self).addresses() == old(self).addresses(),
            final(self).verifying_keys() == old(self).verifying_keys(),
            final(self).tip() == old(self).tip(),
    {
        self.accounts.insert(account.address, account);
        assert(self.height_map() =~= old(self).height_map());
        assert(self.hash_map() =~= old(self).hash_map());
    }

    /// A cached account.
    pub fn account(&self, address: &Address) -> (r: Option<&Account>)
        requires
            self.wf(),
        ensures
            match r {
                Some(account) => self.account_map().contains_key(*address) && *account
                    == self.account_map()[*address],
                None => !self.account_map().contains_key(*address),
            },
    {
        self.accounts.get(address)
    }

    /// Keeps a block under its height and its hash, as the new tip.
    pub fn insert_block(&mut self, block: Block)
        requires
            old(self).wf(),
        ensures
            final(self).wf(),
            final(self).account_map() == old(self).account_map(),
            final(self).height_map() == old(self).height_map().insert(block@.header.height, block@),
            final(self).hash_map() == old(self).hash_map().insert(block@.hash, block@),
            final(self).addresses() == old(self).addresses(),
            final(self).verifying_keys() == old(self).verifying_keys(),
            final(self).tip() == (Some(block@.header.height), Some(block@.hash)),
    {
        let height = block.height();
        let hash = block.hash;
        let ghost model = block@;
        let copy = block.duplicate();
        self.blocks_by_height.insert(height, copy);
        self.blocks_by_hash.insert(hash, block);
        self.tip_height = Some(height);
        self.tip_hash = Some(hash);
        assert(self.height_map() =~= old(self).height_map().insert(height, model));
        assert(self.hash_map() =~= old(self).hash_map().insert(hash, model));
    }

    /// A cached block by its height.
    pub fn block_by_height(&self, height: &Height) -> (r: Option<&Block>)
        requires
            self.wf(),
        ensures
            match r {
                Some(block) => self.height_map().contains_key(*height) && block@
                    == self.height_map()[*height],
                None => !self.height_map().contains_key(*height),
            },
    {
        self.blocks_by_height.get(height)
    }

    /// A cached block by its hash.
    pub fn block_by_hash(&self, hash: &BlockHash) -> (r: Option<&Block>)
        requires
            self.wf(),
        ensures
            match r {
                Some(block) => self.hash_map().contains_key(*hash) && block@
                    == self.hash_map()[*hash],
                None => !self.hash_map().contains_key(*hash),
            },
    {
        self.blocks_by_hash.get(hash)
    }

    /// The height of the tip.
    pub fn tip_height(&self) -> (r: Option<Height>)
        ensures
            r == self.tip().0,
    {
        self.tip_height
    }

    /// The hash of the tip.
    pub fn tip_hash(&self) -> (r: Option<BlockHash>)
        ensures
            r == self.tip().1,
    {
        self.tip_hash
    }

    /// The cached address of a public key.
    pub fn cached_address(&self, public_key: &Vec<u8>) -> (r: Option<Address>)
        requires
            self.wf(),
        ensures
            r == (if self.addresses().contains_key(public_key@) {
                Some(self.addresses()[public_key@])
            } else {
                None
            }),
    {
        match self.addresses_by_public_key.get(public_key.as_slice()) {
            Some(address) => Some(*address),
            None => None,
        }
    }

    /// The number of cached verifying keys.
    pub fn verifying_key_count(&self) -> (r: usize)
        requires
            self.wf(),
        ensures
            r == self.verifying_keys().len(),
    {
        self.verifying_keys_by_public_key.len()
    }

    /// The address of a public key. `derive` is asked only for a key that is not cached, and its
    /// answer is kept.
    pub fn address_for_public_key<D: Fn(&Vec<u8>) -> Option<Address>>(
        &mut self,
        public_key: &Vec<u8>,
        derive: D,
    ) -> (r: Result<Address, TransactionError>)
        requires
            old(self).wf(),
            forall|k: Vec<u8>| #[trigger] call_requires(derive, (&k,)),
        ensures
            final(self).wf(),
            final(self).same_chain(old(self)),
            final(self).verifying_keys() == old(self).verifying_keys(),
            match r {
                Ok(address) => {
                    &&& derivable(derive, old(self).addresses(), public_key@, Some(address))
                    &&& final(self).addresses() == old(self).addresses().insert(
                        public_key@,
                        address,
                    )
                },
                Err(error) => {
                    &&& error == TransactionError::EmptyPublicKey
                    &&& derivable(derive, old(self).addresses(), public_key@, None)
                    &&& final(self).addresses() == old(self).addresses()
                },
            },
    {
        match self.addresses_by_public_key.get(public_key.as_slice()) {
            Some(address) => {
                let address = *address;
                assert(self.addresses() =~= self.addresses().insert(public_key@, address));
                return Ok(address);
            },
            None => {},
        }
        let derived = derive(public_key);
        assert(derivable(derive, old(self).addresses(), public_key@, derived)) by {
            assert(call_ensures(derive, (&*public_key,), derived));
        }
        match derived {
            Some(address) => {
                let copy = copy_list(public_key);
                self.addresses_by_public_key.insert_new(copy, address);
                assert(self.height_map() =~= old(self).height_map());
                assert(self.hash_map() =~= old(self).hash_map());
                Ok(address)
            },
            None => Err(TransactionError::EmptyPublicKey),
        }
    }

    /// The verifying key of a public key. `make` is asked only for a key that is not cached, and its
    /// answer is kept.
    pub fn verifying_key_for_public_key<F: Fn(&Vec<u8>) -> V>(
        &mut self,
        public_key: &Vec<u8>,
        make: F,
    ) -> (r: &V)
        requires
            old(self).wf(),
            forall|k: Vec<u8>| #[trigger] call_requires(make, (&k,)),
        ensures
            final(self).wf(),
            final(self).same_chain(old(self)),
            final(self).addresses() == old(self).addresses(),
            makeable(make, old(self).verifying_keys(), public_key@, *r),
            final(self).verifying_keys() == old(self).verifying_keys().insert(public_key@, *r),
    {
        let known = self.verifying_keys_by_public_key.get(public_key.as_slice()).is_some();
        if !known {
            let made = make(public_key);
            assert(makeable(make, old(self).verifying_keys(), public_key@, made)) by {
                assert(call_ensures(make, (&*public_key,), made));
            }
            let copy = copy_list(public_key);
            self.verifying_keys_by_public_key.insert_new(copy, made);
        }
        proof {
            assert(self.height_map() =~= old(self).height_map());
            assert(self.hash_map() =~= old(self).hash_map());
            let keys = self.verifying_keys_by_public_key@;
            assert(keys =~= old(self).verifying_keys().insert(public_key@, keys[public_key@]));
        }
        self.verifying_keys_by_public_key.value(public_key.as_slice())
    }

    /// Checks a signed transaction: `checked` is the outcome of the checks on the transaction itself,
    /// `verify` says whether a verifying key accepts the signature.
    pub fn validate_signed_transaction<
        D: Fn(&Vec<u8>) -> Option<Address>,
        F: Fn(&Vec<u8>) -> V,
        S: Fn(&V) -> bool,
    >(
        &mut self,
        transaction: &SignedTransaction,
        public_key: &Vec<u8>,
        checked: Result<(), TransactionError>,
        derive: D,
        make: F,
        verify: S,
    ) -> (r: Result<(), TransactionError>)
        requires
            old(self).wf(),
            forall|k: Vec<u8>| #[trigger] call_requires(derive, (&k,)),
            forall|k: Vec<u8>| #[trigger] call_requires(make, (&k,)),
            forall|v: V| #[trigger] call_requires(verify, (&v,)),
        ensures
            final(self).wf(),
            final(self).same_chain(old(self)),
            signature_checked(
                old(self),
                final(self),
                *transaction,
                public_key@,
                checked,
                derive,
                make,
                verify,
                error_of(r),
            ),
    {
        match checked {
            Err(error) => {
                return Err(error);
            },
            Ok(_) => {},
        }
        let address = match self.address_for_public_key(public_key, derive) {
            Err(error) => {
                return Err(error);
            },
            Ok(address) => address,
        };
        if !address.same(&transaction.transaction.from) {
            return Err(TransactionError::SenderAddressMismatch);
        }
        let verifying_key = self.verifying_key_for_public_key(public_key, make);
        let accepted = verify(verifying_key);
        let ghost key = *verifying_key;
        assert(call_ensures(verify, (&key,), accepted));
        if accepted {
            Ok(())
        } else {
            Err(TransactionError::InvalidSignature)
        }
    }

    /// Checks a signed transaction at a time: `checked` is the outcome of the checks on the
    /// transaction itself at that time.
    pub fn validate_signed_transaction_at<
        D: Fn(&Vec<u8>) -> Option<Address>,
        F: Fn(&Vec<u8>) -> V,
        S: Fn(&V) -> bool,
        C: Fn(&SignedTransaction, u64) -> Result<(), TransactionError>,
    >(
        &mut self,
        transaction: &SignedTransaction,
        public_key: &Vec<u8>,
        now: u64,
        check: C,
        derive: D,
        make: F,
        verify: S,
    ) -> (r: Result<(), TransactionError>)
        requires
            old(self).wf(),
            call_requires(check, (transaction, now)),
            forall|k: Vec<u8>| #[trigger] call_requires(derive, (&k,)),
            forall|k: Vec<u8>| #[trigger] call_requires(make, (&k,)),
            forall|v: V| #[trigger] call_requires(verify, (&v,)),
        ensures
            final(self).wf(),
            final(self).same_chain(old(self)),
            exists|checked: Result<(), TransactionError>| #[trigger]
                call_ensures(check, (transaction, now), checked) && signature_checked(
                    old(self),
                    final(self),
                    *transaction,
                    public_key@,
                    checked,
                    derive,
                    make,
                    verify,
                    error_of(r),
                ),
    {
        let checked = check(transaction, now);
        assert(call_ensures(check, (transaction, now), checked));
        self.validate_signed_transaction(transaction, public_key, checked, derive, make, verify)
    }
}

/// The error of an outcome, if it is one.
pub open spec fn error_of(outcome: Result<(), TransactionError>) -> Option<TransactionError> {
    match outcome {
        Ok(_) => None,
        Err(error) => Some(error),
    }
}

/// A signature check went through its stages in order: the transaction itself, the address of the
/// key, the sender, the signature. Each stage is reached only if the earlier ones passed.
pub open spec fn signature_checked<
    V,
    D: Fn(&Vec<u8>) -> Option<Address>,
    F: Fn(&Vec<u8>) -> V,
    S: Fn(&V) -> bool,
>(
    before: &CoreCache<V>,
    after: &CoreCache<V>,
    transaction: SignedTransaction,
    public_key: Seq<u8>,
    checked: Result<(), TransactionError>,
    derive: D,
    make: F,
    verify: S,
    error: Option<TransactionError>,
) -> bool {
    match checked {
        Err(failed) => {
            &&& error == Some(failed)
            &&& after.addresses() == before.addresses()
            &&& after.verifying_keys() == before.verifying_keys()
        },
        Ok(_) => {
            ||| {
                &&& derivable(derive, before.addresses(), public_key, None)
                &&& error == Some(TransactionError::EmptyPublicKey)
                &&& after.addresses() == before.addresses()
                &&& after.verifying_keys() == before.verifying_keys()
            }
            ||| {
                &&& after.addresses().contains_key(public_key)
                &&& derivable(
                    derive,
                    before.addresses(),
                    public_key,
                    Some(after.addresses()[public_key]),
                )
                &&& after.addresses() == before.addresses().insert(
                    public_key,
                    after.addresses()[public_key],
                )
                &&& if after.addresses()[public_key] != transaction.transaction.from {
                    &&& error == Some(TransactionError::SenderAddressMismatch)
                    &&& after.verifying_keys() == before.verifying_keys()
                } else {
                    &&& after.verifying_keys().contains_key(public_key)
                    &&& makeable(
                        make,
                        before.verifying_keys(),
                        public_key,
                        after.verifying_keys()[public_key],
                    )
                    &&& after.verifying_keys() == before.verifying_keys().insert(
                        public_key,
                        after.verifying_keys()[public_key],
                    )
                    &&& error == None::<TransactionError> ==> call_ensures(
                        verify,
                        (&after.verifying_keys()[public_key],),
                        true,
                    )
                    &&& error != None::<TransactionError> ==> error == Some(
                        TransactionError::InvalidSignature,
                    ) && call_ensures(verify, (&after.verifying_keys()[public_key],), false)
                }
            }
        },
    }
}

} // verus!
