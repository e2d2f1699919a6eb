//! Blocks, accounts and the chain that the node has validated.
use crate::ids::{Address, Amount, BlockHash, Height, Nonce};
use crate::sorted_map::SortedMap;
use crate::transaction::{
    ProtocolModel, QCashModel, SignedProtocolTransaction, SignedQCashTransaction, SignedTransaction,
};
use vstd::prelude::*;

verus! {

/// Why a state transition is invalid.
#[derive(Clone, Copy, Debug, PartialEq, Eq, Structural)]
pub enum StateError {
    InvalidNonce,
    BalanceOverflow,
    InsufficientBalance,
    /// Another rule of the account state is broken.
    Rejected,
}

/// Why a block is invalid on its own.
#[derive(Clone, Copy, Debug, PartialEq, Eq, Structural)]
pub enum BlockError {
    InvalidStateRoot,
    /// Another rule of the block format is broken.
    Malformed,
}

/// Why a block breaks a consensus rule.
#[derive(Clone, Copy, Debug, PartialEq, Eq, Structural)]
pub enum ConsensusError {
    InvalidBlock(BlockError),
    InvalidHeight,
    InvalidPreviousHash,
    InvalidTimestamp,
    InvalidProofOfWork,
    /// Another consensus rule is broken.
    Rejected,
}

/// Why the chain refuses a block or a transaction.
#[derive(Clone, Copy, Debug, PartialEq, Eq, Structural)]
pub enum LedgerError {
    AccountNotFound,
    InvalidState(StateError),
    InvalidConsensus(ConsensusError),
    InvalidBlock(BlockError),
    InvalidBlockHeight,
    InvalidPreviousHash,
    InvalidParent,
    InvalidTimestamp,
    InvalidStateRoot,
    /// Another rule of the chain is broken.
    Rejected,
}

/// A block header.
#[derive(Clone, Copy, Debug, PartialEq, Eq)]
pub struct BlockHeader {
    pub version: u8,
    pub height: Height,
    pub previous_hash: BlockHash,
    pub merkle_root: [u8; 32],
    pub witness_root: [u8; 32],
    pub state_root: [u8; 32],
    pub miner_address: Address,
    pub difficulty: u32,
    pub timestamp: u64,
    pub nonce: Nonce,
}

/// A header with its hash.
#[derive(Clone, Copy, Debug, PartialEq, Eq)]
pub struct SealedHeader {
    pub header: BlockHeader,
    pub hash: BlockHash,
}

/// The reward that a block pays to its miner.
#[derive(Clone, Copy, Debug, PartialEq, Eq)]
pub struct CoinbaseTransaction {
    pub to: Address,
    pub subsidy: Amount,
    pub fees: Amount,
}

impl CoinbaseTransaction {
    /// Subsidy and fees together, capped at the largest amount.
    pub open spec fn reward(self) -> int {
        if self.subsidy.0 + self.fees.0 <= u64::MAX {
            self.subsidy.0 + self.fees.0
        } else {
            u64::MAX as int
        }
    }

    /// Subsidy and fees together.
    pub fn total(&self) -> (r: Amount)
        ensures
            r.0 == self.reward(),
    {
        Amount(self.subsidy.0.saturating_add(self.fees.0))
    }
}

/// A balance that the genesis block grants.
#[derive(Clone, Copy, Debug, PartialEq, Eq)]
pub struct GenesisAllocation {
    pub to: Address,
    pub amount: Amount,
}

/// Sizes of an encoded block.
#[derive(Clone, Copy, Debug, PartialEq, Eq, Structural)]
pub struct BlockSizes {
    pub serialized: usize,
    pub stripped: usize,
    pub witness: usize,
    pub weight: usize,
}

/// A block with its hash, sizes and checked total of fees. The total is missing where the sum of the
/// fees does not fit.
#[derive(Clone, Debug, PartialEq, Eq)]
pub struct Block {
    pub header: BlockHeader,
    pub hash: BlockHash,
    pub coinbase: Option<CoinbaseTransaction>,
    pub genesis_allocations: Vec<GenesisAllocation>,
    pub transactions: Vec<SignedTransaction>,
    pub qcash_transactions: Vec<SignedQCashTransaction>,
    pub total_fees: Option<Amount>,
    pub sizes: BlockSizes,
}

/// A block as a mathematical value.
#[verifier::ext_equal]
pub struct BlockModel {
    pub header: BlockHeader,
    pub hash: BlockHash,
    pub coinbase: Option<CoinbaseTransaction>,
    pub genesis_allocations: Seq<GenesisAllocation>,
    pub transactions: Seq<SignedTransaction>,
    pub qcash_transactions: Seq<QCashModel>,
    pub total_fees: Option<Amount>,
    pub sizes: BlockSizes,
}

/// The views of a list of bearer-coin transactions.
pub open spec fn qcash_models(list: Seq<SignedQCashTransaction>) -> Seq<QCashModel> {
    Seq::new(list.len(), |i: int| list[i]@)
}

/// The views of a list of transactions.
pub open spec fn protocol_models(list: Seq<SignedProtocolTransaction>) -> Seq<ProtocolModel> {
    Seq::new(list.len(), |i: int| list[i]@)
}

/// The views of a list of blocks.
pub open spec fn block_models(list: Seq<Block>) -> Seq<BlockModel> {
    Seq::new(list.len(), |i: int| list[i]@)
}

impl View for Block {
    type V = BlockModel;

    open spec fn view(&self) -> BlockModel {
        BlockModel {
            header: self.header,
            hash: self.hash,
            coinbase: self.coinbase,
            genesis_allocations: self.genesis_allocations@,
            transactions: self.transactions@,
            qcash_transactions: qcash_models(self.qcash_transactions@),
            total_fees: self.total_fees,
            sizes: self.sizes,
        }
    }
}

/// Copies a list of plain values.
pub fn copy_list<T: Copy>(list: &Vec<T>) -> (r: Vec<T>)
    ensures
        r@ == list@,
{
    let mut copy: Vec<T> = Vec::new();
    let mut i: usize = 0;
    while i < list.len()
        invariant
            i <= list@.len(),
            copy@ =~= list@.take(i as int),
        decreases list@.len() - i,
    {
        copy.push(list[i]);
        i = i + 1;
    }
    assert(copy@ =~= list@);
    copy
}

/// Copies a list of bearer-coin transactions.
pub fn copy_qcash(list: &Vec<SignedQCashTransaction>) -> (r: Vec<SignedQCashTransaction>)
    ensures
        qcash_models(r@) == qcash_models(list@),
{
    let mut copy: Vec<SignedQCashTransaction> = Vec::new();
    let mut i: usize = 0;
    while i < list.len()
        invariant
            i <= list@.len(),
            copy@.len() == i,
            forall|j: int| 0 <= j < i ==> (#[trigger] copy@[j])@ == list@[j]@,
        decreases list@.len() - i,
    {
        copy.push(list[i].duplicate());
        i = i + 1;
    }
    assert(qcash_models(copy@) =~= qcash_models(list@));
    copy
}

impl Block {
    /// An independent copy.
    pub fn duplicate(&self) -> (r: Self)
        ensures
            r@ == self@,
    {
        let r = Block {
            header: self.header,
            hash: self.hash,
            coinbase: self.coinbase,
            genesis_allocations: copy_list(&self.genesis_allocations),
            transactions: copy_list(&self.transactions),
            qcash_transactions: copy_qcash(&self.qcash_transactions),
            total_fees: self.total_fees,
            sizes: self.sizes,
        };
        assert(r@ =~= self@);
        r
    }

    /// The height.
    pub fn height(&self) -> (r: Height)
        ensures
            r == self@.header.height,
    {
        self.header.height
    }

    /// The number of transactions of both families, capped at the largest `usize`.
    pub fn transaction_count(&self) -> (r: usize)
        ensures
            r == self@.transaction_count(),
    {
        self.transactions.len().saturating_add(self.qcash_transactions.len())
    }
}

impl BlockModel {
    /// The number of transactions of both families, capped at the largest `usize`.
    pub open spec fn transaction_count(self) -> int {
        let n = self.transactions.len() + self.qcash_transactions.len();
        if n <= usize::MAX {
            n as int
        } else {
            usize::MAX as int
        }
    }
}

/// An account at the tip of the chain.
#[derive(Clone, Copy, Debug, PartialEq, Eq)]
pub struct Account {
    pub address: Address,
    /// Everything the account owns.
    pub balance: Amount,
    /// What it can spend at the tip.
    pub available: Amount,
    /// What it cannot spend yet.
    pub unspendable: Amount,
    /// The nonce of its next transaction.
    pub nonce: Nonce,
    /// How many separate credits the balance is made of.
    pub credits: usize,
}

impl Account {
    /// A fresh account whose whole balance can be spent.
    pub fn new(address: Address, balance: Amount) -> (r: Self)
        ensures
            r == (Account {
                address,
                balance,
                available: balance,
                unspendable: Amount(0),
                nonce: Nonce(0),
                credits: 0,
            }),
    {
        Account {
            address,
            balance,
            available: balance,
            unspendable: Amount(0),
            nonce: Nonce(0),
            credits: 0,
        }
    }
}

/// The validated chain: its accounts and its blocks by height.
#[derive(Clone, Debug)]
pub struct Ledger {
    accounts: SortedMap<Address, Account>,
    blocks: SortedMap<Height, Block>,
    tip_height: Option<Height>,
    tip_hash: Option<BlockHash>,
    next_subsidy: Amount,
}

impl Ledger {
    /// The maps are sorted, accounts are filed under their addresses and blocks under their heights.
    pub closed spec fn wf(&self) -> bool {
        &&& self.accounts.wf()
        &&& self.blocks.wf()
        &&& forall|a: Address| #[trigger]
            self.accounts@.contains_key(a) ==> self.accounts@[a].address == a
        &&& forall|h: Height| #[trigger]
            self.blocks@.contains_key(h) ==> self.blocks@[h].header.height == h
    }

    /// The accounts by address.
    pub closed spec fn account_map(&self) -> Map<Address, Account> {
        self.accounts@
    }

    /// The blocks by height.
    pub closed spec fn block_map(&self) -> Map<Height, BlockModel> {
        Map::new(|h: Height| self.blocks@.contains_key(h), |h: Height| self.blocks@[h]@)
    }

    /// The tip, if there is a block.
    pub closed spec fn tip(&self) -> (Option<Height>, Option<BlockHash>) {
        (self.tip_height, self.tip_hash)
    }

    /// The subsidy of the block after the tip.
    pub closed spec fn subsidy_due(&self) -> Amount {
        self.next_subsidy
    }

    /// Accounts and blocks are filed under the keys that they carry.
    pub proof fn records_carry_their_keys(&self)
        requires
            self.wf(),
        ensures
            forall|a: Address| #[trigger]
                self.account_map().contains_key(a) ==> self.account_map()[a].address == a,
            forall|h: Height| #[trigger]
                self.block_map().contains_key(h) ==> self.block_map()[h].header.height == h,
    {
    }

    /// A chain without accounts and blocks whose next block earns `next_subsidy`.
    pub fn new(next_subsidy: Amount) -> (r: Self)
        ensures
            r.wf(),
            r.account_map() == Map::<Address, Account>::empty(),
            r.block_map() == Map::<Height, BlockModel>::empty(),
            r.tip() == (None::<Height>, None::<BlockHash>),
            r.subsidy_due() == next_subsidy,
    {
        let r = Ledger {
            accounts: SortedMap::new(),
            blocks: SortedMap::new(),
            tip_height: None,
            tip_hash: None,
            next_subsidy,
        };
        assert(r.block_map() =~= Map::<Height, BlockModel>::empty());
        r
    }

    /// Records the state of an account.
    pub fn put_account(&mut self, account: Account)
        requires
            old(self).wf(),
        ensures
            final(self).wf(),
            final(self).account_map() == old(self).account_map().insert(account.address, account),
            final(self).block_map() == old(self).block_map(),
            final(self).tip() == old(self).tip(),
            final(self).subsidy_due() == old(self).subsidy_due(),
    {
        self.accounts.insert(account.address, account);
        assert(self.block_map() =~= old(self).block_map());
    }

    /// Records a validated block as the new tip.
    pub fn put_block(&mut self, block: Block)
        requires
            old(self).wf(),
        ensures
            final(self).wf(),
            final(self).account_map() == old(self).account_map(),
            final(self).block_map() == old(self).block_map().insert(block@.header.height, block@),
            final(self).tip() == (Some(block@.header.height), Some(block@.hash)),
            final(self).subsidy_due() == old(self).subsidy_due(),
    {
        let height = block.header.height;
        self.tip_height = Some(height);
        self.tip_hash = Some(block.hash);
        let ghost model = block@;
        self.blocks.insert(height, block);
        assert(self.block_map() =~= old(self).block_map().insert(height, model));
    }

    /// Records the subsidy of the block after the tip.
    pub fn set_next_subsidy(&mut self, subsidy: Amount)
        requires
            old(self).wf(),
        ensures
            final(self).wf(),
            final(self).account_map() == old(self).account_map(),
            final(self).block_map() == old(self).block_map(),
            final(self).tip() == old(self).tip(),
            final(self).subsidy_due() == subsidy,
    {
        self.next_subsidy = subsidy;
        assert(self.block_map() =~= old(self).block_map());
    }

    /// The account at an address.
    pub fn account(&self, address: &Address) -> (r: Option<&Account>)
        requires
            self.wf(),
        ensures
            match r {
                Some(account) => self.account_map().contains_key(*address) && *account
                    == self.account_map()[*address],
                None => !self.account_map().contains_key(*address),
            },
    {
        self.accounts.get(address)
    }

    /// The block at a height.
    pub fn block(&self, height: &Height) -> (r: Option<&Block>)
        requires
            self.wf(),
        ensures
            match r {
                Some(block) => self.block_map().contains_key(*height) && block@
                    == self.block_map()[*height],
                None => !self.block_map().contains_key(*height),
            },
    {
        self.blocks.get(height)
    }

    /// The height of the tip.
    pub fn tip_height(&self) -> (r: Option<Height>)
        ensures
            r == self.tip().0,
    {
        self.tip_height
    }

    /// The hash of the tip.
    pub fn tip_hash(&self) -> (r: Option<BlockHash>)
        ensures
            r == self.tip().1,
    {
        self.tip_hash
    }

    /// The subsidy of the block after the tip.
    pub fn mintable_subsidy(&self) -> (r: Amount)
        ensures
            r == self.subsidy_due(),
    {
        self.next_subsidy
    }

    /// The blocks in height order.
    pub fn blocks(&self) -> (r: Vec<Block>)
        requires
            self.wf(),
        ensures
            forall|i: int, j: int|
                0 <= i < j < r@.len() ==> (#[trigger] r@[i])@.header.height.0 < (
                #[trigger] r@[j])@.header.height.0,
            forall|i: int|
                0 <= i < r@.len() ==> {
                    let block = (#[trigger] r@[i])@;
                    self.block_map().contains_key(block.header.height)
                        && self.block_map()[block.header.height] == block
                },
            forall|h: Height| #[trigger]
                self.block_map().contains_key(h) ==> exists|i: int|
                    0 <= i < r@.len() && (#[trigger] r@[i])@ == self.block_map()[h],
    {
        let mut list: Vec<Block> = Vec::new();
        let n: usize = self.blocks.len();
        let mut i: usize = 0;
        let ghost order = self.blocks.order();
        proof {
            self.blocks.lemma_order();
        }
        while i < n
            invariant
                self.wf(),
                order == self.blocks.order(),
                n == order.len(),
                i <= n,
                list@.len() == i,
                forall|j: int| 0 <= j < i ==> (#[trigger] list@[j])@ == self.blocks@[order[j]]@,
                forall|j: int| 0 <= j < n ==> self.blocks@.contains_key(#[trigger] order[j]),
            decreases n - i,
        {
            let block = self.blocks.value_at(i);
            list.push(block.duplicate());
            i = i + 1;
        }
        proof {
            assert forall|i: int| 0 <= i < list@.len() implies {
                let block = (#[trigger] list@[i])@;
                &&& self.block_map().contains_key(block.header.height)
                &&& self.block_map()[block.header.height] == block
                &&& block.header.height == order[i]
            } by {
                assert(self.blocks@.contains_key(order[i]));
                assert(self.blocks@[order[i]]@.header == self.blocks@[order[i]].header);
            }
            assert forall|h: Height| #[trigger] self.block_map().contains_key(h) implies exists|
                i: int,
            | 0 <= i < list@.len() && (#[trigger] list@[i])@ == self.block_map()[h] by {
                assert(order.contains(h));
                let j = order.index_of(h);
                assert(list@[j]@ == self.block_map()[h]);
            }
            assert forall|i: int, j: int| 0 <= i < j < list@.len() implies (
            #[trigger] list@[i])@.header.height.0 < (#[trigger] list@[j])@.header.height.0 by {
                assert(crate::order::Sortable::before(order[i], order[j]));
            }
        }
        list
    }

    /// The accounts in address order.
    pub fn accounts(&self) -> (r: Vec<Account>)
        requires
            self.wf(),
        ensures
            forall|i: int, j: int|
                0 <= i < j < r@.len() ==> crate::order::Sortable::before(
                    (#[trigger] r@[i]).address,
                    (#[trigger] r@[j]).address,
                ),
            forall|account: Account| #[trigger]
                r@.contains(account) <==> self.account_map().contains_key(account.address)
                    && self.account_map()[account.address] == account,
    {
        let mut list: Vec<Account> = Vec::new();
        let n: usize = self.accounts.len();
        let mut i: usize = 0;
        let ghost order = self.accounts.order();
        proof {
            self.accounts.lemma_order();
        }
        while i < n
            invariant
                self.wf(),
                order == self.accounts.order(),
                n == order.len(),
                i <= n,
                list@.len() == i,
                forall|j: int| 0 <= j < i ==> #[trigger] list@[j] == self.accounts@[order[j]],
                forall|j: int| 0 <= j < n ==> self.accounts@.contains_key(#[trigger] order[j]),
            decreases n - i,
        {
            let account = *self.accounts.value_at(i);
            list.push(account);
            i = i + 1;
        }
        proof {
            assert forall|account: Account| #[trigger]
                list@.contains(account) <==> self.account_map().contains_key(account.address)
                    && self.account_map()[account.address] == account by {
                if list@.contains(account) {
                    let j = list@.index_of(account);
                    assert(self.accounts@.contains_key(order[j]));
                }
                if self.account_map().contains_key(account.address)
                    && self.account_map()[account.address] == account {
                    assert(order.contains(account.address));
                    let j = order.index_of(account.address);
                    assert(list@[j] == account);
                }
            }
            assert forall|i: int, j: int| 0 <= i < j < list@.len() implies crate::order::Sortable::before(
                (#[trigger] list@[i]).address,
                (#[trigger] list@[j]).address,
            ) by {
                assert(order[i] == list@[i].address);
                assert(order[j] == list@[j].address);
            }
        }
        list
    }
}

} // verus!
