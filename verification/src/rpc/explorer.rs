//! Transactions and blocks as an explorer shows them.
use crate::chain::{protocol_models, Block, BlockModel};
use crate::ids::{Address, BlockHash, Height, TransactionHash};
use crate::mempool::extension::{lists_extension, ExtensionPool};
use crate::mempool::pool::{lists_all, Pool};
use crate::node::Node;
use crate::sorted_map::ascending_order_is_unique;
use crate::text::{hex_encode, hex_text};
use crate::transaction::{
    ProtocolModel, QCashModel, QCashTransactionKind, SignedProtocolTransaction, SignedTransaction,
    TransactionFamily,
};
use vstd::prelude::*;
use vstd::string::*;

verus! {

/// The name of a family of transactions.
pub open spec fn family_text(family: TransactionFamily) -> Seq<char> {
    match family {
        TransactionFamily::Transfer => "transfer"@,
        TransactionFamily::QCash => "qcash"@,
    }
}

/// The name of a family of transactions.
pub fn transaction_family_name(family: TransactionFamily) -> (r: &'static str)
    ensures
        r@ == family_text(family),
{
    match family {
        TransactionFamily::Transfer => "transfer",
        TransactionFamily::QCash => "qcash",
    }
}

/// What a transaction does, whom it credits, what it moves and when it was made.
pub struct TransactionSummary {
    pub operation: &'static str,
    pub recipient: Option<Address>,
    pub amount: Option<u64>,
    pub timestamp: Option<u64>,
}

/// The number behind what a transaction moves.
pub open spec fn moved_units(tx: ProtocolModel) -> Option<u64> {
    match tx.moved() {
        Some(amount) => Some(amount.0),
        None => None,
    }
}

/// Sums a transaction up.
pub fn protocol_transaction_summary(transaction: &SignedProtocolTransaction) -> (r:
    TransactionSummary)
    ensures
        r.operation@ == transaction@.operation(),
        r.recipient == transaction@.recipient(),
        r.amount == moved_units(transaction@),
        r.timestamp == Some(transaction@.timestamp()),
{
    match transaction {
        SignedProtocolTransaction::Transfer(tx) => TransactionSummary {
            operation: "transfer",
            recipient: Some(tx.transaction.to),
            amount: match tx.total_amount {
                Some(amount) => Some(amount.0),
                None => None,
            },
            timestamp: Some(tx.transaction.timestamp),
        },
        SignedProtocolTransaction::QCash(tx) => match tx.record.kind {
            QCashTransactionKind::WithdrawCash { amount } => TransactionSummary {
                operation: "withdraw_cash",
                recipient: None,
                amount: Some(amount.0),
                timestamp: Some(tx.record.timestamp),
            },
            QCashTransactionKind::DepositCash { recipient, amount } => TransactionSummary {
                operation: "deposit_cash",
                recipient: Some(recipient),
                amount: match amount {
                    Some(amount) => Some(amount.0),
                    None => None,
                },
                timestamp: Some(tx.record.timestamp),
            },
        },
    }
}

/// The addresses that a transaction touches: its signer, and its recipient if that is another.
pub open spec fn touched_addresses(tx: ProtocolModel) -> Seq<Address> {
    match tx.recipient() {
        Some(recipient) => if recipient == tx.signer() {
            seq![tx.signer()]
        } else {
            seq![tx.signer(), recipient]
        },
        None => seq![tx.signer()],
    }
}

/// The addresses that a transaction touches.
pub fn protocol_transaction_addresses(transaction: &SignedProtocolTransaction) -> (r: Vec<Address>)
    ensures
        r@ == touched_addresses(transaction@),
{
    let signer = transaction.signer();
    let mut addresses: Vec<Address> = Vec::new();
    addresses.push(signer);
    match protocol_transaction_summary(transaction).recipient {
        Some(recipient) => {
            if !recipient.same(&signer) {
                addresses.push(recipient);
            }
        },
        None => {},
    }
    assert(addresses@ =~= touched_addresses(transaction@));
    addresses
}

/// No transaction touches an address twice, and every one touches its signer.
pub proof fn touched_addresses_are_distinct(tx: ProtocolModel)
    ensures
        touched_addresses(tx).no_duplicates(),
        touched_addresses(tx).contains(tx.signer()),
{
    assert(touched_addresses(tx)[0] == tx.signer());
}

/// A transaction as an explorer shows it.
#[derive(Clone, Debug, PartialEq, Eq)]
pub struct ProtocolTxResponse {
    pub family: &'static str,
    pub operation: &'static str,
    pub txid: String,
    pub wtxid: String,
    pub signer: Address,
    pub witness_addresses: Vec<Address>,
    pub recipient: Option<Address>,
    pub amount: Option<u64>,
    pub fee: u64,
    pub nonce: u64,
    pub valid_from: u64,
    pub valid_until: u64,
    pub timestamp: Option<u64>,
    pub age_secs: Option<u64>,
    pub stripped_size: usize,
    pub witness_size: usize,
    pub virtual_size: usize,
    pub block_height: Option<u64>,
    pub block_hash: Option<String>,
    pub status: &'static str,
}

/// Seconds since a moment, zero for a moment to come. Without a clock no time has passed.
pub open spec fn age(now: Option<u64>, moment: u64) -> u64 {
    match now {
        Some(now) => if now >= moment {
            (now - moment) as u64
        } else {
            0
        },
        None => 0,
    }
}

/// Seconds since a moment.
fn age_of(now: Option<u64>, moment: u64) -> (r: u64)
    ensures
        r == age(now, moment),
{
    match now {
        Some(now) => now.saturating_sub(moment),
        None => 0,
    }
}

/// The block that holds a transaction.
#[derive(Clone, Copy, Debug, PartialEq, Eq)]
pub struct BlockLocation {
    pub block_height: Height,
    pub block_hash: BlockHash,
}

impl ProtocolTxResponse {
    /// Everything but the block and the status shows a transaction as of `now`.
    pub open spec fn shows(&self, tx: ProtocolModel, now: Option<u64>) -> bool {
        &&& self.family@ == family_text(tx.family())
        &&& self.operation@ == tx.operation()
        &&& self.txid@ == hex_text(tx.hash().0@)
        &&& self.wtxid@ == hex_text(tx.wtxid().0@)
        &&& self.signer == tx.signer()
        &&& self.witness_addresses@ == seq![tx.witness()]
        &&& self.recipient == tx.recipient()
        &&& self.amount == moved_units(tx)
        &&& self.fee == tx.fee().0
        &&& self.nonce == tx.nonce().0
        &&& self.valid_from == tx.validity().valid_from.0
        &&& self.valid_until == tx.validity().valid_until.0
        &&& self.timestamp == Some(tx.timestamp())
        &&& self.age_secs == Some(age(now, tx.timestamp()))
        &&& self.stripped_size == tx.stripped_size()
        &&& self.witness_size == tx.witness_size()
        &&& self.virtual_size == tx.virtual_size()
    }

    /// Block and status are those of a transaction in a block.
    pub open spec fn placed(
        &self,
        height: Option<Height>,
        hash: Option<BlockHash>,
        status: Seq<char>,
    ) -> bool {
        &&& match height {
            Some(height) => self.block_height == Some(height.0),
            None => self.block_height is None,
        }
        &&& match hash {
            Some(hash) => self.block_hash matches Some(text) && text@ == hex_text(hash.0@),
            None => self.block_hash is None,
        }
        &&& self.status@ == status
    }

    /// Shows a transaction in a block, or a pending one.
    pub open spec fn reports(&self, entry: Entry, now: Option<u64>) -> bool {
        &&& self.shows(entry.tx, now)
        &&& match entry.block {
            Some(block) => self.placed(
                Some(block.block_height),
                Some(block.block_hash),
                "confirmed"@,
            ),
            None => self.placed(None, None, "pending"@),
        }
    }
}

/// A transaction and the block that holds it; a pending one is in no block.
pub ghost struct Entry {
    pub tx: ProtocolModel,
    pub block: Option<BlockLocation>,
}

/// Shows a transaction as of `now`.
pub fn protocol_tx_response(
    transaction: &SignedProtocolTransaction,
    block_height: Option<Height>,
    block_hash: Option<BlockHash>,
    status: &'static str,
    now: Option<u64>,
) -> (r: ProtocolTxResponse)
    ensures
        r.shows(transaction@, now),
        r.placed(block_height, block_hash, status@),
{
    let summary = protocol_transaction_summary(transaction);
    let validity = transaction.validity();
    let mut witness_addresses: Vec<Address> = Vec::new();
    witness_addresses.push(transaction.witness());
    assert(witness_addresses@ =~= seq![transaction@.witness()]);
    ProtocolTxResponse {
        family: transaction_family_name(transaction.family()),
        operation: summary.operation,
        txid: hex_encode(transaction.hash().0.as_slice()),
        wtxid: hex_encode(transaction.wtxid().0.as_slice()),
        signer: transaction.signer(),
        witness_addresses,
        recipient: summary.recipient,
        amount: summary.amount,
        fee: transaction.fee().0,
        nonce: transaction.nonce().0,
        valid_from: validity.valid_from.0,
        valid_until: validity.valid_until.0,
        timestamp: summary.timestamp,
        age_secs: match summary.timestamp {
            Some(timestamp) => Some(age_of(now, timestamp)),
            None => None,
        },
        stripped_size: transaction.stripped_size(),
        witness_size: transaction.witness_size(),
        virtual_size: transaction.virtual_size(),
        block_height: match block_height {
            Some(height) => Some(height.0),
            None => None,
        },
        block_hash: match block_hash {
            Some(hash) => Some(hex_encode(hash.0.as_slice())),
            None => None,
        },
        status,
    }
}

/// Shows a pending transaction.
fn pending_response(transaction: &SignedProtocolTransaction, now: Option<u64>) -> (r:
    ProtocolTxResponse)
    ensures
        r.reports((Entry { tx: transaction@, block: None }), now),
{
    protocol_tx_response(transaction, None, None, "pending", now)
}

/// Shows a transaction in a block.
fn confirmed_response(
    transaction: &SignedProtocolTransaction,
    location: BlockLocation,
    now: Option<u64>,
) -> (r: ProtocolTxResponse)
    ensures
        r.reports((Entry { tx: transaction@, block: Some(location) }), now),
{
    protocol_tx_response(
        transaction,
        Some(location.block_height),
        Some(location.block_hash),
        "confirmed",
        now,
    )
}

/// Transfers among all transactions.
pub open spec fn as_transfers(list: Seq<SignedTransaction>) -> Seq<ProtocolModel> {
    Seq::new(list.len(), |i: int| ProtocolModel::Transfer(list[i]))
}

/// Bearer-coin transactions among all transactions.
pub open spec fn as_qcash(list: Seq<QCashModel>) -> Seq<ProtocolModel> {
    Seq::new(list.len(), |i: int| ProtocolModel::QCash(list[i]))
}

impl BlockModel {
    /// All transactions of a block: the transfers, and after them the bearer-coin transactions.
    pub open spec fn all_transactions(self) -> Seq<ProtocolModel> {
        as_transfers(self.transactions) + as_qcash(self.qcash_transactions)
    }
}

/// All transactions of a block.
pub fn block_protocol_transactions(block: &Block) -> (r: Vec<SignedProtocolTransaction>)
    ensures
        protocol_models(r@) == block@.all_transactions(),
{
    let mut list: Vec<SignedProtocolTransaction> = Vec::new();
    let ghost wanted = block@.all_transactions();
    let mut i: usize = 0;
    while i < block.transactions.len()
        invariant
            wanted == block@.all_transactions(),
            i <= block.transactions@.len(),
            list@.len() == i,
            forall|j: int| 0 <= j < i ==> (#[trigger] list@[j])@ == wanted[j],
        decreases block.transactions@.len() - i,
    {
        list.push(SignedProtocolTransaction::Transfer(block.transactions[i]));
        i = i + 1;
    }
    let ghost transfers = i as int;
    let mut k: usize = 0;
    while k < block.qcash_transactions.len()
        invariant
            wanted == block@.all_transactions(),
            transfers == block.transactions@.len(),
            k <= block.qcash_transactions@.len(),
            list@.len() == transfers + k,
            forall|j: int| 0 <= j < transfers + k ==> (#[trigger] list@[j])@ == wanted[j],
        decreases block.qcash_transactions@.len() - k,
    {
        list.push(SignedProtocolTransaction::QCash(block.qcash_transactions[k].duplicate()));
        assert(block@.qcash_transactions[k as int] == block.qcash_transactions@[k as int]@);
        k = k + 1;
    }
    assert(protocol_models(list@) =~= wanted);
    list
}

/// The pending transactions of both mempools: the transfers, and after them all others, each part
/// in hash order.
pub open spec fn lists_pending(
    list: Seq<ProtocolModel>,
    transfers: Seq<SignedTransaction>,
    others: Seq<ProtocolModel>,
    pool: Pool,
    extension: ExtensionPool,
) -> bool {
    &&& lists_all(transfers, pool)
    &&& lists_extension(others, extension, |tx: ProtocolModel| true)
    &&& list == as_transfers(transfers) + others
}

/// There is one way to list the pending transactions.
pub proof fn pending_order_is_unique(
    list: Seq<ProtocolModel>,
    transfers: Seq<SignedTransaction>,
    others: Seq<ProtocolModel>,
    list2: Seq<ProtocolModel>,
    transfers2: Seq<SignedTransaction>,
    others2: Seq<ProtocolModel>,
    pool: Pool,
    extension: ExtensionPool,
)
    requires
        lists_pending(list, transfers, others, pool, extension),
        lists_pending(list2, transfers2, others2, pool, extension),
    ensures
        list == list2,
{
    let a = Seq::new(transfers.len(), |i: int| transfers[i].hash);
    let b = Seq::new(transfers2.len(), |i: int| transfers2[i].hash);
    assert forall|h: TransactionHash| a.contains(h) <==> b.contains(h) by {
        if a.contains(h) {
            let i = a.index_of(h);
            assert(pool.contains_key(transfers[i].hash));
            let j = transfers2.index_of(pool[h].transaction);
            assert(b[j] == h);
        }
        if b.contains(h) {
            let i = b.index_of(h);
            assert(pool.contains_key(transfers2[i].hash));
            let j = transfers.index_of(pool[h].transaction);
            assert(a[j] == h);
        }
    }
    ascending_order_is_unique(a, b);
    assert(transfers =~= transfers2) by {
        assert forall|i: int| 0 <= i < transfers.len() implies transfers[i] == transfers2[i] by {
            assert(a[i] == b[i]);
        }
    }
    let c = Seq::new(others.len(), |i: int| others[i].hash());
    let d = Seq::new(others2.len(), |i: int| others2[i].hash());
    assert forall|h: TransactionHash| c.contains(h) <==> d.contains(h) by {
        if c.contains(h) {
            let i = c.index_of(h);
            assert(extension.contains_key(others[i].hash()));
            let j = others2.index_of(extension[h]);
            assert(d[j] == h);
        }
        if d.contains(h) {
            let i = d.index_of(h);
            assert(extension.contains_key(others2[i].hash()));
            let j = others.index_of(extension[h]);
            assert(c[j] == h);
        }
    }
    ascending_order_is_unique(c, d);
    assert(others =~= others2) by {
        assert forall|i: int| 0 <= i < others.len() implies others[i] == others2[i] by {
            assert(c[i] == d[i]);
        }
    }
}

/// The pending transactions of both mempools.
pub fn pending_transactions<V>(node: &Node<V>) -> (r: Vec<SignedProtocolTransaction>)
    requires
        node.wf(),
    ensures
        exists|transfers: Seq<SignedTransaction>, others: Seq<ProtocolModel>|
            #[trigger] lists_pending(
                protocol_models(r@),
                transfers,
                others,
                node.mempool.pool(),
                node.extension_mempool.pool(),
            ),
{
    let transfers = node.mempool.transactions();
    let others = node.extension_mempool.transactions();
    let r = joined(&transfers, &others);
    assert(lists_pending(
        protocol_models(r@),
        transfers@,
        protocol_models(others@),
        node.mempool.pool(),
        node.extension_mempool.pool(),
    ));
    r
}

/// Transfers and other transactions in one list.
fn joined(transfers: &Vec<SignedTransaction>, others: &Vec<SignedProtocolTransaction>) -> (r: Vec<
    SignedProtocolTransaction,
>)
    ensures
        protocol_models(r@) == as_transfers(transfers@) + protocol_models(others@),
{
    let mut list: Vec<SignedProtocolTransaction> = Vec::new();
    let ghost wanted = as_transfers(transfers@) + protocol_models(others@);
    let mut i: usize = 0;
    while i < transfers.len()
        invariant
            wanted == as_transfers(transfers@) + protocol_models(others@),
            i <= transfers@.len(),
            list@.len() == i,
            forall|j: int| 0 <= j < i ==> (#[trigger] list@[j])@ == wanted[j],
        decreases transfers@.len() - i,
    {
        list.push(SignedProtocolTransaction::Transfer(transfers[i]));
        i = i + 1;
    }
    let mut k: usize = 0;
    while k < others.len()
        invariant
            wanted == as_transfers(transfers@) + protocol_models(others@),
            k <= others@.len(),
            list@.len() == transfers@.len() + k,
            forall|j: int| 0 <= j < transfers@.len() + k ==> (#[trigger] list@[j])@ == wanted[j],
        decreases others@.len() - k,
    {
        list.push(others[k].duplicate());
        k = k + 1;
    }
    assert(protocol_models(list@) =~= wanted);
    list
}

/// The pending transactions of a node as an explorer shows them.
#[derive(Clone, Debug, PartialEq, Eq)]
pub struct MempoolResponse {
    pub size: usize,
    pub transactions: Vec<ProtocolTxResponse>,
}

/// Shows every transaction of a list, in its order.
pub open spec fn report_all(
    responses: Seq<ProtocolTxResponse>,
    entries: Seq<Entry>,
    now: Option<u64>,
) -> bool {
    &&& responses.len() == entries.len()
    &&& forall|i: int|
        0 <= i < entries.len() ==> (#[trigger] responses[i]).reports(entries[i], now)
}

/// Transactions in no block.
pub open spec fn as_pending(list: Seq<ProtocolModel>) -> Seq<Entry> {
    Seq::new(list.len(), |i: int| Entry { tx: list[i], block: None })
}

/// Shows the pending transactions of both mempools.
pub fn mempool_response<V>(node: &Node<V>, now: Option<u64>) -> (r: MempoolResponse)
    requires
        node.wf(),
    ensures
        r.size == r.transactions@.len(),
        exists|
            list: Seq<ProtocolModel>,
            transfers: Seq<SignedTransaction>,
            others: Seq<ProtocolModel>,
        | #[trigger]
            lists_pending(
                list,
                transfers,
                others,
                node.mempool.pool(),
                node.extension_mempool.pool(),
            ) && report_all(r.transactions@, as_pending(list), now),
{
    let list = pending_transactions(node);
    let ghost models = protocol_models(list@);
    let mut transactions: Vec<ProtocolTxResponse> = Vec::new();
    let mut i: usize = 0;
    while i < list.len()
        invariant
            models == protocol_models(list@),
            i <= list@.len(),
            report_all(transactions@, as_pending(models.take(i as int)), now),
        decreases list@.len() - i,
    {
        let response = pending_response(&list[i], now);
        transactions.push(response);
        i = i + 1;
    }
    assert(models.take(i as int) =~= models);
    MempoolResponse { size: transactions.len(), transactions }
}

/// A hash names a transaction, by its content or by content and witness.
pub open spec fn named_by(tx: ProtocolModel, hash: [u8; 32]) -> bool {
    tx.hash().0 == hash || tx.wtxid().0 == hash
}

/// The first transaction of a list that a hash names.
pub open spec fn first_named(list: Seq<ProtocolModel>, hash: [u8; 32]) -> Option<ProtocolModel>
    decreases list.len(),
{
    if list.len() == 0 {
        None
    } else {
        match first_named(list.drop_last(), hash) {
            Some(tx) => Some(tx),
            None => if named_by(list.last(), hash) {
                Some(list.last())
            } else {
                None
            },
        }
    }
}

/// A stored transaction and the block that holds it.
#[derive(Clone, Debug, PartialEq, Eq)]
pub struct IndexedTransaction {
    pub location: BlockLocation,
    pub transaction: SignedProtocolTransaction,
}

/// What a search of the index comes to.
pub open spec fn indexed(
    found: Result<Option<IndexedTransaction>, String>,
) -> Result<Option<Entry>, Seq<char>> {
    match found {
        Ok(Some(hit)) => Ok(Some(Entry { tx: hit.transaction@, block: Some(hit.location) })),
        Ok(None) => Ok(None),
        Err(error) => Err(error@),
    }
}

/// What a search for a transaction comes to: pending ones come first, after them what the index
/// finds by content hash, and last what it finds by witness hash.
pub open spec fn search(
    pending: Option<ProtocolModel>,
    by_txid: Result<Option<Entry>, Seq<char>>,
    by_wtxid: Result<Option<Entry>, Seq<char>>,
) -> Result<Option<Entry>, Seq<char>> {
    match pending {
        Some(tx) => Ok(Some(Entry { tx, block: None })),
        None => match by_txid {
            Err(error) => Err("failed to load indexed transaction: "@ + error),
            Ok(Some(entry)) => Ok(Some(entry)),
            Ok(None) => match by_wtxid {
                Err(error) => Err("failed to load indexed witness transaction: "@ + error),
                Ok(found) => Ok(found),
            },
        },
    }
}

/// A response reports the outcome of a search.
pub open spec fn answers(
    r: Result<Option<ProtocolTxResponse>, String>,
    outcome: Result<Option<Entry>, Seq<char>>,
    now: Option<u64>,
) -> bool {
    match (r, outcome) {
        (Ok(Some(response)), Ok(Some(entry))) => response.reports(entry, now),
        (Ok(None), Ok(None)) => true,
        (Err(text), Err(error)) => text@ == error,
        _ => false,
    }
}

/// Looks a hash up among the pending transactions of both mempools.
pub fn find_pending<V>(node: &Node<V>, hash: &[u8; 32]) -> (r: Option<SignedProtocolTransaction>)
    requires
        node.wf(),
    ensures
        exists|
            list: Seq<ProtocolModel>,
            transfers: Seq<SignedTransaction>,
            others: Seq<ProtocolModel>,
        | #[trigger]
            lists_pending(
                list,
                transfers,
                others,
                node.mempool.pool(),
                node.extension_mempool.pool(),
            ) && first_named(list, *hash) == (match r {
                Some(tx) => Some(tx@),
                None => None,
            }),
{
    let list = pending_transactions(node);
    let ghost models = protocol_models(list@);
    let wanted = TransactionHash(*hash);
    let mut found: Option<SignedProtocolTransaction> = None;
    let mut i: usize = 0;
    assert(models.take(0) =~= Seq::empty());
    while i < list.len() && found.is_none()
        invariant
            wanted.0 == *hash,
            models == protocol_models(list@),
            i <= list@.len(),
            first_named(models.take(i as int), *hash) == (match found {
                Some(tx) => Some(tx@),
                None => None,
            }),
        decreases list@.len() - i,
    {
        proof {
            assert(models.take(i + 1).drop_last() =~= models.take(i as int));
            assert(models.take(i + 1).last() == list@[i as int]@);
        }
        if list[i].hash().same(&wanted) || list[i].wtxid().same(&wanted) {
            found = Some(list[i].duplicate());
        }
        i = i + 1;
    }
    proof {
        lemma_first_named(models, i as int, *hash);
    }
    found
}

proof fn lemma_first_named(list: Seq<ProtocolModel>, n: int, hash: [u8; 32])
    requires
        0 <= n <= list.len(),
        first_named(list.take(n), hash) is Some || n == list.len(),
    ensures
        first_named(list, hash) == first_named(list.take(n), hash),
    decreases list.len() - n,
{
    if n == list.len() {
        assert(list.take(n) =~= list);
    } else {
        assert(list.take(n + 1).drop_last() =~= list.take(n));
        lemma_first_named(list, n + 1, hash);
    }
}

/// Looks a transaction up by either of its hashes. `by_txid` and `by_wtxid` are what the index finds
/// under the hash.
pub fn find_transaction<V>(
    node: &Node<V>,
    hash: &[u8; 32],
    by_txid: Result<Option<IndexedTransaction>, String>,
    by_wtxid: Result<Option<IndexedTransaction>, String>,
    now: Option<u64>,
) -> (r: Result<Option<ProtocolTxResponse>, String>)
    requires
        node.wf(),
    ensures
        exists|
            list: Seq<ProtocolModel>,
            transfers: Seq<SignedTransaction>,
            others: Seq<ProtocolModel>,
        | #[trigger]
            lists_pending(
                list,
                transfers,
                others,
                node.mempool.pool(),
                node.extension_mempool.pool(),
            ) && answers(
                r,
                search(first_named(list, *hash), indexed(by_txid), indexed(by_wtxid)),
                now,
            ),
{
    match find_pending(node, hash) {
        Some(transaction) => {
            return Ok(Some(pending_response(&transaction, now)));
        },
        None => {},
    }
    match by_txid {
        Err(error) => {
            let mut text = String::from_str("failed to load indexed transaction: ");
            text.append(error.as_str());
            return Err(text);
        },
        Ok(Some(hit)) => {
            return Ok(Some(confirmed_response(&hit.transaction, hit.location, now)));
        },
        Ok(None) => {},
    }
    match by_wtxid {
        Err(error) => {
            let mut text = String::from_str("failed to load indexed witness transaction: ");
            text.append(error.as_str());
            Err(text)
        },
        Ok(Some(hit)) => Ok(Some(confirmed_response(&hit.transaction, hit.location, now))),
        Ok(None) => Ok(None),
    }
}

} // verus!
