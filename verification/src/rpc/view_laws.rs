//! What an explorer shows, field by field and entry by entry.
use crate::chain::Block;
use crate::ids::{Address, TransactionHash};
use crate::mempool::extension::ExtensionPool;
use crate::mempool::pool::Pool;
use crate::network::answer_laws::{are_the_places, lemma_one_more_place};
use crate::rpc::activity::{
    block_error, confirmations_at, history, hit_error, is_mined, lists_pending_for, mined_by,
    reading_error, shown_backwards, stored, IndexedBlock, IndexedHit, Mined, MinedBlockResponse,
};
use crate::rpc::block::{elapsed, lateness, total_moved, BlockResponse};
use crate::rpc::events::{
    involves, kind_text, page, wanted_events, EventQuery, ProtocolEvent, ProtocolEventKind,
};
use crate::rpc::explorer::{
    as_pending, as_transfers, first_named, lists_pending, search, touched_addresses, Entry,
    ProtocolTxResponse,
};
use crate::transaction::{
    ProtocolModel, QCashTransactionKind, SignedProtocolTransaction, SignedTransaction,
};
use vstd::prelude::*;

verus! {

/// A shown transfer has the hashes, ends, amount, fee, nonce, window, sizes and time of the transfer.
pub proof fn shown_transfers_are_the_transfers(
    shown: ProtocolTxResponse,
    tx: SignedTransaction,
    now: Option<u64>,
)
    requires
        shown.shows(SignedProtocolTransaction::Transfer(tx)@, now),
    ensures
        shown.signer == tx.transaction.from,
        shown.recipient == Some(tx.transaction.to),
        shown.amount is Some <==> tx.total_amount is Some,
        shown.amount is Some ==> shown.amount->Some_0 == tx.total_amount->Some_0.0,
        shown.fee == tx.transaction.fee.0,
        shown.nonce == tx.transaction.nonce.0,
        shown.valid_from == tx.transaction.validity.valid_from.0,
        shown.valid_until == tx.transaction.validity.valid_until.0,
        shown.timestamp == Some(tx.transaction.timestamp),
        shown.virtual_size == tx.virtual_size,
        shown.stripped_size == tx.stripped_size,
        shown.witness_size == tx.witness_size,
        shown.witness_addresses@ == seq![tx.witness],
        shown.operation@ == "transfer"@,
        shown.family@ == "transfer"@,
        shown.txid@ == crate::text::hex_text(tx.hash.0@),
        shown.wtxid@ == crate::text::hex_text(tx.wtxid.0@),
        shown.age_secs is Some,
        now is Some && now->Some_0 >= tx.transaction.timestamp ==> tx.transaction.timestamp
            + shown.age_secs->Some_0 == now->Some_0,
{
}

/// A shown bearer-coin transaction has the hashes, signer, fee, nonce, window, sizes and time of its
/// record; a deposit also its recipient and its amount, a withdrawal its amount and no recipient.
pub proof fn shown_qcash_transactions_are_the_records(
    shown: ProtocolTxResponse,
    tx: SignedProtocolTransaction,
    now: Option<u64>,
)
    requires
        tx is QCash,
        shown.shows(tx@, now),
    ensures
        ({
            let record = tx->QCash_0.record;
            &&& shown.signer == record.signer
            &&& shown.fee == record.fee.0
            &&& shown.nonce == record.nonce.0
            &&& shown.valid_from == record.validity.valid_from.0
            &&& shown.valid_until == record.validity.valid_until.0
            &&& shown.timestamp == Some(record.timestamp)
            &&& shown.virtual_size == record.virtual_size
            &&& shown.stripped_size == record.stripped_size
            &&& shown.witness_size == record.witness_size
            &&& shown.witness_addresses@ == seq![record.witness]
            &&& shown.family@ == "qcash"@
            &&& shown.txid@ == crate::text::hex_text(record.hash.0@)
            &&& shown.wtxid@ == crate::text::hex_text(record.wtxid.0@)
            &&& record.kind is WithdrawCash ==> shown.recipient is None && shown.amount == Some(
                record.kind->WithdrawCash_amount.0,
            ) && shown.operation@ == "withdraw_cash"@
            &&& record.kind is DepositCash ==> shown.recipient == Some(record.kind->recipient)
                && shown.operation@ == "deposit_cash"@ && (shown.amount is Some
                <==> record.kind->DepositCash_amount is Some) && (shown.amount is Some
                ==> shown.amount->Some_0 == record.kind->DepositCash_amount->Some_0.0)
            &&& now is Some && now->Some_0 >= record.timestamp ==> shown.age_secs is Some
                && record.timestamp + shown.age_secs->Some_0 == now->Some_0
        }),
{
}

/// A transfer touches its two ends, a withdrawal its signer, and a deposit its signer and its
/// recipient; nothing touches anybody else.
pub proof fn transactions_touch_their_parties(tx: SignedProtocolTransaction, address: Address)
    ensures
        tx is Transfer ==> (touched_addresses(tx@).contains(address) <==> address
            == tx->Transfer_0.transaction.from || address == tx->Transfer_0.transaction.to),
        tx is QCash && tx->QCash_0.record.kind is WithdrawCash ==> (touched_addresses(tx@).contains(
            address,
        ) <==> address == tx->QCash_0.record.signer),
        tx is QCash && tx->QCash_0.record.kind is DepositCash ==> (touched_addresses(tx@).contains(
            address,
        ) <==> address == tx->QCash_0.record.signer || address
            == tx->QCash_0.record.kind->recipient),
{
    let list = touched_addresses(tx@);
    assert(list[0] == tx@.signer());
    if list.len() == 2 {
        assert(list[1] == tx@.recipient()->Some_0);
    }
    if list.contains(address) {
        let i = list.index_of(address);
        assert(list[i] == address);
    }
}

/// The transactions of a block are all its transfers in order, and behind them all its bearer-coin
/// transactions in order.
pub proof fn blocks_list_both_families(block: Block)
    ensures
        ({
            let all = block@.all_transactions();
            let n = block.transactions@.len();
            &&& all.len() == n + block.qcash_transactions@.len()
            &&& forall|i: int|
                0 <= i < n ==> #[trigger] all[i] == ProtocolModel::Transfer(block.transactions@[i])
            &&& forall|j: int|
                0 <= j < block.qcash_transactions@.len() ==> #[trigger] all[n + j]
                    == ProtocolModel::QCash(block.qcash_transactions@[j]@)
            &&& all.len() <= usize::MAX ==> block@.transaction_count() == all.len()
        }),
{
}

/// What one transaction moves, in plain numbers.
pub open spec fn amount_of(tx: ProtocolModel) -> int {
    match tx {
        ProtocolModel::Transfer(transfer) => if transfer.total_amount is Some {
            transfer.total_amount->Some_0.0 as int
        } else {
            0
        },
        ProtocolModel::QCash(qcash) => match qcash.record.kind {
            QCashTransactionKind::WithdrawCash { amount } => amount.0 as int,
            QCashTransactionKind::DepositCash { amount, .. } => if amount is Some {
                amount->Some_0.0 as int
            } else {
                0
            },
        },
    }
}

/// Each transaction adds what it moves to what a list moves.
pub proof fn each_transaction_moves_its_amount(list: Seq<ProtocolModel>, tx: ProtocolModel)
    ensures
        total_moved(Seq::empty()) == 0,
        total_moved(list.push(tx)) == total_moved(list) + amount_of(tx),
{
    assert(list.push(tx).drop_last() =~= list);
}

/// The time that a block took and the time of the block before it make its own time; it is late by
/// what it took beyond five minutes.
pub proof fn block_times_add_up(earlier: u64, later: u64)
    ensures
        earlier <= later ==> earlier + elapsed(earlier, later) == later,
        earlier > later ==> elapsed(earlier, later) == 0,
        earlier <= later && later - earlier <= i64::MAX ==> lateness(earlier, later) is Some
            && lateness(earlier, later)->Some_0 == later - earlier - 300,
        earlier > later ==> lateness(earlier, later) == Some(-300i64),
{
}

/// A block below the tip is confirmed by every block from itself up to the tip.
pub proof fn confirmations_count_up_to_the_tip(tip: u64, height: u64)
    ensures
        height <= tip && tip - height < u64::MAX ==> height + confirmations_at(tip as int, height)
            == tip + 1,
        height > tip ==> confirmations_at(tip as int, height) == 1,
{
}

/// A shown reward matures a hundred blocks above its block, and is what its block pays in subsidy and
/// fees together.
pub proof fn shown_rewards_mature_in_time(shown: MinedBlockResponse, mined: Mined, tip: u64)
    requires
        shown.shows(mined, tip as int),
        mined.height + 100 <= u64::MAX,
    ensures
        mined.block.coinbase is Some,
        ({
            let reward = mined.block.coinbase->Some_0;
            &&& shown.height == mined.height
            &&& shown.maturity_height == mined.height + 100
            &&& shown.matured <==> tip >= mined.height + 100
            &&& shown.subsidy == reward.subsidy.0
            &&& shown.fees == reward.fees.0
            &&& reward.subsidy.0 + reward.fees.0 <= u64::MAX ==> shown.total == reward.subsidy.0
                + reward.fees.0
            &&& mined.height <= tip && tip - mined.height < u64::MAX ==> mined.height
                + shown.confirmations == tip + 1
            &&& shown.timestamp == mined.block.header.timestamp
            &&& mined.block.transactions.len() + mined.block.qcash_transactions.len() <= usize::MAX
                ==> shown.tx_count == mined.block.transactions.len()
                + mined.block.qcash_transactions.len()
        }),
{
}

/// A place of the index lists a block that the store holds under the listed hash, that the address
/// mined and that pays it.
pub open spec fn lists_a_mined_block(list: Seq<IndexedBlock>, address: Address, i: int) -> bool {
    &&& list[i].block is Ok
    &&& list[i].block->Ok_0 is Some
    &&& list[i].block->Ok_0->Some_0.hash == list[i].location.block_hash
    &&& list[i].block->Ok_0->Some_0.header.miner_address == address
    &&& list[i].block->Ok_0->Some_0.coinbase is Some
}

/// Every block that an address mined is found, in the order of the index, at its listed height.
pub proof fn every_mined_block_is_found(list: Seq<IndexedBlock>, address: Address) -> (places: Seq<
    int,
>)
    ensures
        are_the_places(
            places,
            list.len() as int,
            |i: int| lists_a_mined_block(list, address, i),
        ),
        mined_by(list, address).len() == places.len(),
        forall|j: int|
            0 <= j < places.len() ==> mined_by(list, address)[j].height
                == list[#[trigger] places[j]].location.block_height.0 && mined_by(
                list,
                address,
            )[j].block == (list[places[j]].block->Ok_0->Some_0)@,
    decreases list.len(),
{
    if list.len() == 0 {
        Seq::empty()
    } else {
        let shorter = list.drop_last();
        let before = every_mined_block_is_found(shorter, address);
        let n = list.len() - 1;
        let places = lemma_one_more_place(
            before,
            n,
            |i: int| lists_a_mined_block(shorter, address, i),
            |i: int| lists_a_mined_block(list, address, i),
        );
        assert(is_mined(list.last(), address) <==> lists_a_mined_block(list, address, n));
        assert forall|j: int| 0 <= j < places.len() implies mined_by(list, address)[j].height
            == list[#[trigger] places[j]].location.block_height.0 && mined_by(
            list,
            address,
        )[j].block == (list[places[j]].block->Ok_0->Some_0)@ by {
            if j < before.len() {
                assert(places[j] == before[j]);
                assert(shorter[before[j]] == list[before[j]]);
            }
        }
        places
    }
}

/// Mined blocks are shown newest first: the last of the index comes first.
pub proof fn mined_blocks_are_shown_newest_first(
    responses: Seq<MinedBlockResponse>,
    list: Seq<IndexedBlock>,
    address: Address,
    tip: u64,
    i: int,
    j: int,
)
    requires
        shown_backwards(responses, mined_by(list, address), tip as int),
        0 <= i < responses.len(),
        0 <= j < responses.len(),
        i + j == responses.len() - 1,
    ensures
        mined_by(list, address).len() == responses.len(),
        responses[i].shows(mined_by(list, address)[j], tip as int),
{
    assert(responses[i].shows(
        mined_by(list, address)[mined_by(list, address).len() - 1 - i],
        tip as int,
    ));
}

/// Every transaction that the store holds is found, in the order of the index, in its listed block.
pub proof fn every_stored_transaction_is_found(list: Seq<IndexedHit>) -> (places: Seq<int>)
    ensures
        are_the_places(
            places,
            list.len() as int,
            |i: int| list[i].transaction is Ok && list[i].transaction->Ok_0 is Some,
        ),
        stored(list).len() == places.len(),
        forall|j: int|
            0 <= j < places.len() ==> stored(list)[j].tx == (
            list[#[trigger] places[j]].transaction->Ok_0->Some_0)@ && stored(list)[j].block == Some(
                list[places[j]].location,
            ),
    decreases list.len(),
{
    if list.len() == 0 {
        Seq::empty()
    } else {
        let shorter = list.drop_last();
        let before = every_stored_transaction_is_found(shorter);
        let n = list.len() - 1;
        let places = lemma_one_more_place(
            before,
            n,
            |i: int| shorter[i].transaction is Ok && shorter[i].transaction->Ok_0 is Some,
            |i: int| list[i].transaction is Ok && list[i].transaction->Ok_0 is Some,
        );
        assert forall|j: int| 0 <= j < places.len() implies stored(list)[j].tx == (
        list[#[trigger] places[j]].transaction->Ok_0->Some_0)@ && stored(list)[j].block == Some(
            list[places[j]].location,
        ) by {
            if j < before.len() {
                assert(places[j] == before[j]);
                assert(shorter[before[j]] == list[before[j]]);
            }
        }
        places
    }
}

/// The history of an address holds what is stored, then its pending transfers and then its other
/// pending transactions, all of them in order; what is pending is in no block.
pub proof fn histories_end_with_what_is_pending(
    hits: Seq<IndexedHit>,
    transfers: Seq<SignedTransaction>,
    others: Seq<ProtocolModel>,
)
    ensures
        ({
            let all = history(hits, transfers, others);
            let n = stored(hits).len();
            let m = transfers.len();
            &&& all.len() == n + m + others.len()
            &&& forall|i: int| 0 <= i < n ==> #[trigger] all[i] == stored(hits)[i]
            &&& forall|i: int|
                0 <= i < m ==> (#[trigger] all[n + i]).tx == ProtocolModel::Transfer(transfers[i])
                    && all[n + i].block is None
            &&& forall|i: int|
                0 <= i < others.len() ==> (#[trigger] all[n + m + i]).tx == others[i] && all[n + m
                    + i].block is None
        }),
{
    let all = history(hits, transfers, others);
    let n = stored(hits).len();
    let m = transfers.len();
    assert forall|i: int| 0 <= i < others.len() implies (#[trigger] all[n + m + i]).tx == others[i]
        && all[n + m + i].block is None by {
        assert(all[n + m + i] == as_pending(others)[i]);
    }
    assert forall|i: int| 0 <= i < m implies (#[trigger] all[n + i]).tx == ProtocolModel::Transfer(
        transfers[i],
    ) && all[n + i].block is None by {
        assert(all[n + i] == as_pending(as_transfers(transfers))[i]);
    }
}

/// The first block that cannot be loaded gives the error.
pub proof fn the_first_unreadable_block_is_reported(list: Seq<IndexedBlock>, i: int)
    requires
        0 <= i <= list.len(),
        forall|j: int| 0 <= j < i ==> (#[trigger] list[j]).block is Ok,
        i < list.len() ==> list[i].block is Err,
    ensures
        i == list.len() ==> block_error(list) is None,
        i < list.len() ==> block_error(list) == Some(list[i].block->Err_0@),
    decreases list.len(),
{
    if list.len() > 0 {
        let shorter = list.drop_last();
        if i == list.len() {
            assert(list[list.len() - 1].block is Ok);
            the_first_unreadable_block_is_reported(shorter, list.len() - 1);
        } else if i == list.len() - 1 {
            the_first_unreadable_block_is_reported(shorter, i);
        } else {
            assert(shorter[i] == list[i]);
            the_first_unreadable_block_is_reported(shorter, i);
        }
    }
}

/// The first transaction that cannot be loaded gives the error.
pub proof fn the_first_unreadable_transaction_is_reported(list: Seq<IndexedHit>, i: int)
    requires
        0 <= i <= list.len(),
        forall|j: int| 0 <= j < i ==> (#[trigger] list[j]).transaction is Ok,
        i < list.len() ==> list[i].transaction is Err,
    ensures
        i == list.len() ==> hit_error(list) is None,
        i < list.len() ==> hit_error(list) == Some(list[i].transaction->Err_0@),
    decreases list.len(),
{
    if list.len() > 0 {
        let shorter = list.drop_last();
        if i == list.len() {
            assert(list[list.len() - 1].transaction is Ok);
            the_first_unreadable_transaction_is_reported(shorter, list.len() - 1);
        } else if i == list.len() - 1 {
            the_first_unreadable_transaction_is_reported(shorter, i);
        } else {
            assert(shorter[i] == list[i]);
            the_first_unreadable_transaction_is_reported(shorter, i);
        }
    }
}

/// Reading fails exactly if an index cannot be read, or a block or a transaction that it lists.
pub proof fn reading_fails_for_four_reasons(
    mined: Result<Vec<IndexedBlock>, String>,
    hits: Result<Vec<IndexedHit>, String>,
)
    ensures
        reading_error(mined, hits) is Some <==> mined is Err || block_error(mined->Ok_0@) is Some
            || hits is Err || hit_error(hits->Ok_0@) is Some,
{
}

/// A transaction is found by its own hash or by its witness hash, and the first that has it is taken.
pub proof fn the_first_transaction_of_a_hash_is_found(
    list: Seq<ProtocolModel>,
    hash: [u8; 32],
    i: int,
)
    requires
        0 <= i <= list.len(),
        forall|j: int|
            0 <= j < i ==> (#[trigger] list[j]).hash().0 != hash && list[j].wtxid().0 != hash,
        i < list.len() ==> list[i].hash().0 == hash || list[i].wtxid().0 == hash,
    ensures
        i == list.len() ==> first_named(list, hash) is None,
        i < list.len() ==> first_named(list, hash) == Some(list[i]),
    decreases list.len(),
{
    if list.len() > 0 {
        let shorter = list.drop_last();
        if i == list.len() {
            assert(list[list.len() - 1].hash().0 != hash);
            the_first_transaction_of_a_hash_is_found(shorter, hash, list.len() - 1);
        } else if i == list.len() - 1 {
            the_first_transaction_of_a_hash_is_found(shorter, hash, i);
        } else {
            assert(shorter[i] == list[i]);
            the_first_transaction_of_a_hash_is_found(shorter, hash, i);
        }
    }
}

/// What is pending is found before what is stored, and what is stored under the hash before what is
/// stored under the witness hash; a search finds nothing only if none of them does.
pub proof fn searches_look_at_what_is_pending_first(
    pending: Option<ProtocolModel>,
    by_txid: Option<Entry>,
    by_wtxid: Option<Entry>,
)
    ensures
        ({
            let outcome = search(
                pending,
                Ok::<Option<Entry>, Seq<char>>(by_txid),
                Ok::<Option<Entry>, Seq<char>>(by_wtxid),
            );
            &&& outcome is Ok
            &&& pending is Some ==> outcome->Ok_0 is Some && outcome->Ok_0->Some_0.tx
                == pending->Some_0 && outcome->Ok_0->Some_0.block is None
            &&& pending is None && by_txid is Some ==> outcome->Ok_0 == by_txid
            &&& pending is None && by_txid is None ==> outcome->Ok_0 == by_wtxid
        }),
{
}

/// An event is one that a request asks for, in plain numbers.
pub open spec fn is_asked_for(query: EventQuery, event: ProtocolEvent) -> bool {
    &&& query.from_height is Some ==> event.block_height.0 >= query.from_height->Some_0
    &&& query.to_height is Some ==> event.block_height.0 <= query.to_height->Some_0
    &&& query.kind is Some ==> query.kind->Some_0@ == kind_text(event.kind)
}

/// Every event that a request asks for is wanted, in order, and nothing else is.
pub proof fn every_event_asked_for_is_wanted(events: Seq<ProtocolEvent>, query: EventQuery) -> (places:
    Seq<int>)
    ensures
        are_the_places(places, events.len() as int, |i: int| is_asked_for(query, events[i])),
        wanted_events(events, query).len() == places.len(),
        forall|j: int|
            0 <= j < places.len() ==> wanted_events(events, query)[j]
                == events[#[trigger] places[j]],
    decreases events.len(),
{
    if events.len() == 0 {
        Seq::empty()
    } else {
        let shorter = events.drop_last();
        let before = every_event_asked_for_is_wanted(shorter, query);
        let n = events.len() - 1;
        let places = lemma_one_more_place(
            before,
            n,
            |i: int| is_asked_for(query, shorter[i]),
            |i: int| is_asked_for(query, events[i]),
        );
        assert forall|j: int| 0 <= j < places.len() implies wanted_events(events, query)[j]
            == events[#[trigger] places[j]] by {
            if j < before.len() {
                assert(places[j] == before[j]);
                assert(shorter[before[j]] == events[before[j]]);
            }
        }
        places
    }
}

/// A page holds the entries of a list from its offset on, as many as its limit allows and the list has.
pub proof fn pages_hold_what_follows_the_offset<T>(list: Seq<T>, offset: nat, limit: nat)
    ensures
        ({
            let shown = page(list, offset, limit);
            &&& shown.len() <= limit
            &&& offset >= list.len() ==> shown.len() == 0
            &&& offset < list.len() && list.len() - offset <= limit ==> offset + shown.len()
                == list.len()
            &&& offset < list.len() && list.len() - offset > limit ==> shown.len() == limit
            &&& forall|i: int| 0 <= i < shown.len() ==> #[trigger] shown[i] == list[offset + i]
        }),
{
}

/// Two events have one name exactly if they are of one kind, and an address takes part in an event
/// exactly if it is the miner, the signer, the sender or the recipient in it.
pub proof fn events_name_their_kind_and_parties(
    a: ProtocolEventKind,
    b: ProtocolEventKind,
    address: Address,
)
    ensures
        kind_text(a) == kind_text(b) <==> {
            ||| a is CoinbasePaid && b is CoinbasePaid
            ||| a is Transfer && b is Transfer
            ||| a is QCashWithdrawn && b is QCashWithdrawn
            ||| a is QCashDeposited && b is QCashDeposited
        },
        a is CoinbasePaid ==> (involves(a, address) <==> address == a->miner),
        a is Transfer ==> (involves(a, address) <==> address == a->from || address == a->to),
        a is QCashWithdrawn ==> (involves(a, address) <==> address == a->QCashWithdrawn_signer),
        a is QCashDeposited ==> (involves(a, address) <==> address == a->QCashDeposited_signer
            || address == a->recipient),
{
    reveal_strlit("coinbase_paid");
    reveal_strlit("transfer");
    reveal_strlit("qcash_withdrawn");
    reveal_strlit("qcash_deposited");
    assert(a is QCashWithdrawn ==> kind_text(a)[6] == 'w');
    assert(a is QCashDeposited ==> kind_text(a)[6] == 'd');
    assert(b is QCashWithdrawn ==> kind_text(b)[6] == 'w');
    assert(b is QCashDeposited ==> kind_text(b)[6] == 'd');
    assert(a is Transfer ==> kind_text(a).len() == 8);
    assert(b is Transfer ==> kind_text(b).len() == 8);
    assert(a is CoinbasePaid ==> kind_text(a).len() == 13);
    assert(b is CoinbasePaid ==> kind_text(b).len() == 13);
}

/// A request is refused for its limit unless that lies between 1 and 500; without one it stands for
/// 100, and without an offset for zero.
pub proof fn limits_lie_between_one_and_five_hundred(query: EventQuery)
    ensures
        query.limit is None ==> query.most() == 100,
        query.limit is Some ==> query.most() == query.limit->Some_0,
        query.offset is None ==> query.skipped() == 0,
        query.offset is Some ==> query.skipped() == query.offset->Some_0,
        query.limit is Some && (query.limit->Some_0 < 1 || query.limit->Some_0 > 500)
            ==> query.error() == Some("event_limit_must_be_between_1_and_500"@),
        query.kind is None && (query.limit is None || 1 <= query.limit->Some_0 <= 500)
            ==> query.error() is None,
{
}

/// A shown block has the header, the hash, the sizes, the rewards and all the transactions of the block,
/// and what it is said to move is what they move.
pub proof fn shown_blocks_are_the_blocks(
    shown: BlockResponse,
    block: Block,
    tip: u64,
    previous: Option<u64>,
    now: Option<u64>,
    status: Seq<char>,
)
    requires
        shown.shows_header(block@),
        shown.shows_time(block@, tip as int, previous, now),
        shown.shows_transactions(block@, status, now),
        block.transactions@.len() + block.qcash_transactions@.len() <= usize::MAX,
    ensures
        shown.version == block.header.version,
        shown.height == block.header.height.0,
        shown.hash@ == crate::text::hex_text(block.hash.0@),
        shown.previous_hash@ == crate::text::hex_text(block.header.previous_hash.0@),
        shown.merkle_root@ == crate::text::hex_text(block.header.merkle_root@),
        shown.witness_root@ == crate::text::hex_text(block.header.witness_root@),
        shown.state_root@ == crate::text::hex_text(block.header.state_root@),
        shown.miner_address == block.header.miner_address,
        shown.difficulty == block.header.difficulty,
        shown.timestamp == block.header.timestamp,
        shown.nonce == block.header.nonce.0,
        shown.size == block.sizes.serialized,
        shown.stripped_size == block.sizes.stripped,
        shown.witness_size == block.sizes.witness,
        shown.weight == block.sizes.weight,
        shown.tx_count == block.transactions@.len() + block.qcash_transactions@.len(),
        shown.transactions@.len() == shown.tx_count,
        shown.genesis_allocations@ == block.genesis_allocations@,
        shown.coinbase is Some <==> block.coinbase is Some,
        shown.coinbase is Some ==> {
            let paid = block.coinbase->Some_0;
            &&& shown.coinbase->Some_0.to == paid.to
            &&& shown.coinbase->Some_0.subsidy == paid.subsidy.0
            &&& shown.coinbase->Some_0.fees == paid.fees.0
            &&& paid.subsidy.0 + paid.fees.0 <= u64::MAX ==> shown.coinbase->Some_0.total
                == paid.subsidy.0 + paid.fees.0
        },
        block.header.height.0 <= tip && tip - block.header.height.0 < u64::MAX
            ==> block.header.height.0 + shown.confirmations == tip + 1,
        now is Some && now->Some_0 >= block.header.timestamp ==> block.header.timestamp
            + shown.age_secs == now->Some_0,
        previous is None ==> shown.block_time_secs is None && shown.block_time_delta_secs is None,
        previous is Some && previous->Some_0 <= block.header.timestamp ==> shown.block_time_secs
            is Some && previous->Some_0 + shown.block_time_secs->Some_0 == block.header.timestamp,
        forall|i: int|
            0 <= i < block.transactions@.len() ==> (#[trigger] shown.transactions@[i]).signer
                == block.transactions@[i].transaction.from && shown.transactions@[i].fee
                == block.transactions@[i].transaction.fee.0 && shown.transactions@[i].block_height
                == Some(block.header.height.0),
        forall|j: int|
            0 <= j < block.qcash_transactions@.len() ==> (
            #[trigger] shown.transactions@[block.transactions@.len() + j]).signer
                == block.qcash_transactions@[j].record.signer
                && shown.transactions@[block.transactions@.len() + j].fee
                == block.qcash_transactions@[j].record.fee.0,
{
    blocks_list_both_families(block);
    let all = block@.all_transactions();
    assert forall|i: int| 0 <= i < block.transactions@.len() implies (
    #[trigger] shown.transactions@[i]).signer == block.transactions@[i].transaction.from
        && shown.transactions@[i].fee == block.transactions@[i].transaction.fee.0
        && shown.transactions@[i].block_height == Some(block.header.height.0) by {
        assert(all[i] == ProtocolModel::Transfer(block.transactions@[i]));
        assert(shown.transactions@[i].shows(all[i], now));
    }
    let n = block.transactions@.len();
    assert forall|j: int| 0 <= j < block.qcash_transactions@.len() implies (
    #[trigger] shown.transactions@[n + j]).signer == block.qcash_transactions@[j].record.signer
        && shown.transactions@[n + j].fee == block.qcash_transactions@[j].record.fee.0 by {
        assert(all[n + j] == ProtocolModel::QCash(block.qcash_transactions@[j]@));
        assert(shown.transactions@[n + j].shows(all[n + j], now));
    }
}

/// A transaction in a block is reported as confirmed, with the height and the hash of its block; one in
/// no block as pending, with neither.
pub proof fn reports_say_where_a_transaction_stands(
    shown: ProtocolTxResponse,
    entry: Entry,
    now: Option<u64>,
)
    requires
        shown.reports(entry, now),
    ensures
        shown.shows(entry.tx, now),
        entry.block is None ==> shown.block_height is None && shown.block_hash is None
            && shown.status@ == "pending"@,
        entry.block is Some ==> {
            &&& shown.block_height == Some(entry.block->Some_0.block_height.0)
            &&& shown.block_hash is Some
            &&& shown.block_hash->Some_0@ == crate::text::hex_text(
                entry.block->Some_0.block_hash.0@,
            )
            &&& shown.status@ == "confirmed"@
        },
{
}

/// A list of what is pending holds every transaction of both mempools, and nothing else.
pub proof fn both_mempools_are_listed(
    list: Seq<ProtocolModel>,
    transfers: Seq<SignedTransaction>,
    others: Seq<ProtocolModel>,
    pool: Pool,
    extension: ExtensionPool,
)
    requires
        lists_pending(list, transfers, others, pool, extension),
    ensures
        forall|h: TransactionHash| #[trigger]
            pool.contains_key(h) ==> exists|i: int|
                0 <= i < list.len() && #[trigger] list[i] == ProtocolModel::Transfer(
                    pool[h].transaction,
                ),
        forall|h: TransactionHash| #[trigger]
            extension.contains_key(h) ==> exists|i: int|
                0 <= i < list.len() && #[trigger] list[i] == extension[h],
        forall|i: int|
            0 <= i < list.len() ==> (list[i] is Transfer && pool.contains_key(
                list[i]->Transfer_0.hash,
            ) && pool[list[i]->Transfer_0.hash].transaction == list[i]->Transfer_0) || exists|
                h: TransactionHash,
            | #[trigger]
                extension.contains_key(h) && extension[h] == #[trigger] list[i],
{
    assert forall|h: TransactionHash| #[trigger] pool.contains_key(h) implies exists|i: int|
        0 <= i < list.len() && #[trigger] list[i] == ProtocolModel::Transfer(
            pool[h].transaction,
        ) by {
        let i = transfers.index_of(pool[h].transaction);
        assert(list[i] == ProtocolModel::Transfer(pool[h].transaction));
    }
    assert forall|h: TransactionHash| #[trigger] extension.contains_key(h) implies exists|i: int|
        0 <= i < list.len() && #[trigger] list[i] == extension[h] by {
        let i = others.index_of(extension[h]);
        assert(list[transfers.len() + i] == extension[h]);
    }
    assert forall|i: int| 0 <= i < list.len() implies (list[i] is Transfer && pool.contains_key(
        list[i]->Transfer_0.hash,
    ) && pool[list[i]->Transfer_0.hash].transaction == list[i]->Transfer_0) || exists|
        h: TransactionHash,
    | #[trigger] extension.contains_key(h) && extension[h] == #[trigger] list[i] by {
        if i < transfers.len() {
            assert(pool.contains_key(transfers[i].hash));
        } else {
            let tx = others[i - transfers.len()];
            assert(extension.contains_key(tx.hash()) && extension[tx.hash()] == list[i]);
        }
    }
}

/// Everything that is pending for an address is listed: the transfers that it sends or receives, and
/// the other transactions that it signs or that credit it.
pub proof fn everything_pending_for_an_address_is_listed(
    transfers: Seq<SignedTransaction>,
    others: Seq<ProtocolModel>,
    pool: Pool,
    extension: ExtensionPool,
    address: Address,
    h: TransactionHash,
)
    requires
        lists_pending_for(transfers, others, pool, extension, address),
    ensures
        pool.contains_key(h) && (pool[h].transaction.transaction.from == address
            || pool[h].transaction.transaction.to == address) ==> transfers.contains(
            pool[h].transaction,
        ),
        extension.contains_key(h) && extension[h] is QCash
            && extension[h]->QCash_0.record.signer == address ==> others.contains(extension[h]),
        extension.contains_key(h) && extension[h] is QCash
            && extension[h]->QCash_0.record.kind is DepositCash
            && extension[h]->QCash_0.record.kind->recipient == address ==> others.contains(
            extension[h],
        ),
        forall|i: int|
            0 <= i < transfers.len() ==> (#[trigger] transfers[i]).transaction.from == address
                || transfers[i].transaction.to == address,
{
    if extension.contains_key(h) && extension[h] is QCash {
        let list = touched_addresses(extension[h]);
        assert(list[0] == extension[h].signer());
        if list.len() == 2 {
            assert(list[1] == extension[h].recipient()->Some_0);
        }
    }
}

} // verus!
