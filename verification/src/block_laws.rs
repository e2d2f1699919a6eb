//! What a candidate block holds and what its coinbase collects.
use crate::chain::{qcash_models, BlockSizes, ConsensusError, Ledger, LedgerError};
use crate::ids::{zero_bytes, Address, Nonce, TransactionHash};
use crate::mempool::candidate::{candidate, candidate_built, chosen, executed, measured};
use crate::mempool::extension::{
    appended, at_most, filled_with, grown, packed, qcash_parts, ExtensionMempool,
};
use crate::mempool::extension_laws::{
    may_be_packed, packed_before, rankings_put_the_best_payer_first,
};
use crate::mempool::laws::nonces_have_successors;
use crate::mempool::mempool::Mempool;
use crate::mempool::selection_laws::{may_enter, selection_prefers_the_best_payer};
use crate::miner::{candidate_prepared, consensus_error_of, prepared, MiningConfig};
use crate::template::{
    qcash_fees, transfer_fees, BlockRules, BlockTemplate, TemplateHeader, TemplateModel,
};
use crate::transaction::{ProtocolModel, QCashModel, SignedQCashTransaction, SignedTransaction};
use vstd::prelude::*;

verus! {

/// What a list of transfers pays in fees, one after the other.
pub open spec fn fees_paid_by(list: Seq<SignedTransaction>) -> int
    decreases list.len(),
{
    if list.len() == 0 {
        0
    } else {
        list[0].transaction.fee.0 + fees_paid_by(list.skip(1))
    }
}

/// What a list of bearer-coin transactions pays in fees, one after the other.
pub open spec fn qcash_fees_paid_by(list: Seq<SignedQCashTransaction>) -> int
    decreases list.len(),
{
    if list.len() == 0 {
        0
    } else {
        list[0].record.fee.0 + qcash_fees_paid_by(list.skip(1))
    }
}

/// Each transfer adds its fee to the fees of a list, and nothing else does.
pub proof fn each_transfer_adds_its_fee(list: Seq<SignedTransaction>, tx: SignedTransaction)
    ensures
        transfer_fees(Seq::empty()) == 0,
        transfer_fees(list.push(tx)) == transfer_fees(list) + tx.transaction.fee.0,
{
    assert(list.push(tx).drop_last() =~= list);
}

/// Each bearer-coin transaction adds its fee to the fees of a list, and nothing else does.
pub proof fn each_qcash_transaction_adds_its_fee(list: Seq<QCashModel>, tx: QCashModel)
    ensures
        qcash_fees(Seq::empty()) == 0,
        qcash_fees(list.push(tx)) == qcash_fees(list) + tx.record.fee.0,
{
    assert(list.push(tx).drop_last() =~= list);
}

proof fn lemma_transfer_fees(list: Seq<SignedTransaction>)
    ensures
        transfer_fees(list) == fees_paid_by(list),
        fees_paid_by(list) >= 0,
    decreases list.len(),
{
    reveal_with_fuel(transfer_fees, 2);
    reveal_with_fuel(fees_paid_by, 2);
    if list.len() == 1 {
        assert(list.drop_last() =~= Seq::empty());
        assert(list.skip(1) =~= Seq::empty());
    } else if list.len() > 1 {
        lemma_transfer_fees(list.drop_last());
        lemma_transfer_fees(list.skip(1));
        lemma_transfer_fees(list.drop_last().skip(1));
        assert(list.drop_last().skip(1) =~= list.skip(1).drop_last());
        assert(list.skip(1).last() == list.last());
        assert(list.drop_last()[0] == list[0]);
    }
}

proof fn lemma_qcash_fees(list: Seq<SignedQCashTransaction>)
    ensures
        qcash_fees(qcash_models(list)) == qcash_fees_paid_by(list),
        qcash_fees_paid_by(list) >= 0,
    decreases list.len(),
{
    reveal_with_fuel(qcash_fees, 2);
    reveal_with_fuel(qcash_fees_paid_by, 2);
    if list.len() == 1 {
        assert(qcash_models(list).drop_last() =~= Seq::empty());
        assert(list.skip(1) =~= Seq::empty());
        assert(qcash_fees(Seq::empty()) == 0);
    } else if list.len() > 1 {
        lemma_qcash_fees(list.drop_last());
        lemma_qcash_fees(list.skip(1));
        lemma_qcash_fees(list.drop_last().skip(1));
        assert(list.drop_last().skip(1) =~= list.skip(1).drop_last());
        assert(qcash_models(list).drop_last() =~= qcash_models(list.drop_last()));
        assert(qcash_models(list.skip(1)).drop_last() =~= qcash_models(list.skip(1).drop_last()));
        assert(list.skip(1).last() == list.last());
        assert(list.drop_last()[0] == list[0]);
    }
}

/// The fees of a template are what its transfers and its bearer-coin transactions pay, both.
pub proof fn templates_pay_the_fees_of_both_families(template: BlockTemplate)
    ensures
        template@.fees() == fees_paid_by(template.transactions@) + qcash_fees_paid_by(
            template.qcash_transactions@,
        ),
        template@.transactions == template.transactions@,
        template@.qcash_transactions.len() == template.qcash_transactions@.len(),
        forall|i: int|
            0 <= i < template.qcash_transactions@.len() ==> {
                &&& (#[trigger] template@.qcash_transactions[i]).record
                    == template.qcash_transactions@[i].record
                &&& template@.qcash_transactions[i].coins
                    == template.qcash_transactions@[i].deposited_coins@
            },
        template@.transactions.len() + template@.qcash_transactions.len() <= usize::MAX
            ==> template@.transaction_count() == template.transactions@.len()
            + template.qcash_transactions@.len(),
        template@.header == template.header,
{
    lemma_transfer_fees(template.transactions@);
    lemma_qcash_fees(template.qcash_transactions@);
}

/// Two headers agree in everything but the fees that the coinbase collects.
pub open spec fn agree_but_for_fees(a: TemplateHeader, b: TemplateHeader) -> bool {
    &&& a.height == b.height
    &&& a.previous_hash == b.previous_hash
    &&& a.miner_address == b.miner_address
    &&& a.difficulty == b.difficulty
    &&& a.timestamp == b.timestamp
    &&& a.nonce == b.nonce
    &&& a.state_root == b.state_root
    &&& a.coinbase is Some <==> b.coinbase is Some
    &&& a.coinbase is Some ==> a.coinbase->Some_0.to == b.coinbase->Some_0.to
        && a.coinbase->Some_0.subsidy == b.coinbase->Some_0.subsidy
}

/// The coinbase collects exactly the fees of the transactions, wherever they fit.
pub open spec fn collects_its_fees(template: TemplateModel) -> bool {
    let fees = transfer_fees(template.transactions) + qcash_fees(template.qcash_transactions);
    template.header.coinbase is Some && fees <= u64::MAX
        ==> template.header.coinbase->Some_0.fees.0 == fees
}

/// Settling the fees touches nothing but the fees of the coinbase, which then collects them all.
pub proof fn settling_touches_only_the_fees(template: TemplateModel)
    ensures
        template.settled().transactions == template.transactions,
        template.settled().qcash_transactions == template.qcash_transactions,
        agree_but_for_fees(template.settled().header, template.header),
        collects_its_fees(template.settled()),
{
}

/// The entries of a list that are kept, in order.
pub open spec fn survivors(list: Seq<QCashModel>, kept: Seq<bool>) -> Seq<QCashModel>
    decreases list.len(),
{
    if list.len() == 0 {
        Seq::empty()
    } else if kept.last() {
        survivors(list.drop_last(), kept.drop_last()).push(list.last())
    } else {
        survivors(list.drop_last(), kept.drop_last())
    }
}

proof fn lemma_packed(template: TemplateModel, list: Seq<QCashModel>, kept: Seq<bool>)
    requires
        kept.len() == list.len(),
    ensures
        packed(template, list, kept).transactions == template.transactions,
        packed(template, list, kept).qcash_transactions == template.qcash_transactions
            + survivors(list, kept),
        agree_but_for_fees(packed(template, list, kept).header, template.header),
    decreases list.len(),
{
    if list.len() == 0 {
        assert(template.qcash_transactions + survivors(list, kept)
            =~= template.qcash_transactions);
    } else {
        lemma_packed(template, list.drop_last(), kept.drop_last());
        let before = packed(template, list.drop_last(), kept.drop_last());
        let more = TemplateModel {
            qcash_transactions: before.qcash_transactions.push(list.last()),
            ..before
        };
        settling_touches_only_the_fees(before);
        settling_touches_only_the_fees(more);
        assert((template.qcash_transactions + survivors(list.drop_last(), kept.drop_last())).push(
            list.last(),
        ) =~= template.qcash_transactions + survivors(list.drop_last(), kept.drop_last()).push(
            list.last(),
        ));
    }
}

proof fn lemma_survivors_come_from_the_list(list: Seq<QCashModel>, kept: Seq<bool>, i: int) -> (a:
    int)
    requires
        kept.len() == list.len(),
        0 <= i < survivors(list, kept).len(),
    ensures
        0 <= a < list.len(),
        list[a] == survivors(list, kept)[i],
        kept[a],
    decreases list.len(),
{
    let rest = survivors(list.drop_last(), kept.drop_last());
    if i < rest.len() {
        let a = lemma_survivors_come_from_the_list(list.drop_last(), kept.drop_last(), i);
        assert(kept.drop_last()[a] == kept[a]);
        a
    } else {
        list.len() - 1
    }
}

proof fn lemma_survivors_keep_the_order(
    list: Seq<QCashModel>,
    kept: Seq<bool>,
    i: int,
    j: int,
) -> (r: (int, int))
    requires
        kept.len() == list.len(),
        0 <= i < j < survivors(list, kept).len(),
    ensures
        0 <= r.0 < r.1 < list.len(),
        list[r.0] == survivors(list, kept)[i],
        list[r.1] == survivors(list, kept)[j],
    decreases list.len(),
{
    let rest = survivors(list.drop_last(), kept.drop_last());
    if j < rest.len() {
        lemma_survivors_keep_the_order(list.drop_last(), kept.drop_last(), i, j)
    } else {
        let a = lemma_survivors_come_from_the_list(list.drop_last(), kept.drop_last(), i);
        (a, list.len() - 1)
    }
}

proof fn lemma_survivors_are_few(list: Seq<QCashModel>, kept: Seq<bool>)
    requires
        kept.len() == list.len(),
    ensures
        survivors(list, kept).len() <= list.len(),
        (forall|i: int| 0 <= i < kept.len() ==> #[trigger] kept[i]) ==> survivors(list, kept)
            == list,
        (forall|i: int| 0 <= i < kept.len() ==> !#[trigger] kept[i]) ==> survivors(list, kept).len()
            == 0,
    decreases list.len(),
{
    if list.len() > 0 {
        lemma_survivors_are_few(list.drop_last(), kept.drop_last());
        assert(forall|i: int| 0 <= i < kept.len() - 1 ==> kept.drop_last()[i] == kept[i]);
        if forall|i: int| 0 <= i < kept.len() ==> #[trigger] kept[i] {
            assert(kept.last());
            assert(list.drop_last().push(list.last()) =~= list);
        }
        if forall|i: int| 0 <= i < kept.len() ==> !#[trigger] kept[i] {
            assert(!kept.last());
        }
    } else {
        assert(survivors(list, kept) =~= list);
    }
}

/// `measure` finds every template within the limits.
pub open spec fn always_fits<M: Fn(&BlockTemplate) -> BlockSizes>(
    measure: M,
    rules: BlockRules,
) -> bool {
    forall|t: BlockTemplate, sizes: BlockSizes| #[trigger]
        call_ensures(measure, (&t,), sizes) ==> sizes.serialized <= rules.max_size && sizes.weight
            <= rules.max_weight
}

/// `measure` finds every template beyond the limits.
pub open spec fn never_fits<M: Fn(&BlockTemplate) -> BlockSizes>(
    measure: M,
    rules: BlockRules,
) -> bool {
    forall|t: BlockTemplate, sizes: BlockSizes| #[trigger]
        call_ensures(measure, (&t,), sizes) ==> sizes.serialized > rules.max_size || sizes.weight
            > rules.max_weight
}

/// What appending to a block adds is pending, may enter, is in the order of the best payer first, and
/// never exceeds the limit. Everything else stays but for the fees, which the coinbase collects, those
/// of the transfers and those of the bearer-coin transactions. If every size fits, a pending
/// transaction that may enter is left out only at the limit; if none fits, nothing is added.
pub proof fn appending_adds_the_best_payers<M: Fn(&BlockTemplate) -> BlockSizes>(
    measure: M,
    rules: BlockRules,
    mempool: &ExtensionMempool,
    before: TemplateModel,
    limit: usize,
    min_rate: int,
    after: TemplateModel,
)
    requires
        mempool.wf(),
        appended(measure, rules, mempool.pool(), before, limit, min_rate, after),
    ensures
        ({
            let n = before.qcash_transactions.len();
            let m = after.qcash_transactions.len();
            &&& after.transactions == before.transactions
            &&& agree_but_for_fees(after.header, before.header)
            &&& collects_its_fees(after)
            &&& m >= n
            &&& after.qcash_transactions.take(n as int) == before.qcash_transactions
            &&& m > n ==> before.transactions.len() + m <= limit
            &&& forall|i: int|
                n <= i < m ==> {
                    let tx = #[trigger] after.qcash_transactions[i];
                    &&& mempool.pool().contains_key(tx.record.hash)
                    &&& mempool.pool()[tx.record.hash] == ProtocolModel::QCash(tx)
                    &&& may_be_packed(tx, before.header.height, min_rate)
                }
            &&& forall|i: int, j: int|
                n <= i < j < m ==> packed_before(
                    #[trigger] after.qcash_transactions[i],
                    #[trigger] after.qcash_transactions[j],
                ) && after.qcash_transactions[i] != after.qcash_transactions[j]
            &&& always_fits(measure, rules) ==> forall|h: TransactionHash| #[trigger]
                mempool.pool().contains_key(h) && may_be_packed(
                    mempool.pool()[h]->QCash_0,
                    before.header.height,
                    min_rate,
                ) ==> after.qcash_transactions.contains(mempool.pool()[h]->QCash_0)
                    || before.transactions.len() + m >= limit
            &&& never_fits(measure, rules) ==> m == n
        }),
{
    let pool = mempool.pool();
    let (ranking, kept) = choose|ranking: Seq<ProtocolModel>, kept: Seq<bool>| #[trigger]
        filled_with(measure, rules, pool, before, limit, min_rate, after, ranking, kept);
    let room = limit - before.transaction_count();
    let k = if room >= 0 {
        room
    } else {
        0
    };
    let heads = at_most(ranking, k);
    let list = qcash_parts(heads);
    let added = survivors(list, kept);
    let n = before.qcash_transactions.len() as int;
    let m = after.qcash_transactions.len() as int;
    rankings_put_the_best_payer_first(ranking, mempool, before.header.height, min_rate);
    lemma_packed(before, list, kept);
    settling_touches_only_the_fees(packed(before, list, kept));
    lemma_survivors_are_few(list, kept);
    assert(after.qcash_transactions.take(n) =~= before.qcash_transactions);
    assert forall|i: int| n <= i < m implies {
        let tx = #[trigger] after.qcash_transactions[i];
        &&& pool.contains_key(tx.record.hash)
        &&& pool[tx.record.hash] == ProtocolModel::QCash(tx)
        &&& may_be_packed(tx, before.header.height, min_rate)
    } by {
        let a = lemma_survivors_come_from_the_list(list, kept, i - n);
        assert(after.qcash_transactions[i] == added[i - n]);
        assert(ranking[a] is QCash);
        assert(list[a] == ranking[a]->QCash_0);
    }
    assert forall|i: int, j: int| n <= i < j < m implies packed_before(
        #[trigger] after.qcash_transactions[i],
        #[trigger] after.qcash_transactions[j],
    ) && after.qcash_transactions[i] != after.qcash_transactions[j] by {
        let (a, b) = lemma_survivors_keep_the_order(list, kept, i - n, j - n);
        assert(after.qcash_transactions[i] == added[i - n]);
        assert(after.qcash_transactions[j] == added[j - n]);
        assert(ranking[a] is QCash && ranking[b] is QCash);
        assert(ranking[a] != ranking[b]);
        assert(list[a] == ranking[a]->QCash_0);
        assert(list[b] == ranking[b]->QCash_0);
    }
    if always_fits(measure, rules) {
        assert forall|i: int| 0 <= i < kept.len() implies #[trigger] kept[i] by {
            assert(measured(
                measure,
                grown(packed(before, list.take(i), kept.take(i)), list[i]),
                rules,
                kept[i],
            ));
        }
        assert(added == list);
        assert forall|h: TransactionHash| #[trigger]
            pool.contains_key(h) && may_be_packed(
                pool[h]->QCash_0,
                before.header.height,
                min_rate,
            ) implies after.qcash_transactions.contains(pool[h]->QCash_0)
            || before.transactions.len() + m >= limit by {
            let c = choose|c: int| 0 <= c < ranking.len() && #[trigger] ranking[c] == pool[h];
            if c < heads.len() {
                assert(list[c] == pool[h]->QCash_0);
                assert(after.qcash_transactions[n + c] == list[c]);
            }
        }
    }
    if never_fits(measure, rules) {
        assert forall|i: int| 0 <= i < kept.len() implies !#[trigger] kept[i] by {
            assert(measured(
                measure,
                grown(packed(before, list.take(i), kept.take(i)), list[i]),
                rules,
                kept[i],
            ));
        }
    }
}

/// `measure` found a template with these transfers and no other transactions beyond the limits.
pub open spec fn found_too_large<M: Fn(&BlockTemplate) -> BlockSizes>(
    measure: M,
    rules: BlockRules,
    transfers: Seq<SignedTransaction>,
) -> bool {
    exists|t: BlockTemplate, sizes: BlockSizes| #[trigger]
        call_ensures(measure, (&t,), sizes) && t.transactions@ == transfers
            && t.qcash_transactions@.len() == 0 && (sizes.serialized > rules.max_size
            || sizes.weight > rules.max_weight)
}

/// A candidate of transfers stands on the tip, belongs to the miner and holds the first of the chosen
/// transfers. Each one is left out because the block with it and all before it was found too large.
/// On top of a block its coinbase pays the miner the subsidy that is due and the fees of exactly the
/// transfers that it holds. Its state root is the one that the execution of these transfers yields.
pub proof fn candidates_hold_the_first_transfers_that_fit<
    M: Fn(&BlockTemplate) -> BlockSizes,
    E: Fn(&BlockTemplate) -> Result<[u8; 32], LedgerError>,
>(
    measure: M,
    execute: E,
    ledger: &Ledger,
    miner: Address,
    timestamp: u64,
    nonce: Nonce,
    rules: BlockRules,
    transfers: Seq<SignedTransaction>,
    k: int,
    template: BlockTemplate,
)
    requires
        candidate_built(
            measure,
            execute,
            ledger,
            miner,
            timestamp,
            nonce,
            rules,
            transfers,
            k,
            Ok::<BlockTemplate, LedgerError>(template),
        ),
    ensures
        ({
            let header = template.header;
            let n = template.transactions@.len();
            &&& n <= transfers.len()
            &&& forall|i: int| 0 <= i < n ==> #[trigger] template.transactions@[i] == transfers[i]
            &&& template.qcash_transactions@.len() == 0
            &&& header.miner_address == miner
            &&& header.timestamp == timestamp
            &&& header.nonce == nonce
            &&& header.difficulty == rules.difficulty_start
            &&& ledger.tip().0 is None ==> header.height.0 == 0
            &&& ledger.tip().0 is Some && ledger.tip().0->Some_0.0 < u64::MAX ==> header.height.0
                == ledger.tip().0->Some_0.0 + 1
            &&& ledger.tip().1 is Some ==> header.previous_hash == ledger.tip().1->Some_0
            &&& ledger.tip().0 is Some ==> header.coinbase is Some
            &&& header.coinbase is Some ==> {
                let coinbase = header.coinbase->Some_0;
                &&& coinbase.to == miner
                &&& coinbase.subsidy == ledger.subsidy_due()
                &&& fees_paid_by(template.transactions@) <= u64::MAX ==> coinbase.fees.0
                    == fees_paid_by(template.transactions@)
            }
            &&& forall|j: int|
                n < j <= transfers.len() ==> found_too_large(
                    measure,
                    rules,
                    #[trigger] transfers.take(j),
                )
            &&& always_fits(measure, rules) ==> n == transfers.len()
            &&& never_fits(measure, rules) ==> n == 0
            &&& exists|t: BlockTemplate| #[trigger]
                call_ensures(
                    execute,
                    (&t,),
                    Ok::<[u8; 32], LedgerError>(header.state_root),
                ) && t.transactions@ == template.transactions@
        }),
{
    let full = candidate(ledger, miner, timestamp, nonce, rules, transfers, k);
    let n = template.transactions@.len() as int;
    assert(template@.header == template.header);
    assert(template.transactions@ == transfers.take(k));
    assert(n == k);
    assert(template@.qcash_transactions.len() == 0);
    lemma_transfer_fees(template.transactions@);
    assert forall|j: int| n < j <= transfers.len() implies found_too_large(
        measure,
        rules,
        #[trigger] transfers.take(j),
    ) by {
        let longer = candidate(ledger, miner, timestamp, nonce, rules, transfers, j);
        assert(measured(measure, longer, rules, false));
        let (t, sizes) = choose|t: BlockTemplate, sizes: BlockSizes| #[trigger]
            call_ensures(measure, (&t,), sizes) && t@ == longer && rules.allow(sizes) == false;
        assert(t@.transactions == transfers.take(j));
        assert(t@.qcash_transactions.len() == 0);
    }
    if always_fits(measure, rules) && n < transfers.len() {
        assert(found_too_large(measure, rules, transfers.take(n + 1)));
    }
    if never_fits(measure, rules) && k > 0 {
        assert(measured(measure, full, rules, true));
    }
    let t = choose|t: BlockTemplate| #[trigger]
        call_ensures(
            execute,
            (&t,),
            Ok::<[u8; 32], LedgerError>(template@.header.state_root),
        ) && t@ == full;
    assert(t@.transactions == transfers.take(k));
}

/// A block prepared on top of the tip stands on it and belongs to the miner. It holds the first of the
/// chosen transfers, all of them if every size fits. Its bearer-coin transactions are pending and may
/// enter at its height; if every size fits, one that may enter is left out only at the limit. Its
/// coinbase pays the miner the subsidy that is due and the fees of all its transactions, of the
/// transfers as well as of the bearer-coin transactions.
pub proof fn prepared_blocks_collect_the_fees_of_all_they_hold<
    M: Fn(&BlockTemplate) -> BlockSizes,
    E: Fn(&BlockTemplate) -> Result<[u8; 32], LedgerError>,
    X: Fn(&BlockTemplate) -> Result<[u8; 32], LedgerError>,
    G: Fn(Address, u64) -> BlockTemplate,
>(
    mempool: &Mempool,
    extension_mempool: &ExtensionMempool,
    ledger: &Ledger,
    miner: Address,
    timestamp: u64,
    config: MiningConfig,
    rules: BlockRules,
    measure: M,
    state_root: E,
    execute: X,
    genesis: G,
    template: BlockTemplate,
)
    requires
        extension_mempool.wf(),
        ledger.tip().0 is Some,
        candidate_prepared(
            mempool,
            extension_mempool,
            ledger,
            miner,
            timestamp,
            config,
            rules,
            measure,
            state_root,
            execute,
            genesis,
            Ok::<BlockTemplate, ConsensusError>(template),
        ),
    ensures
        ({
            let header = template.header;
            let transfers = template.transactions@;
            let others = template.qcash_transactions@;
            let min_rate = config.min_fee_rate as int;
            let fees = fees_paid_by(transfers) + qcash_fees_paid_by(others);
            let best = chosen(
                mempool.pool(),
                ledger.tip().0,
                config.transaction_limit,
                config.min_fee_rate as int,
            );
            &&& ledger.tip().0->Some_0.0 < u64::MAX ==> header.height.0
                == ledger.tip().0->Some_0.0 + 1
            &&& ledger.tip().1 is Some ==> header.previous_hash == ledger.tip().1->Some_0
            &&& header.miner_address == miner
            &&& header.timestamp == timestamp
            &&& header.nonce == Nonce(0)
            &&& header.difficulty == config.difficulty
            &&& header.coinbase is Some
            &&& header.coinbase->Some_0.to == miner
            &&& header.coinbase->Some_0.subsidy == ledger.subsidy_due()
            &&& fees <= u64::MAX ==> header.coinbase->Some_0.fees.0 == fees
            &&& others.len() > 0 ==> transfers.len() + others.len() <= config.transaction_limit
            &&& transfers.len() <= best.len()
            &&& forall|i: int| 0 <= i < transfers.len() ==> #[trigger] transfers[i] == best[i]
            &&& always_fits(measure, rules) ==> transfers.len() == best.len()
            &&& forall|i: int|
                0 <= i < others.len() ==> {
                    let tx = #[trigger] others[i]@;
                    &&& extension_mempool.pool().contains_key(others[i].record.hash)
                    &&& extension_mempool.pool()[others[i].record.hash] == ProtocolModel::QCash(tx)
                    &&& may_be_packed(tx, header.height, min_rate)
                }
            &&& always_fits(measure, rules) && transfers.len() + others.len()
                < config.transaction_limit ==> forall|h: TransactionHash| #[trigger]
                extension_mempool.pool().contains_key(h) && may_be_packed(
                    extension_mempool.pool()[h]->QCash_0,
                    header.height,
                    min_rate,
                ) ==> exists|i: int|
                    0 <= i < others.len() && (#[trigger] others[i]@)
                        == extension_mempool.pool()[h]->QCash_0
        }),
{
    let min_rate = config.min_fee_rate as int;
    let best = chosen(mempool.pool(), ledger.tip().0, config.transaction_limit, min_rate);
    let r = Ok::<BlockTemplate, ConsensusError>(template);
    let pool = extension_mempool.pool();
    let (k, first, full) = choose|
        k: int,
        first: Result<BlockTemplate, LedgerError>,
        full: TemplateModel,
    |
        #![trigger candidate_built(measure, state_root, ledger, miner, timestamp, Nonce(0), rules, best, k, first), prepared(measure, execute, rules, pool, config, first, full, r)]
        candidate_built(
            measure,
            state_root,
            ledger,
            miner,
            timestamp,
            Nonce(0),
            rules,
            best,
            k,
            first,
        ) && prepared(measure, execute, rules, pool, config, first, full, r);
    let base = first->Ok_0;
    candidates_hold_the_first_transfers_that_fit(
        measure,
        state_root,
        ledger,
        miner,
        timestamp,
        Nonce(0),
        rules,
        best,
        k,
        base,
    );
    templates_pay_the_fees_of_both_families(base);
    templates_pay_the_fees_of_both_families(template);
    lemma_transfer_fees(base.transactions@);
    assert(template@.header.height == full.header.height);
    assert(template@.transactions == full.transactions);
    assert(template@.qcash_transactions == full.qcash_transactions);
    assert(qcash_fees(base@.qcash_transactions) == 0);
    if pool == Map::<TransactionHash, ProtocolModel>::empty() {
        assert(full == base@);
        assert(qcash_fees_paid_by(template.qcash_transactions@) == 0);
    } else {
        appending_adds_the_best_payers(
            measure,
            rules,
            extension_mempool,
            base@,
            config.transaction_limit,
            min_rate,
            full,
        );
    }
    let transfers = template.transactions@;
    let others = template.qcash_transactions@;
    assert forall|i: int| 0 <= i < transfers.len() implies #[trigger] transfers[i] == best[i] by {
        assert(base.transactions@[i] == best[i]);
    }
    assert forall|i: int| 0 <= i < others.len() implies {
        let tx = #[trigger] others[i]@;
        &&& pool.contains_key(others[i].record.hash)
        &&& pool[others[i].record.hash] == ProtocolModel::QCash(tx)
        &&& may_be_packed(tx, template.header.height, min_rate)
    } by {
        assert(full.qcash_transactions[i] == others[i]@);
    }
    if always_fits(measure, rules) && transfers.len() + others.len() < config.transaction_limit {
        assert forall|h: TransactionHash| #[trigger]
            pool.contains_key(h) && may_be_packed(
                pool[h]->QCash_0,
                template.header.height,
                min_rate,
            ) implies exists|i: int|
            0 <= i < others.len() && (#[trigger] others[i]@) == pool[h]->QCash_0 by {
            let i = full.qcash_transactions.index_of(pool[h]->QCash_0);
            assert(others[i]@ == pool[h]->QCash_0);
        }
    }
}

/// The transfers of a block prepared on top of the tip are pending and may enter at its height, and
/// transfers and bearer-coin transactions together keep the limit.
pub proof fn prepared_blocks_hold_pending_transfers<
    M: Fn(&BlockTemplate) -> BlockSizes,
    E: Fn(&BlockTemplate) -> Result<[u8; 32], LedgerError>,
    X: Fn(&BlockTemplate) -> Result<[u8; 32], LedgerError>,
    G: Fn(Address, u64) -> BlockTemplate,
>(
    mempool: &Mempool,
    extension_mempool: &ExtensionMempool,
    ledger: &Ledger,
    miner: Address,
    timestamp: u64,
    config: MiningConfig,
    rules: BlockRules,
    measure: M,
    state_root: E,
    execute: X,
    genesis: G,
    template: BlockTemplate,
)
    requires
        mempool.wf(),
        extension_mempool.wf(),
        nonces_have_successors(mempool.pool()),
        ledger.tip().0 is Some,
        ledger.tip().0->Some_0.0 < u64::MAX,
        candidate_prepared(
            mempool,
            extension_mempool,
            ledger,
            miner,
            timestamp,
            config,
            rules,
            measure,
            state_root,
            execute,
            genesis,
            Ok::<BlockTemplate, ConsensusError>(template),
        ),
    ensures
        template.transactions@.len() + template.qcash_transactions@.len()
            <= config.transaction_limit,
        forall|i: int|
            0 <= i < template.transactions@.len() ==> {
                let tx = #[trigger] template.transactions@[i];
                &&& mempool.pool().contains_key(tx.hash)
                &&& mempool.pool()[tx.hash].transaction == tx
                &&& may_enter(tx, config.min_fee_rate as int, Some(template.header.height))
            },
{
    prepared_blocks_collect_the_fees_of_all_they_hold(
        mempool,
        extension_mempool,
        ledger,
        miner,
        timestamp,
        config,
        rules,
        measure,
        state_root,
        execute,
        genesis,
        template,
    );
    mempool.pool_keeps_its_promises();
    selection_prefers_the_best_payer(
        mempool.pool(),
        config.transaction_limit as nat,
        config.min_fee_rate as int,
        Some(template.header.height),
    );
}

/// On an empty chain the block to mine is the genesis block with the difficulty that was asked for.
pub proof fn the_first_block_is_genesis<
    M: Fn(&BlockTemplate) -> BlockSizes,
    E: Fn(&BlockTemplate) -> Result<[u8; 32], LedgerError>,
    X: Fn(&BlockTemplate) -> Result<[u8; 32], LedgerError>,
    G: Fn(Address, u64) -> BlockTemplate,
>(
    mempool: &Mempool,
    extension_mempool: &ExtensionMempool,
    ledger: &Ledger,
    miner: Address,
    timestamp: u64,
    config: MiningConfig,
    rules: BlockRules,
    measure: M,
    state_root: E,
    execute: X,
    genesis: G,
    r: Result<BlockTemplate, ConsensusError>,
)
    requires
        ledger.tip().0 is None,
        candidate_prepared(
            mempool,
            extension_mempool,
            ledger,
            miner,
            timestamp,
            config,
            rules,
            measure,
            state_root,
            execute,
            genesis,
            r,
        ),
    ensures
        r is Ok,
        r->Ok_0.header.difficulty == config.difficulty,
        exists|t: BlockTemplate| #[trigger]
            call_ensures(genesis, (miner, timestamp), t) && {
                let made = r->Ok_0;
                &&& made.transactions@ == t.transactions@
                &&& made.header.height == t.header.height
                &&& made.header.previous_hash == t.header.previous_hash
                &&& made.header.miner_address == t.header.miner_address
                &&& made.header.timestamp == t.header.timestamp
                &&& made.header.nonce == t.header.nonce
                &&& made.header.state_root == t.header.state_root
                &&& made.header.coinbase == t.header.coinbase
            },
{
    let made = r->Ok_0;
    let t = choose|t: BlockTemplate| #[trigger]
        call_ensures(genesis, (miner, timestamp), t) && made@ == t@.with_difficulty(
            config.difficulty,
        );
    assert(made@.header == made.header && t@.header == t.header);
    assert(made@.transactions == made.transactions@ && t@.transactions == t.transactions@);
    assert(call_ensures(genesis, (miner, timestamp), t));
}

/// If a block cannot be prepared on top of the tip, one of the two executions refused it, and the
/// refusal names the rule that this error stands for.
pub proof fn failed_preparations_name_the_refusal<
    M: Fn(&BlockTemplate) -> BlockSizes,
    E: Fn(&BlockTemplate) -> Result<[u8; 32], LedgerError>,
    X: Fn(&BlockTemplate) -> Result<[u8; 32], LedgerError>,
    G: Fn(Address, u64) -> BlockTemplate,
>(
    mempool: &Mempool,
    extension_mempool: &ExtensionMempool,
    ledger: &Ledger,
    miner: Address,
    timestamp: u64,
    config: MiningConfig,
    rules: BlockRules,
    measure: M,
    state_root: E,
    execute: X,
    genesis: G,
    refusal: ConsensusError,
)
    requires
        candidate_prepared(
            mempool,
            extension_mempool,
            ledger,
            miner,
            timestamp,
            config,
            rules,
            measure,
            state_root,
            execute,
            genesis,
            Err::<BlockTemplate, ConsensusError>(refusal),
        ),
    ensures
        ledger.tip().0 is Some,
        exists|t: BlockTemplate, error: LedgerError|
            #![trigger call_ensures(state_root, (&t,), Err::<[u8; 32], LedgerError>(error))]
            #![trigger call_ensures(execute, (&t,), Err::<[u8; 32], LedgerError>(error))]
            (call_ensures(state_root, (&t,), Err::<[u8; 32], LedgerError>(error)) || call_ensures(
                execute,
                (&t,),
                Err::<[u8; 32], LedgerError>(error),
            )) && refusal == consensus_error_of(error),
{
    let best = chosen(
        mempool.pool(),
        ledger.tip().0,
        config.transaction_limit,
        config.min_fee_rate as int,
    );
    let r = Err::<BlockTemplate, ConsensusError>(refusal);
    let pool = extension_mempool.pool();
    let (k, first, full) = choose|
        k: int,
        first: Result<BlockTemplate, LedgerError>,
        full: TemplateModel,
    |
        #![trigger candidate_built(measure, state_root, ledger, miner, timestamp, Nonce(0), rules, best, k, first), prepared(measure, execute, rules, pool, config, first, full, r)]
        candidate_built(
            measure,
            state_root,
            ledger,
            miner,
            timestamp,
            Nonce(0),
            rules,
            best,
            k,
            first,
        ) && prepared(measure, execute, rules, pool, config, first, full, r);
    match first {
        Err(error) => {
            let block = candidate(ledger, miner, timestamp, Nonce(0), rules, best, k);
            let t = choose|t: BlockTemplate| #[trigger]
                call_ensures(state_root, (&t,), Err::<[u8; 32], LedgerError>(error)) && t@
                    == block;
            assert(call_ensures(state_root, (&t,), Err::<[u8; 32], LedgerError>(error)));
        },
        Ok(base) => {
            let runnable = full.with_difficulty(config.difficulty).rooted(zero_bytes());
            let error = choose|error: LedgerError| #[trigger]
                executed(execute, runnable, Err::<[u8; 32], LedgerError>(error)) && refusal
                    == consensus_error_of(error);
            let t = choose|t: BlockTemplate| #[trigger]
                call_ensures(execute, (&t,), Err::<[u8; 32], LedgerError>(error)) && t@
                    == runnable;
            assert(call_ensures(execute, (&t,), Err::<[u8; 32], LedgerError>(error)));
        },
    }
}

} // verus!
