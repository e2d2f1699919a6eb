//! What happened on the chain, and requests for parts of it.
use crate::ids::{Address, Amount, BlockHash, Height, TransactionHash};
use crate::params::FINALITY_DEPTH;
use crate::text::same_text;
use vstd::prelude::*;
use vstd::string::*;

verus! {

/// What an event is about.
#[derive(Clone, Copy, Debug, PartialEq, Eq)]
pub enum ProtocolEventKind {
    /// A miner earned a block's subsidy.
    CoinbasePaid { miner: Address, subsidy: Amount },
    /// Balance moved between accounts.
    Transfer { from: Address, to: Address, amount: Amount, fee: Amount },
    /// Balance became bearer coins.
    QCashWithdrawn { signer: Address, amount: Amount },
    /// Bearer coins became balance.
    QCashDeposited { signer: Address, recipient: Address, amount: Amount },
}

/// Something that happened in a block.
#[derive(Clone, Copy, Debug, PartialEq, Eq)]
pub struct ProtocolEvent {
    pub block_height: Height,
    pub block_hash: BlockHash,
    pub tx_hash: Option<TransactionHash>,
    pub index: u32,
    pub kind: ProtocolEventKind,
}

impl ProtocolEvent {
    /// An event from its parts.
    pub fn new(
        block_height: Height,
        block_hash: BlockHash,
        tx_hash: Option<TransactionHash>,
        index: u32,
        kind: ProtocolEventKind,
    ) -> (r: Self)
        ensures
            r == (ProtocolEvent { block_height, block_hash, tx_hash, index, kind }),
    {
        ProtocolEvent { block_height, block_hash, tx_hash, index, kind }
    }
}

/// The name of a kind of event.
pub open spec fn kind_text(kind: ProtocolEventKind) -> Seq<char> {
    match kind {
        ProtocolEventKind::CoinbasePaid { .. } => "coinbase_paid"@,
        ProtocolEventKind::Transfer { .. } => "transfer"@,
        ProtocolEventKind::QCashWithdrawn { .. } => "qcash_withdrawn"@,
        ProtocolEventKind::QCashDeposited { .. } => "qcash_deposited"@,
    }
}

/// A text names a kind of event.
pub open spec fn is_kind(name: Seq<char>) -> bool {
    name == "coinbase_paid"@ || name == "transfer"@ || name == "qcash_withdrawn"@ || name
        == "qcash_deposited"@
}

/// The name of a kind of event.
pub fn event_kind_name(kind: &ProtocolEventKind) -> (r: &'static str)
    ensures
        r@ == kind_text(*kind),
{
    match kind {
        ProtocolEventKind::CoinbasePaid { .. } => "coinbase_paid",
        ProtocolEventKind::Transfer { .. } => "transfer",
        ProtocolEventKind::QCashWithdrawn { .. } => "qcash_withdrawn",
        ProtocolEventKind::QCashDeposited { .. } => "qcash_deposited",
    }
}

/// An address takes part in an event.
pub open spec fn involves(kind: ProtocolEventKind, address: Address) -> bool {
    match kind {
        ProtocolEventKind::CoinbasePaid { miner, .. } => miner == address,
        ProtocolEventKind::Transfer { from, to, .. } => from == address || to == address,
        ProtocolEventKind::QCashWithdrawn { signer, .. } => signer == address,
        ProtocolEventKind::QCashDeposited { signer, recipient, .. } => signer == address
            || recipient == address,
    }
}

/// Whether an address takes part in an event.
pub fn protocol_event_involves_address(kind: &ProtocolEventKind, address: &Address) -> (r: bool)
    ensures
        r == involves(*kind, *address),
{
    match kind {
        ProtocolEventKind::CoinbasePaid { miner, .. } => miner.same(address),
        ProtocolEventKind::Transfer { from, to, .. } => from.same(address) || to.same(address),
        ProtocolEventKind::QCashWithdrawn { signer, .. } => signer.same(address),
        ProtocolEventKind::QCashDeposited { signer, recipient, .. } => signer.same(address)
            || recipient.same(address),
    }
}

/// The highest final block below a tip, if there is one.
pub fn finalized_event_height(tip: Option<Height>) -> (r: Option<u64>)
    ensures
        r == (match tip {
            Some(height) => if height.0 >= FINALITY_DEPTH {
                Some((height.0 - FINALITY_DEPTH) as u64)
            } else {
                None
            },
            None => None,
        }),
{
    match tip {
        Some(height) => height.0.checked_sub(FINALITY_DEPTH),
        None => None,
    }
}

/// Most events of one answer.
pub const MAX_EVENT_LIMIT: usize = 500;

/// Events of an answer to a request that names no limit.
pub const DEFAULT_EVENT_LIMIT: usize = 100;

/// A request for events.
#[derive(Clone, Debug, Default, PartialEq, Eq)]
pub struct EventQuery {
    pub offset: Option<usize>,
    pub limit: Option<usize>,
    pub kind: Option<String>,
    pub from_height: Option<u64>,
    pub to_height: Option<u64>,
}

impl EventQuery {
    /// How many events the answer skips.
    pub open spec fn skipped(&self) -> usize {
        match self.offset {
            Some(n) => n,
            None => 0,
        }
    }

    /// How many events the answer holds at most.
    pub open spec fn most(&self) -> usize {
        match self.limit {
            Some(n) => n,
            None => DEFAULT_EVENT_LIMIT,
        }
    }

    /// An event is one that the request asks for.
    pub open spec fn wants(&self, event: ProtocolEvent) -> bool {
        &&& self.from_height matches Some(h) ==> h <= event.block_height.0
        &&& self.to_height matches Some(h) ==> event.block_height.0 <= h
        &&& self.kind matches Some(name) ==> name@ == kind_text(event.kind)
    }

    /// Why the request is refused; the limit is looked at first.
    pub open spec fn error(&self) -> Option<Seq<char>> {
        if !(1 <= self.most() <= MAX_EVENT_LIMIT) {
            Some("event_limit_must_be_between_1_and_500"@)
        } else if self.kind matches Some(name) && !is_kind(name@) {
            Some("unknown_event_kind"@)
        } else {
            None
        }
    }
}

/// The events that a request asks for, in their order.
pub open spec fn wanted_events(events: Seq<ProtocolEvent>, query: EventQuery) -> Seq<ProtocolEvent>
    decreases events.len(),
{
    if events.len() == 0 {
        Seq::empty()
    } else {
        let before = wanted_events(events.drop_last(), query);
        if query.wants(events.last()) {
            before.push(events.last())
        } else {
            before
        }
    }
}

/// At most `limit` items of a list, from `offset` on.
pub open spec fn page<T>(list: Seq<T>, offset: nat, limit: nat) -> Seq<T> {
    if offset >= list.len() {
        Seq::empty()
    } else if offset + limit >= list.len() {
        list.skip(offset as int)
    } else {
        list.subrange(offset as int, (offset + limit) as int)
    }
}

/// Two pages in a row are one page of twice the size.
pub proof fn pages_join_up<T>(list: Seq<T>, offset: nat, limit: nat)
    ensures
        page(list, offset, limit) + page(list, offset + limit, limit) == page(
            list,
            offset,
            limit + limit,
        ),
{
    assert(page(list, offset, limit) + page(list, offset + limit, limit) =~= page(
        list,
        offset,
        limit + limit,
    ));
}

/// One event of an answer.
#[derive(Clone, Copy, Debug, PartialEq, Eq)]
pub struct ProtocolEventResponse {
    pub event: ProtocolEvent,
}

/// The answer to a request for events.
#[derive(Clone, Debug, PartialEq, Eq)]
pub struct ProtocolEventListResponse {
    /// How many events were asked for in all.
    pub total: usize,
    pub offset: usize,
    pub limit: usize,
    pub events: Vec<ProtocolEventResponse>,
}

/// The events of an answer.
pub open spec fn listed(list: Seq<ProtocolEventResponse>) -> Seq<ProtocolEvent> {
    Seq::new(list.len(), |i: int| list[i].event)
}

/// The answer to a request for events, or why the request is refused.
pub fn protocol_event_list(events: Vec<ProtocolEvent>, query: EventQuery) -> (r: Result<
    ProtocolEventListResponse,
    &'static str,
>)
    ensures
        match r {
            Ok(answer) => {
                let wanted = wanted_events(events@, query);
                &&& query.error() is None
                &&& answer.total == wanted.len()
                &&& answer.offset == query.skipped()
                &&& answer.limit == query.most()
                &&& listed(answer.events@) == page(
                    wanted,
                    query.skipped() as nat,
                    query.most() as nat,
                )
            },
            Err(error) => query.error() == Some(error@),
        },
{
    let offset: usize = match query.offset {
        Some(n) => n,
        None => 0,
    };
    let limit: usize = match query.limit {
        Some(n) => n,
        None => DEFAULT_EVENT_LIMIT,
    };
    if limit < 1 || limit > MAX_EVENT_LIMIT {
        return Err("event_limit_must_be_between_1_and_500");
    }
    match &query.kind {
        Some(name) => {
            if !(same_text(name.as_str(), "coinbase_paid") || same_text(name.as_str(), "transfer")
                || same_text(name.as_str(), "qcash_withdrawn") || same_text(
                name.as_str(),
                "qcash_deposited",
            )) {
                return Err("unknown_event_kind");
            }
        },
        None => {},
    }
    let mut total: usize = 0;
    let mut page_events: Vec<ProtocolEventResponse> = Vec::new();
    let mut i: usize = 0;
    assert(events@.take(0) =~= Seq::empty());
    assert(listed(page_events@) =~= page(
        wanted_events(events@.take(0), query),
        offset as nat,
        limit as nat,
    ));
    while i < events.len()
        invariant
            i <= events@.len(),
            total <= i,
            limit >= 1,
            ({
                let wanted = wanted_events(events@.take(i as int), query);
                &&& total == wanted.len()
                &&& listed(page_events@) == page(wanted, offset as nat, limit as nat)
            }),
        decreases events@.len() - i,
    {
        let event = events[i];
        let ghost wanted = wanted_events(events@.take(i as int), query);
        let ghost more = wanted_events(events@.take(i + 1), query);
        proof {
            assert(events@.take(i + 1).drop_last() =~= events@.take(i as int));
        }
        let high_enough = match query.from_height {
            Some(h) => h <= event.block_height.0,
            None => true,
        };
        let low_enough = match query.to_height {
            Some(h) => event.block_height.0 <= h,
            None => true,
        };
        let of_kind = match &query.kind {
            Some(name) => same_text(name.as_str(), event_kind_name(&event.kind)),
            None => true,
        };
        if high_enough && low_enough && of_kind {
            let ghost before = page_events@;
            if total >= offset && page_events.len() < limit {
                page_events.push(ProtocolEventResponse { event });
                assert(listed(page_events@) =~= listed(before).push(event));
            }
            assert(more == wanted.push(event));
            assert(listed(before).len() == before.len());
            assert(listed(page_events@) =~= page(more, offset as nat, limit as nat));
            total = total + 1;
        }
        i = i + 1;
    }
    assert(events@.take(i as int) =~= events@);
    Ok(ProtocolEventListResponse { total, offset, limit, events: page_events })
}

/// A request that names neither kind nor heights asks for every event.
pub proof fn open_requests_want_everything(events: Seq<ProtocolEvent>, query: EventQuery)
    requires
        query.kind is None,
        query.from_height is None,
        query.to_height is None,
    ensures
        wanted_events(events, query) == events,
    decreases events.len(),
{
    if events.len() > 0 {
        open_requests_want_everything(events.drop_last(), query);
        assert(events.drop_last().push(events.last()) =~= events);
    } else {
        assert(events =~= Seq::empty());
    }
}

} // verus!
