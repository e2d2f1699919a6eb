//! What a running node decides.
use crate::chain::{BlockError, BlockModel, ConsensusError, LedgerError};
use crate::command::config::ConfigModel;
use crate::gateway::{authority_of, reports_success, without_end_slashes, without_scheme};
use crate::gossip::{broadcast_plan, inbound_only, remembered, successes, BroadcastTarget};
use crate::ids::{Address, Height, Nonce};
use crate::miner::{
    consensus_error_of, hashed, judged, search_ended, unstopped_search_ended, MiningConfig,
    MiningResult, StopAnswers,
};
use crate::mining::{
    miner_rate, must_stop, nonce_after, rate_per_second, reservation, search_config,
    timestamp_after, MinerSettings, MiningStats,
};
use crate::network::answer_laws::{are_the_places, lemma_one_more_place};
use crate::network::message::{InventoryItem, NetworkMessage};
use crate::node::Node;
use crate::service::{
    activity_in, as_millis, first_of, gateway_ask, offered_item, preflight_failure, startup_config,
    time_between, wait_reason_in, NodeActivity, NodeSituation,
};
use crate::sync::peer::{dedupe_keeps_each_once, deduped, SocketAddr};
use crate::template::{BlockTemplate, TemplateModel};
use crate::text::begins_with;
use vstd::prelude::*;

verus! {

/// News is remembered last. Everything that was remembered stays so, in its order, but for the oldest,
/// which leaves when there is no room. What is no news changes nothing.
pub proof fn only_the_oldest_is_forgotten<T>(capacity: int, order: Seq<T>, value: T)
    requires
        capacity > 0,
        order.len() <= capacity,
    ensures
        ({
            let after = remembered(capacity, order, value);
            &&& after.len() <= capacity
            &&& order.contains(value) ==> after == order
            &&& !order.contains(value) ==> after.len() > 0 && after.last() == value
            &&& !order.contains(value) && order.len() < capacity ==> after.len() == order.len() + 1
                && forall|i: int| 0 <= i < order.len() ==> #[trigger] after[i] == order[i]
            &&& !order.contains(value) && order.len() == capacity ==> after.len() == capacity
                && forall|i: int| 0 <= i < capacity - 1 ==> #[trigger] after[i] == order[i + 1]
        }),
{
}

/// A broadcast goes to every outbound peer in order and then to every inbound peer that is no outbound
/// one, in order.
pub proof fn everybody_is_told_in_order(
    outbound: Seq<SocketAddr>,
    inbound: Seq<SocketAddr>,
) -> (places: Seq<int>)
    ensures
        are_the_places(places, inbound.len() as int, |i: int| !outbound.contains(inbound[i])),
        broadcast_plan(outbound, inbound).len() == outbound.len() + places.len(),
        forall|i: int|
            0 <= i < outbound.len() ==> #[trigger] broadcast_plan(outbound, inbound)[i]
                == BroadcastTarget::Outbound(outbound[i]),
        forall|j: int|
            0 <= j < places.len() ==> broadcast_plan(outbound, inbound)[outbound.len() + j]
                == BroadcastTarget::Inbound(inbound[#[trigger] places[j]]),
{
    let places = lemma_inbound_places(outbound, inbound);
    let plan = broadcast_plan(outbound, inbound);
    assert forall|j: int| 0 <= j < places.len() implies plan[outbound.len() + j]
        == BroadcastTarget::Inbound(inbound[#[trigger] places[j]]) by {
        assert(plan[outbound.len() + j] == inbound_only(outbound, inbound)[j]);
    }
    places
}

proof fn lemma_inbound_places(outbound: Seq<SocketAddr>, inbound: Seq<SocketAddr>) -> (places: Seq<
    int,
>)
    ensures
        are_the_places(places, inbound.len() as int, |i: int| !outbound.contains(inbound[i])),
        inbound_only(outbound, inbound).len() == places.len(),
        forall|j: int|
            0 <= j < places.len() ==> inbound_only(outbound, inbound)[j]
                == BroadcastTarget::Inbound(inbound[#[trigger] places[j]]),
    decreases inbound.len(),
{
    if inbound.len() == 0 {
        Seq::empty()
    } else {
        let shorter = inbound.drop_last();
        let before = lemma_inbound_places(outbound, shorter);
        let n = inbound.len() - 1;
        let places = lemma_one_more_place(
            before,
            n,
            |i: int| !outbound.contains(shorter[i]),
            |i: int| !outbound.contains(inbound[i]),
        );
        assert forall|j: int| 0 <= j < places.len() implies inbound_only(outbound, inbound)[j]
            == BroadcastTarget::Inbound(inbound[#[trigger] places[j]]) by {
            if j < before.len() {
                assert(places[j] == before[j]);
                assert(shorter[before[j]] == inbound[before[j]]);
            }
        }
        places
    }
}

/// Each delivery counts once, and each failure not at all.
pub proof fn deliveries_are_counted(outcomes: Seq<bool>)
    ensures
        successes(Seq::empty()) == 0,
        successes(outcomes.push(true)) == successes(outcomes) + 1,
        successes(outcomes.push(false)) == successes(outcomes),
{
    assert(outcomes.push(true).drop_last() =~= outcomes);
    assert(outcomes.push(false).drop_last() =~= outcomes);
}

/// A search tries the start nonce first and then each next one; after the last there is the first
/// again.
pub proof fn nonces_are_tried_one_by_one(config: MiningConfig, i: int)
    requires
        i >= 0,
    ensures
        config.nonce_of(0).0 == config.start_nonce,
        config.nonce_of(i).0 < u64::MAX ==> config.nonce_of(i + 1).0 == config.nonce_of(i).0 + 1,
        config.nonce_of(i).0 == u64::MAX ==> config.nonce_of(i + 1).0 == 0,
        config.max_attempts > 0 ==> config.attempt_limit() == config.max_attempts,
        config.max_attempts == 0 ==> config.attempt_limit() == u64::MAX,
{
}

/// A block that a search found is the one that was searched for but for its nonce, which lies as far
/// above the start nonce as attempts failed. It meets the difficulty unless there is none; all attempts
/// before it did not, and the limit was kept.
pub proof fn found_blocks_are_solved<
    H,
    P: Fn(&BlockTemplate) -> Result<H, ConsensusError>,
    J: Fn(&H, u32) -> bool,
>(
    block: TemplateModel,
    config: MiningConfig,
    pow_hash: P,
    meets: J,
    answers: StopAnswers,
    n: int,
    result: MiningResult,
    attempts: u64,
)
    requires
        search_ended(
            block,
            config,
            pow_hash,
            meets,
            answers,
            n,
            Ok::<(Option<MiningResult>, u64), ConsensusError>((Some(result), attempts)),
        ),
        config.start_nonce + attempts <= u64::MAX,
    ensures
        ({
            let found = result.block;
            &&& found.transactions@ == block.transactions
            &&& found@.qcash_transactions == block.qcash_transactions
            &&& found.header.height == block.header.height
            &&& found.header.previous_hash == block.header.previous_hash
            &&& found.header.miner_address == block.header.miner_address
            &&& found.header.difficulty == block.header.difficulty
            &&& found.header.timestamp == block.header.timestamp
            &&& found.header.state_root == block.header.state_root
            &&& found.header.coinbase == block.header.coinbase
            &&& attempts >= 1
            &&& found.header.nonce.0 == config.start_nonce + attempts - 1
            &&& result.attempts == attempts
            &&& config.max_attempts > 0 ==> attempts <= config.max_attempts
            &&& config.difficulty != 0 ==> exists|t: BlockTemplate, hash: H|
                #![trigger call_ensures(pow_hash, (&t,), Ok::<H, ConsensusError>(hash)), call_ensures(meets, (&hash, config.difficulty), true)]
                call_ensures(pow_hash, (&t,), Ok::<H, ConsensusError>(hash)) && call_ensures(
                    meets,
                    (&hash, config.difficulty),
                    true,
                ) && t@ == found@
            &&& config.difficulty == 0 ==> attempts == 1
        }),
{
    let found = result.block;
    assert(found@.header == found.header && found@.transactions == found.transactions@);
    if config.difficulty != 0 {
        let hash = choose|hash: H| #[trigger]
            hashed(pow_hash, found@, Ok::<H, ConsensusError>(hash)) && call_ensures(
                meets,
                (&hash, config.difficulty),
                true,
            );
        let t = choose|t: BlockTemplate| #[trigger]
            call_ensures(pow_hash, (&t,), Ok::<H, ConsensusError>(hash)) && t@ == found@;
        assert(call_ensures(pow_hash, (&t,), Ok::<H, ConsensusError>(hash)) && call_ensures(
            meets,
            (&hash, config.difficulty),
            true,
        ));
    }
}

/// The errors of the chain that name a consensus rule stand for that rule, and all others for a wrong
/// state root.
pub proof fn chain_errors_name_their_rule(
    rule: ConsensusError,
    fault: BlockError,
    error: LedgerError,
)
    ensures
        consensus_error_of(LedgerError::InvalidConsensus(rule)) == rule,
        consensus_error_of(LedgerError::InvalidBlock(fault)) == ConsensusError::InvalidBlock(fault),
        consensus_error_of(error) == ConsensusError::InvalidHeight ==> error
            == LedgerError::InvalidBlockHeight || error == LedgerError::InvalidConsensus(
            ConsensusError::InvalidHeight,
        ),
        consensus_error_of(LedgerError::InvalidBlockHeight) == ConsensusError::InvalidHeight,
        consensus_error_of(LedgerError::InvalidPreviousHash)
            == ConsensusError::InvalidPreviousHash,
        consensus_error_of(LedgerError::InvalidParent) == ConsensusError::InvalidPreviousHash,
        consensus_error_of(LedgerError::InvalidTimestamp) == ConsensusError::InvalidTimestamp,
        error is AccountNotFound || error is InvalidState || error is InvalidStateRoot
            || error is Rejected ==> consensus_error_of(error) == ConsensusError::InvalidBlock(
            BlockError::InvalidStateRoot,
        ),
{
}

/// A candidate is not older than now and younger than its parent, and no younger than either asks for.
pub proof fn candidates_are_younger_than_their_parent(
    chain: Map<Height, BlockModel>,
    tip: Option<Height>,
    now: u64,
)
    ensures
        ({
            let time = timestamp_after(chain, tip, now);
            let known = tip is Some && chain.contains_key(tip->Some_0);
            let parent = chain[tip->Some_0].header.timestamp;
            &&& time >= now
            &&& !known ==> time == now
            &&& known && parent < u64::MAX ==> time > parent
            &&& known && parent < now ==> time == now
            &&& known && now <= parent < u64::MAX ==> time == parent + 1
        }),
{
}

/// Attempts per second are attempts over time, rounded down; no time counts as a nanosecond.
pub proof fn hash_rates_are_attempts_over_time(attempts: u64, nanos: u128)
    ensures
        ({
            let rate = rate_per_second(attempts, nanos);
            &&& 0 <= rate <= u64::MAX
            &&& nanos > 0 ==> rate * nanos <= attempts * 1_000_000_000
            &&& nanos > 0 && rate < u64::MAX ==> attempts * 1_000_000_000 < (rate + 1) * nanos
            &&& nanos == 0 ==> rate == rate_per_second(attempts, 1)
        }),
{
    let work = attempts * 1_000_000_000;
    let time = if nanos < 1 {
        1
    } else {
        nanos as int
    };
    let q = work / time;
    assert(q >= 0 && q * time <= work && work < (q + 1) * time) by (nonlinear_arith)
        requires
            time > 0,
            work >= 0,
            q == work / time,
    ;
    if q > u64::MAX {
        assert(u64::MAX * time <= q * time) by (nonlinear_arith)
            requires
                q > u64::MAX,
                time > 0,
        ;
    }
}

/// Setting nonces aside moves on by as many as a search may try; one without a limit takes all of
/// them. What is tried next starts there.
pub proof fn nonces_are_set_aside(nonce: u64, mine_attempts: u64)
    ensures
        mine_attempts > 0 ==> reservation(mine_attempts) == mine_attempts,
        reservation(0) == u64::MAX,
        nonce + mine_attempts <= u64::MAX ==> nonce_after(nonce, mine_attempts as int) == nonce
            + mine_attempts,
        nonce + mine_attempts > u64::MAX ==> nonce_after(nonce, mine_attempts as int) == nonce
            + mine_attempts - u64::MAX - 1,
{
}

/// A search stops for a shutdown, and one without a limit also when its interval is over; one with a
/// limit goes on whatever the clock says.
pub proof fn searches_stop_for_two_reasons(
    shutdown_requested: bool,
    mine_attempts: u64,
    started: u64,
    mine_interval: u64,
    now: u64,
)
    ensures
        shutdown_requested ==> must_stop(
            shutdown_requested,
            mine_attempts,
            started,
            mine_interval,
            now,
        ),
        !shutdown_requested && mine_attempts > 0 ==> !must_stop(
            shutdown_requested,
            mine_attempts,
            started,
            mine_interval,
            now,
        ),
        !shutdown_requested && mine_attempts == 0 && started + mine_interval <= u64::MAX
            && started <= now ==> (must_stop(
            shutdown_requested,
            mine_attempts,
            started,
            mine_interval,
            now,
        ) <==> now - started >= mine_interval),
{
}

/// A round of mining packs for the miner's own rate where it has one, tries from the first nonce that
/// is not set aside, and keeps the limits that the miner set.
pub proof fn rounds_follow_their_settings<V>(
    node: &Node<V>,
    stats: MiningStats,
    settings: MinerSettings,
    difficulty: u32,
    now: u64,
)
    ensures
        ({
            let config = search_config(node, stats, settings, difficulty, now);
            &&& config.difficulty == difficulty
            &&& config.start_nonce == stats.next_nonce
            &&& config.max_attempts == settings.mine_attempts
            &&& config.transaction_limit == settings.transaction_limit
            &&& settings.min_fee_rate is Some ==> config.min_fee_rate
                == settings.min_fee_rate->Some_0
        }),
{
}

/// A node without peers waits for those of its gateway; it syncs before it mines; it mines only where
/// it is told to and something is pending; and it serves its peers only when it has nothing else to do.
pub proof fn first_things_come_first(s: NodeSituation)
    ensures
        ({
            let lonely = s.peer_count == 0 && s.has_gateway;
            let behind = s.pending_sync || s.needs_handshake || s.peer_ahead;
            &&& activity_in(s) == NodeActivity::WaitingForPeers <==> lonely
            &&& activity_in(s) == NodeActivity::Mining <==> !lonely && !behind && s.mining
                && s.mempool_len > 0
            &&& activity_in(s) == NodeActivity::WaitingForTransactions <==> !lonely && !behind
                && s.mining && s.mempool_len == 0
            &&& activity_in(s) == NodeActivity::Syncing <==> !lonely && (behind || !s.mining
                && s.peer_count > 0)
            &&& activity_in(s) == NodeActivity::ServingPeers <==> !lonely && !behind && !s.mining
                && s.peer_count == 0
            &&& wait_reason_in(s) is Some <==> behind
            &&& s.pending_sync ==> wait_reason_in(s) == Some("sync_pending"@)
            &&& !s.pending_sync && s.needs_handshake ==> wait_reason_in(s) == Some(
                "handshake_pending"@,
            )
            &&& !s.pending_sync && !s.needs_handshake && s.peer_ahead ==> wait_reason_in(s) == Some(
                "peer_ahead"@,
            )
        }),
{
}

/// The time between two moments and the earlier one add up to the later; there is no time back.
pub proof fn time_adds_up(from: u64, to: u64, secs: u64)
    ensures
        from <= to ==> from + time_between(from, to) == to,
        from > to ==> time_between(from, to) == 0,
        secs * 1_000 <= u64::MAX ==> as_millis(secs) == secs * 1_000,
        secs * 1_000 > u64::MAX ==> as_millis(secs) == u64::MAX,
{
}

/// A start fails exactly for a shutdown file, an unknown difficulty, or a miner's key that belongs to
/// another address.
pub proof fn starts_fail_for_three_reasons(
    shutdown_file: Option<Seq<char>>,
    difficulty_error: Option<Seq<char>>,
    mine: bool,
    derived: Option<Address>,
    miner: Address,
    miner_text: Seq<char>,
)
    ensures
        preflight_failure(shutdown_file, difficulty_error, mine, derived, miner, miner_text)
            is Some <==> shutdown_file is Some || difficulty_error is Some || mine
            && derived is Some && derived->Some_0 != miner,
{
}

/// A node starts with the configured peers and then those of the peers file, each once and in their
/// order, as many as the limit allows; with each of its own addresses once; and with everything else as
/// configured.
pub proof fn startup_keeps_the_first_peers(config: ConfigModel, loaded: Seq<SocketAddr>)
    ensures
        ({
            let after = startup_config(config, loaded);
            let all = config.peers + loaded;
            &&& after.peers.len() <= config.max_peers
            &&& after.peers.no_duplicates()
            &&& forall|addr: SocketAddr| #[trigger]
                after.peers.contains(addr) ==> all.contains(addr)
            &&& after.peers.len() < config.max_peers ==> forall|addr: SocketAddr| #[trigger]
                all.contains(addr) ==> after.peers.contains(addr)
            &&& forall|i: int|
                0 <= i < after.peers.len() ==> #[trigger] after.peers[i] == deduped(all)[i]
            &&& forall|addr: SocketAddr| #[trigger]
                after.listen_addrs.contains(addr) <==> config.listen_addrs.contains(addr)
            &&& forall|addr: SocketAddr| #[trigger]
                after.public_addrs.contains(addr) <==> config.public_addrs.contains(addr)
            &&& after == (ConfigModel {
                peers: after.peers,
                listen_addrs: after.listen_addrs,
                public_addrs: after.public_addrs,
                ..config
            })
        }),
{
    let all = config.peers + loaded;
    let after = startup_config(config, loaded);
    dedupe_keeps_each_once(all);
    dedupe_keeps_each_once(config.listen_addrs);
    dedupe_keeps_each_once(config.public_addrs);
    assert forall|addr: SocketAddr| #[trigger] after.peers.contains(addr) implies all.contains(
        addr,
    ) by {
        let i = after.peers.index_of(addr);
        assert(deduped(all)[i] == addr);
        assert(deduped(all).contains(addr));
    }
    if after.peers.len() < config.max_peers {
        assert(after.peers == deduped(all));
        assert forall|addr: SocketAddr| #[trigger] all.contains(addr) implies after.peers.contains(
            addr,
        ) by {
            assert(deduped(all).contains(addr));
        }
    }
}

/// Blocks and transactions are offered under their own hashes; nothing else is offered.
pub proof fn offers_carry_their_hash(message: NetworkMessage)
    ensures
        message is Block ==> offered_item(message) == Some(
            InventoryItem::Block(message->Block_0.hash),
        ),
        message is Transaction && message->Transaction_0 is Transfer ==> offered_item(message)
            == Some(InventoryItem::Transaction(message->Transaction_0->Transfer_0.hash)),
        message is Transaction && message->Transaction_0 is QCash ==> offered_item(message) == Some(
            InventoryItem::Transaction(message->Transaction_0->QCash_0.record.hash),
        ),
        !(message is Block) && !(message is Transaction) ==> offered_item(message) is None,
{
}

/// The gateway is asked for as many peers as are free, at most 32, and told to leave out the first
/// public address, or the first listen address where there is none.
pub proof fn the_gateway_is_asked_for_what_is_free(
    max_peers: usize,
    known: usize,
    public_addrs: Seq<SocketAddr>,
    listen_addrs: Seq<SocketAddr>,
)
    ensures
        known >= max_peers ==> gateway_ask(max_peers, known) == 0,
        known < max_peers && max_peers - known <= 32 ==> known + gateway_ask(max_peers, known)
            == max_peers,
        known < max_peers && max_peers - known > 32 ==> gateway_ask(max_peers, known) == 32,
        public_addrs.len() > 0 ==> first_of(public_addrs, listen_addrs) == Some(public_addrs[0]),
        public_addrs.len() == 0 && listen_addrs.len() > 0 ==> first_of(public_addrs, listen_addrs)
            == Some(listen_addrs[0]),
        public_addrs.len() == 0 && listen_addrs.len() == 0 ==> first_of(
            public_addrs,
            listen_addrs,
        ) is None,
{
}

proof fn lemma_end_slashes(text: Seq<char>)
    ensures
        ({
            let r = without_end_slashes(text);
            &&& r.len() <= text.len()
            &&& r == text.take(r.len() as int)
            &&& r.len() == 0 || r.last() != '/'
            &&& forall|i: int| r.len() <= i < text.len() ==> #[trigger] text[i] == '/'
        }),
    decreases text.len(),
{
    if text.len() > 0 && text.last() == '/' {
        let shorter = text.drop_last();
        lemma_end_slashes(shorter);
        let r = without_end_slashes(shorter);
        assert(shorter.take(r.len() as int) =~= text.take(r.len() as int));
        assert forall|i: int| r.len() <= i < text.len() implies #[trigger] text[i] == '/' by {
            if i < shorter.len() {
                assert(shorter[i] == '/');
            }
        }
    } else {
        assert(text =~= text.take(text.len() as int));
    }
}

/// The host and port of a gateway are what stands behind the scheme, where there is one, without the
/// slashes at the end, and nothing else is left out.
pub proof fn gateways_are_named_behind_the_scheme(url: Seq<char>)
    ensures
        ({
            let r = authority_of(url);
            let from = if begins_with(url, "http://"@) {
                7int
            } else if begins_with(url, "https://"@) {
                8int
            } else {
                0int
            };
            &&& from + r.len() <= url.len()
            &&& r == url.subrange(from, from + r.len())
            &&& r.len() == 0 || r.last() != '/'
            &&& forall|i: int| from + r.len() <= i < url.len() ==> #[trigger] url[i] == '/'
        }),
{
    reveal_strlit("http://");
    reveal_strlit("https://");
    let rest = without_scheme(url);
    lemma_end_slashes(rest);
    let r = authority_of(url);
    let from = url.len() - rest.len();
    assert(rest =~= url.skip(from));
    assert(r =~= url.subrange(from, from + r.len()));
    assert forall|i: int| from + r.len() <= i < url.len() implies #[trigger] url[i] == '/' by {
        assert(rest[i - from] == '/');
    }
}

/// A nonce was tried and its hash did not meet the difficulty.
pub open spec fn tried_in_vain<
    H,
    P: Fn(&BlockTemplate) -> Result<H, ConsensusError>,
    J: Fn(&H, u32) -> bool,
>(block: TemplateModel, config: MiningConfig, pow_hash: P, meets: J, nonce: u64) -> bool {
    exists|t: BlockTemplate, hash: H|
        #![trigger call_ensures(pow_hash, (&t,), Ok::<H, ConsensusError>(hash)), call_ensures(meets, (&hash, config.difficulty), false)]
        call_ensures(pow_hash, (&t,), Ok::<H, ConsensusError>(hash)) && call_ensures(
            meets,
            (&hash, config.difficulty),
            false,
        ) && t.header.nonce.0 == nonce && t.transactions@ == block.transactions
            && t.header.previous_hash == block.header.previous_hash
}

proof fn lemma_tried_in_vain<
    H,
    P: Fn(&BlockTemplate) -> Result<H, ConsensusError>,
    J: Fn(&H, u32) -> bool,
>(block: TemplateModel, config: MiningConfig, pow_hash: P, meets: J, nonce: u64)
    requires
        judged(pow_hash, meets, block.with_nonce(Nonce(nonce)), config.difficulty, false),
    ensures
        tried_in_vain(block, config, pow_hash, meets, nonce),
{
    let tried = block.with_nonce(Nonce(nonce));
    let hash = choose|hash: H| #[trigger]
        hashed(pow_hash, tried, Ok::<H, ConsensusError>(hash)) && call_ensures(
            meets,
            (&hash, config.difficulty),
            false,
        );
    let t = choose|t: BlockTemplate| #[trigger]
        call_ensures(pow_hash, (&t,), Ok::<H, ConsensusError>(hash)) && t@ == tried;
    assert(t@.header == t.header && t@.transactions == t.transactions@);
    assert(call_ensures(pow_hash, (&t,), Ok::<H, ConsensusError>(hash)) && call_ensures(
        meets,
        (&hash, config.difficulty),
        false,
    ));
}

/// A search that ends without a block has tried every nonce from the start on in vain, as many as it
/// reports; that is as many as it was allowed, unless it was told to stop on one of its occasions.
pub proof fn searches_without_a_block_tried_in_vain<
    H,
    P: Fn(&BlockTemplate) -> Result<H, ConsensusError>,
    J: Fn(&H, u32) -> bool,
>(
    block: TemplateModel,
    config: MiningConfig,
    pow_hash: P,
    meets: J,
    answers: StopAnswers,
    n: int,
    attempts: u64,
)
    requires
        search_ended(
            block,
            config,
            pow_hash,
            meets,
            answers,
            n,
            Ok::<(Option<MiningResult>, u64), ConsensusError>((None, attempts)),
        ),
        config.start_nonce + attempts <= u64::MAX,
    ensures
        config.max_attempts > 0 ==> attempts <= config.max_attempts,
        forall|nonce: u64|
            config.start_nonce <= nonce < config.start_nonce + attempts ==> #[trigger] tried_in_vain(
                block,
                config,
                pow_hash,
                meets,
                nonce,
            ),
        attempts > 0 ==> config.difficulty != 0,
        config.max_attempts > 0 && attempts < config.max_attempts ==> attempts % 1024 == 0
            && answers(attempts, true),
        config.max_attempts == 0 && attempts < u64::MAX ==> attempts % 1024 == 0 && answers(
            attempts,
            true,
        ),
{
    assert forall|nonce: u64|
        config.start_nonce <= nonce < config.start_nonce + attempts implies #[trigger] tried_in_vain(
        block,
        config,
        pow_hash,
        meets,
        nonce,
    ) by {
        let i = nonce - config.start_nonce;
        assert(config.nonce_of(i) == Nonce(nonce));
        lemma_tried_in_vain(block, config, pow_hash, meets, nonce);
    }
}

/// A search that nothing stops ends without a block only when it has tried, in vain, every nonce that it
/// was allowed. A block that it finds is the searched one but for its nonce, and meets the difficulty
/// unless there is none.
pub proof fn unstopped_searches_use_their_attempts_up<
    H,
    P: Fn(&BlockTemplate) -> Result<H, ConsensusError>,
    J: Fn(&H, u32) -> bool,
>(
    block: TemplateModel,
    config: MiningConfig,
    pow_hash: P,
    meets: J,
    n: int,
    r: Result<Option<MiningResult>, ConsensusError>,
)
    requires
        unstopped_search_ended(block, config, pow_hash, meets, n, r),
        config.max_attempts > 0,
        config.start_nonce + config.max_attempts <= u64::MAX,
    ensures
        r is Ok && r->Ok_0 is None ==> forall|nonce: u64|
            config.start_nonce <= nonce < config.start_nonce + config.max_attempts
                ==> #[trigger] tried_in_vain(block, config, pow_hash, meets, nonce),
        r is Ok && r->Ok_0 is Some ==> {
            let found = r->Ok_0->Some_0;
            &&& 1 <= found.attempts <= config.max_attempts
            &&& found.block.header.nonce.0 == config.start_nonce + found.attempts - 1
            &&& found.block.transactions@ == block.transactions
            &&& found.block.header.previous_hash == block.header.previous_hash
            &&& found.block.header.state_root == block.header.state_root
            &&& found.block.header.coinbase == block.header.coinbase
            &&& config.difficulty != 0 ==> judged(
                pow_hash,
                meets,
                found.block@,
                config.difficulty,
                true,
            )
            &&& forall|nonce: u64|
                config.start_nonce <= nonce < found.block.header.nonce.0
                    ==> #[trigger] tried_in_vain(block, config, pow_hash, meets, nonce)
        },
{
    assert forall|nonce: u64|
        config.start_nonce <= nonce < config.start_nonce + n implies #[trigger] tried_in_vain(
        block,
        config,
        pow_hash,
        meets,
        nonce,
    ) by {
        let i = nonce - config.start_nonce;
        assert(config.nonce_of(i) == Nonce(nonce));
        lemma_tried_in_vain(block, config, pow_hash, meets, nonce);
    }
    if r is Ok && r->Ok_0 is Some {
        let found = r->Ok_0->Some_0;
        assert(found.block@.header == found.block.header && found.block@.transactions
            == found.block.transactions@);
        assert(config.nonce_of(n) == Nonce((config.start_nonce + n) as u64));
    }
}

/// A miner packs for its own rate where it has one, and for the market rate where it has none.
pub proof fn miners_go_by_their_own_rate(own: u64, market: int)
    requires
        0 <= market <= u64::MAX,
    ensures
        miner_rate(Some(own), market) == own,
        miner_rate(None, market) == market,
{
}

/// An answer reports success exactly if its first line starts with one of the two codes for it.
pub proof fn success_is_told_by_the_code(head: Seq<char>)
    ensures
        reports_success(head) <==> head.len() >= 12 && head.take(9) == "HTTP/1.1 "@ && head[9] == '2'
            && head[10] == '0' && (head[11] == '0' || head[11] == '1'),
{
    reveal_strlit("HTTP/1.1 200");
    reveal_strlit("HTTP/1.1 201");
    reveal_strlit("HTTP/1.1 ");
    if head.len() >= 12 {
        let code = head.subrange(0, 12);
        assert(code.take(9) =~= head.take(9));
        assert(code[9] == head[9] && code[10] == head[10] && code[11] == head[11]);
        assert("HTTP/1.1 200"@.take(9) =~= "HTTP/1.1 "@);
        assert("HTTP/1.1 201"@.take(9) =~= "HTTP/1.1 "@);
        if head.take(9) == "HTTP/1.1 "@ && head[9] == '2' && head[10] == '0' {
            assert forall|i: int| 0 <= i < 9 implies code[i] == "HTTP/1.1 200"@[i] && code[i]
                == "HTTP/1.1 201"@[i] by {
                assert(code[i] == head.take(9)[i]);
                assert("HTTP/1.1 200"@[i] == "HTTP/1.1 200"@.take(9)[i]);
                assert("HTTP/1.1 201"@[i] == "HTTP/1.1 201"@.take(9)[i]);
            }
            if head[11] == '0' {
                assert(code =~= "HTTP/1.1 200"@);
            }
            if head[11] == '1' {
                assert(code =~= "HTTP/1.1 201"@);
            }
        }
    }
}

} // verus!
