//! One round of mining: what to search, where to start, and what becomes of the result.
use crate::chain::{BlockModel, BlockSizes, ConsensusError, Ledger, LedgerError};
use crate::ids::{Address, BlockHash, Height};
use crate::mempool::candidate::chosen;
use crate::mempool::policy::{bytes_unexpired, going_rate};
use crate::mempool::pool::unexpired;
use crate::miner::{
    answers_of, candidate_prepared, hashed, judged, lemma_more_answers,
    mine_prepared_block_until_with_attempts, prepare_candidate_block, search_ended,
    searches_obey_a_request_to_stop, MiningConfig, MiningResult, StopAnswers, STOP_CHECK_INTERVAL,
};
use crate::node::Node;
use crate::template::{transfer_fees, BlockRules, BlockTemplate, TemplateModel};
use vstd::prelude::*;

verus! {

/// Nonces that a search without a limit sets aside.
pub const UNLIMITED_MINE_NONCE_RESERVATION: u64 = u64::MAX;

/// What is known of the last search, and the first nonce that no search has set aside.
#[derive(Clone, Copy, Debug, PartialEq, Eq, Structural)]
pub struct MiningStats {
    pub last_hashrate_hps: u64,
    pub last_attempts: u64,
    pub next_nonce: u64,
}

impl Default for MiningStats {
    fn default() -> (r: Self)
        ensures
            r == (MiningStats { last_hashrate_hps: 0, last_attempts: 0, next_nonce: 0 }),
    {
        MiningStats { last_hashrate_hps: 0, last_attempts: 0, next_nonce: 0 }
    }
}

/// The number of nonces that a search sets aside.
pub open spec fn reservation(mine_attempts: u64) -> u64 {
    if mine_attempts == 0 {
        UNLIMITED_MINE_NONCE_RESERVATION
    } else {
        mine_attempts
    }
}

/// The number of nonces that a search sets aside.
pub fn nonce_reservation(mine_attempts: u64) -> (r: u64)
    ensures
        r == reservation(mine_attempts),
{
    if mine_attempts == 0 {
        UNLIMITED_MINE_NONCE_RESERVATION
    } else {
        mine_attempts
    }
}

/// A nonce some steps on; nonces wrap around.
pub open spec fn nonce_after(nonce: u64, steps: int) -> u64 {
    ((nonce + steps) % 0x1_0000_0000_0000_0000) as u64
}

/// Attempts per second, from attempts and nanoseconds.
pub open spec fn rate_per_second(attempts: u64, nanos: u128) -> int {
    let time = if nanos < 1 {
        1
    } else {
        nanos as int
    };
    let rate = attempts * 1_000_000_000 / time;
    if rate > u64::MAX {
        u64::MAX as int
    } else {
        rate
    }
}

impl MiningStats {
    /// Records a search.
    pub fn update_stats(&mut self, attempts: u64, elapsed_nanos: u128)
        ensures
            *final(self) == (MiningStats {
                last_hashrate_hps: rate_per_second(attempts, elapsed_nanos) as u64,
                last_attempts: attempts,
                ..*old(self)
            }),
    {
        let time: u128 = if elapsed_nanos < 1 {
            1
        } else {
            elapsed_nanos
        };
        let rate: u128 = (attempts as u128) * 1_000_000_000 / time;
        proof {
            assert(rate >= 0);
        }
        self.last_hashrate_hps = if rate > u64::MAX as u128 {
            u64::MAX
        } else {
            rate as u64
        };
        self.last_attempts = attempts;
    }

    /// Sets the nonces of a search aside and says which is the first.
    pub fn reserve_nonces(&mut self, mine_attempts: u64) -> (start: u64)
        ensures
            start == old(self).next_nonce,
            *final(self) == (MiningStats {
                next_nonce: nonce_after(
                    old(self).next_nonce,
                    reservation(mine_attempts) as int,
                ),
                ..*old(self)
            }),
    {
        let start: u64 = self.next_nonce;
        self.next_nonce = start.wrapping_add(nonce_reservation(mine_attempts));
        start
    }
}

/// Two limited searches in a row never try the same nonce, as long as together they do not try more
/// nonces than there are.
pub proof fn searches_do_not_overlap(
    start: u64,
    first_attempts: u64,
    second_attempts: u64,
    i: int,
    j: int,
)
    requires
        first_attempts > 0,
        second_attempts > 0,
        first_attempts + second_attempts <= 0x1_0000_0000_0000_0000,
        0 <= i < first_attempts,
        0 <= j < second_attempts,
    ensures
        nonce_after(start, i) != nonce_after(
            nonce_after(start, reservation(first_attempts) as int),
            j,
        ),
{
}

/// The time of a candidate: later than its parent.
pub open spec fn timestamp_after(
    chain: Map<Height, BlockModel>,
    tip: Option<Height>,
    now: u64,
) -> u64 {
    match tip {
        Some(height) => if chain.contains_key(height) {
            let next = if chain[height].header.timestamp < u64::MAX {
                (chain[height].header.timestamp + 1) as u64
            } else {
                u64::MAX
            };
            if next > now {
                next
            } else {
                now
            }
        } else {
            now
        },
        None => now,
    }
}

/// The time of a candidate: now, or one second after the tip if that is later.
pub fn candidate_timestamp(ledger: &Ledger, now: u64) -> (r: u64)
    requires
        ledger.wf(),
    ensures
        r == timestamp_after(ledger.block_map(), ledger.tip().0, now),
{
    let tip_height = match ledger.tip_height() {
        Some(height) => height,
        None => {
            return now;
        },
    };
    match ledger.block(&tip_height) {
        Some(tip) => {
            assert(tip@.header == tip.header);
            let next: u64 = tip.header.timestamp.saturating_add(1);
            if next > now {
                next
            } else {
                now
            }
        },
        None => now,
    }
}

/// The least fee rate that a miner packs: its own, or the market rate.
pub open spec fn miner_rate(own: Option<u64>, market: int) -> u64 {
    match own {
        Some(rate) => rate,
        None => market as u64,
    }
}

/// Who mines, for which fee, and for how long.
#[derive(Clone, Copy, Debug, PartialEq, Eq)]
pub struct MinerSettings {
    pub address: Address,
    pub min_fee_rate: Option<u64>,
    pub mine_attempts: u64,
    pub transaction_limit: usize,
}

/// The search that a round of mining sets up.
pub open spec fn search_config<V>(
    before: &Node<V>,
    stats: MiningStats,
    settings: MinerSettings,
    difficulty: u32,
    now: u64,
) -> MiningConfig {
    let pool = unexpired(before.mempool.pool(), now);
    MiningConfig {
        difficulty,
        start_nonce: stats.next_nonce,
        max_attempts: settings.mine_attempts,
        transaction_limit: settings.transaction_limit,
        min_fee_rate: miner_rate(
            settings.min_fee_rate,
            going_rate(
                before.mempool.settings(),
                bytes_unexpired(before.mempool.pool(), before.mempool.bytes(), now),
                pool.len() as int,
            ),
        ),
    }
}

/// Sets up a round of mining: expired transactions leave the mempool, a candidate is prepared, and
/// nonces are set aside for it. Nothing is set aside if no candidate can be prepared; the fees of the
/// candidate are `None` if they do not fit.
pub fn begin_mining<
    V,
    M: Fn(&BlockTemplate) -> BlockSizes,
    E: Fn(&BlockTemplate) -> Result<[u8; 32], LedgerError>,
    X: Fn(&BlockTemplate) -> Result<[u8; 32], LedgerError>,
    G: Fn(Address, u64) -> BlockTemplate,
>(
    node: &mut Node<V>,
    stats: &mut MiningStats,
    settings: &MinerSettings,
    difficulty: u32,
    now: u64,
    rules: &BlockRules,
    measure: &M,
    state_root: E,
    execute: X,
    genesis: G,
) -> (r: Option<Result<(BlockTemplate, MiningConfig), ConsensusError>>)
    requires
        old(node).wf(),
        forall|t: BlockTemplate| #[trigger] call_requires(measure, (&t,)),
        forall|t: BlockTemplate| #[trigger] call_requires(state_root, (&t,)),
        forall|t: BlockTemplate| #[trigger] call_requires(execute, (&t,)),
        forall|a: Address, t: u64| #[trigger] call_requires(genesis, (a, t)),
    ensures
        final(node).wf(),
        final(node).ledger == old(node).ledger,
        final(node).cache == old(node).cache,
        final(node).extension_mempool == old(node).extension_mempool,
        final(node).mempool.settings() == old(node).mempool.settings(),
        final(node).mempool.pool() == unexpired(old(node).mempool.pool(), now),
        ({
            let config = search_config(old(node), *old(stats), *settings, difficulty, now);
            let fees = transfer_fees(
                chosen(
                    final(node).mempool.pool(),
                    final(node).ledger.tip().0,
                    config.transaction_limit,
                    config.min_fee_rate as int,
                ),
            );
            match r {
                None => final(node).ledger.tip().0 is Some && fees > u64::MAX && *final(stats)
                    == *old(stats),
                Some(outcome) => {
                    &&& final(node).ledger.tip().0 is None || fees <= u64::MAX
                    &&& candidate_prepared(
                        &final(node).mempool,
                        &final(node).extension_mempool,
                        &final(node).ledger,
                        settings.address,
                        timestamp_after(
                            final(node).ledger.block_map(),
                            final(node).ledger.tip().0,
                            now,
                        ),
                        config,
                        *rules,
                        measure,
                        state_root,
                        execute,
                        genesis,
                        match outcome {
                            Ok((block, _)) => Ok::<BlockTemplate, ConsensusError>(block),
                            Err(error) => Err::<BlockTemplate, ConsensusError>(error),
                        },
                    )
                    &&& match outcome {
                        Ok((_, search)) => search == config && *final(stats) == (MiningStats {
                            next_nonce: nonce_after(
                                old(stats).next_nonce,
                                reservation(settings.mine_attempts) as int,
                            ),
                            ..*old(stats)
                        }),
                        Err(_) => *final(stats) == *old(stats),
                    }
                },
            }
        }),
{
    let ghost before = *node;
    let _ = node.mempool.prune_expired(now);
    let timestamp: u64 = candidate_timestamp(&node.ledger, now);
    let min_fee_rate: u64 = match settings.min_fee_rate {
        Some(rate) => rate,
        None => node.mempool.dynamic_market_fee_rate(),
    };
    let config = MiningConfig {
        difficulty,
        start_nonce: stats.next_nonce,
        max_attempts: settings.mine_attempts,
        transaction_limit: settings.transaction_limit,
        min_fee_rate,
    };
    assert(config == search_config(&before, *old(stats), *settings, difficulty, now));
    if node.ledger.tip_height().is_some() {
        let fees = node.mempool.candidate_fees(
            &node.ledger,
            config.transaction_limit,
            config.min_fee_rate,
        );
        if fees.is_none() {
            return None;
        }
    }
    let candidate = prepare_candidate_block(
        &node.mempool,
        &node.extension_mempool,
        &node.ledger,
        settings.address,
        timestamp,
        config,
        rules,
        measure,
        state_root,
        execute,
        genesis,
    );
    match candidate {
        Ok(block) => {
            let _ = stats.reserve_nonces(settings.mine_attempts);
            Some(Ok((block, config)))
        },
        Err(error) => Some(Err(error)),
    }
}

/// Whether a solved block still extends the chain: the chain is still empty under a genesis block,
/// or its tip is still the parent.
pub fn extends_tip(mining_genesis: bool, parent: &BlockHash, tip: Option<BlockHash>) -> (r: bool)
    ensures
        r == (if mining_genesis {
            tip is None
        } else {
            tip == Some(*parent)
        }),
{
    match tip {
        None => mining_genesis,
        Some(hash) => !mining_genesis && hash.same(parent),
    }
}

/// How a search without a result ended.
pub open spec fn empty_search_text(stopped: bool, mine_attempts: u64) -> Seq<char> {
    if stopped {
        "stopped"@
    } else if mine_attempts == 0 {
        "rebuild"@
    } else {
        "exhausted"@
    }
}

/// How a search without a result ended: it was stopped, its candidate is to be built anew, or its
/// attempts are used up.
pub fn empty_search_result(stopped: bool, mine_attempts: u64) -> (r: &'static str)
    ensures
        r@ == empty_search_text(stopped, mine_attempts),
{
    if stopped {
        "stopped"
    } else if mine_attempts == 0 {
        "rebuild"
    } else {
        "exhausted"
    }
}

/// The time at which the candidate of a search without a limit is built anew. An interval too long to
/// be added is none.
pub open spec fn rebuild_time(started: u64, mine_interval: u64) -> int {
    if started + mine_interval > u64::MAX {
        started as int
    } else {
        started + mine_interval
    }
}

/// A search has to stop: the node shuts down, or a search without a limit has reached the time at
/// which its candidate is built anew.
pub open spec fn must_stop(
    shutdown_requested: bool,
    mine_attempts: u64,
    started: u64,
    mine_interval: u64,
    now: u64,
) -> bool {
    shutdown_requested || (mine_attempts == 0 && now >= rebuild_time(started, mine_interval))
}

/// Whether a search has to stop.
pub fn should_stop(
    shutdown_requested: bool,
    mine_attempts: u64,
    started: u64,
    mine_interval: u64,
    now: u64,
) -> (r: bool)
    ensures
        r == must_stop(shutdown_requested, mine_attempts, started, mine_interval, now),
{
    if shutdown_requested {
        return true;
    }
    if mine_attempts != 0 {
        return false;
    }
    let deadline: u64 = match started.checked_add(mine_interval) {
        Some(deadline) => deadline,
        None => started,
    };
    now >= deadline
}

/// What a search is told when `look` reads, at an attempt, whether a shutdown is requested and what
/// time it is.
pub open spec fn clock_answers<L: Fn(u64) -> (bool, u64)>(
    look: L,
    mine_attempts: u64,
    started: u64,
    mine_interval: u64,
) -> StopAnswers {
    |attempt: u64, stop: bool|
        exists|shutdown_requested: bool, now: u64| #[trigger]
            call_ensures(look, (attempt,), (shutdown_requested, now)) && stop == must_stop(
                shutdown_requested,
                mine_attempts,
                started,
                mine_interval,
                now,
            )
}

/// Searches for the proof of work of a candidate until it is found, the attempts are used up, a
/// shutdown is requested, or, without a limit, the candidate is to be built anew. On every 1024th
/// attempt `look` is asked, with the number of the attempt, whether a shutdown is requested and what
/// time it is.
pub fn search_candidate<
    H,
    P: Fn(&BlockTemplate) -> Result<H, ConsensusError>,
    J: Fn(&H, u32) -> bool,
    L: Fn(u64) -> (bool, u64),
>(
    candidate: BlockTemplate,
    config: MiningConfig,
    started: u64,
    mine_interval: u64,
    pow_hash: P,
    meets: J,
    look: L,
) -> (r: Result<(Option<MiningResult>, u64), ConsensusError>)
    requires
        forall|t: BlockTemplate| #[trigger] call_requires(pow_hash, (&t,)),
        forall|hash: H, d: u32| #[trigger] call_requires(meets, (&hash, d)),
        forall|i: u64| #[trigger] call_requires(look, (i,)),
    ensures
        exists|n: int| #[trigger]
            search_ended(
                candidate@,
                config,
                pow_hash,
                meets,
                clock_answers(look, config.max_attempts, started, mine_interval),
                n,
                r,
            ),
{
    let ghost base = candidate@;
    let ghost answers = clock_answers(look, config.max_attempts, started, mine_interval);
    let mine_attempts: u64 = config.max_attempts;
    let stop = |attempt: u64| -> (stop: bool)
        ensures
            answers(attempt, stop),
        {
            let (shutdown_requested, now) = look(attempt);
            should_stop(shutdown_requested, mine_attempts, started, mine_interval, now)
        };
    let r = mine_prepared_block_until_with_attempts(candidate, config, pow_hash, meets, stop);
    proof {
        let n = choose|n: int| #[trigger]
            search_ended(base, config, pow_hash, meets, answers_of(stop), n, r);
        lemma_more_answers(base, config, pow_hash, meets, answers_of(stop), answers, n, r);
    }
    r
}

/// A search without a limit makes no attempt after the occasion on which the clock shows that the
/// mining interval has passed. If no shutdown is requested, and no attempt before that occasion
/// succeeds or fails in its hash, it ends there without a block, with as many attempts as it made.
pub proof fn unlimited_searches_end_with_their_interval<
    H,
    P: Fn(&BlockTemplate) -> Result<H, ConsensusError>,
    J: Fn(&H, u32) -> bool,
    L: Fn(u64) -> (bool, u64),
>(
    candidate: TemplateModel,
    config: MiningConfig,
    started: u64,
    mine_interval: u64,
    pow_hash: P,
    meets: J,
    look: L,
    n: int,
    r: Result<(Option<MiningResult>, u64), ConsensusError>,
    occasion: u64,
)
    requires
        config.max_attempts == 0,
        search_ended(
            candidate,
            config,
            pow_hash,
            meets,
            clock_answers(look, config.max_attempts, started, mine_interval),
            n,
            r,
        ),
        occasion < u64::MAX,
        occasion % STOP_CHECK_INTERVAL == 0,
        forall|shutdown_requested: bool, now: u64| #[trigger]
            call_ensures(look, (occasion,), (shutdown_requested, now)) ==> now >= rebuild_time(
                started,
                mine_interval,
            ),
    ensures
        n <= occasion,
        r matches Ok((_, attempts)) ==> attempts <= occasion,
        ({
            &&& config.difficulty != 0
            &&& forall|i: u64, shutdown_requested: bool, now: u64|
                i < occasion && i % STOP_CHECK_INTERVAL == 0 && #[trigger] call_ensures(
                    look,
                    (i,),
                    (shutdown_requested, now),
                ) ==> !shutdown_requested && now < rebuild_time(started, mine_interval)
            &&& forall|i: int|
                0 <= i < occasion ==> {
                    let tried = candidate.with_nonce(#[trigger] config.nonce_of(i));
                    &&& !judged(pow_hash, meets, tried, config.difficulty, true)
                    &&& forall|error: ConsensusError|
                        !#[trigger] hashed(pow_hash, tried, Err::<H, ConsensusError>(error))
                }
        }) ==> r == Ok::<(Option<MiningResult>, u64), ConsensusError>((None, occasion)),
{
    let answers = clock_answers(look, config.max_attempts, started, mine_interval);
    assert(!answers(occasion, false));
    searches_obey_a_request_to_stop(
        candidate,
        config,
        pow_hash,
        meets,
        answers,
        n,
        r,
        occasion,
    );
}

} // verus!
