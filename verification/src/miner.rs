//! Candidate blocks and the search for their proof of work.
use crate::chain::{BlockError, BlockSizes, ConsensusError, Ledger, LedgerError};
use crate::ids::{zero_bytes, zeros, Address, Nonce, TransactionHash};
use crate::mempool::candidate::{candidate_built, chosen, executed};
use crate::mempool::extension::{appended, ExtensionMempool, ExtensionPool};
use crate::mempool::mempool::Mempool;
use crate::template::{transfer_fees, BlockRules, BlockTemplate, TemplateHeader, TemplateModel};
use crate::transaction::ProtocolModel;
use vstd::prelude::*;

verus! {

/// How to mine: what to look for, where to start, when to give up and what to pack.
#[derive(Clone, Copy, Debug, PartialEq, Eq, Structural)]
pub struct MiningConfig {
    pub difficulty: u32,
    pub start_nonce: u64,
    /// Zero means no limit.
    pub max_attempts: u64,
    pub transaction_limit: usize,
    pub min_fee_rate: u64,
}

/// A solved block and the number of attempts that it took.
#[derive(Clone, Debug, PartialEq, Eq)]
pub struct MiningResult {
    pub block: BlockTemplate,
    pub attempts: u64,
}

impl MiningConfig {
    /// The number of attempts after which mining gives up.
    pub open spec fn attempt_limit(self) -> int {
        if self.max_attempts == 0 {
            u64::MAX as int
        } else {
            self.max_attempts as int
        }
    }

    /// The nonce of an attempt; nonces wrap around.
    pub open spec fn nonce_of(self, attempt: int) -> Nonce {
        Nonce(((self.start_nonce + attempt) % 0x1_0000_0000_0000_0000) as u64)
    }
}

impl TemplateModel {
    /// The template with another nonce.
    pub open spec fn with_nonce(self, nonce: Nonce) -> Self {
        TemplateModel { header: TemplateHeader { nonce, ..self.header }, ..self }
    }

    /// The template with another difficulty.
    pub open spec fn with_difficulty(self, difficulty: u32) -> Self {
        TemplateModel { header: TemplateHeader { difficulty, ..self.header }, ..self }
    }
}

/// `pow_hash` may yield this outcome for this template.
pub open spec fn hashed<H, P: Fn(&BlockTemplate) -> Result<H, ConsensusError>>(
    pow_hash: P,
    template: TemplateModel,
    outcome: Result<H, ConsensusError>,
) -> bool {
    exists|t: BlockTemplate| #[trigger] call_ensures(pow_hash, (&t,), outcome) && t@ == template
}

/// The hash of a template may be found to meet the difficulty, or not to.
pub open spec fn judged<H, P: Fn(&BlockTemplate) -> Result<H, ConsensusError>, J: Fn(&H, u32) -> bool>(
    pow_hash: P,
    meets: J,
    template: TemplateModel,
    difficulty: u32,
    solved: bool,
) -> bool {
    exists|hash: H| #[trigger]
        hashed(pow_hash, template, Ok::<H, ConsensusError>(hash)) && call_ensures(
            meets,
            (&hash, difficulty),
            solved,
        )
}

/// Before every attempt whose number is a multiple of this, a search asks whether it has to stop.
pub const STOP_CHECK_INTERVAL: u64 = 1024;

/// What a search may be told before an attempt, as a relation of the attempt's number and the answer.
pub type StopAnswers = spec_fn(u64, bool) -> bool;

/// The answers of a function that is asked with the attempt's number.
pub open spec fn answers_of<S: Fn(u64) -> bool>(should_stop: S) -> StopAnswers {
    |attempt: u64, stop: bool| call_ensures(should_stop, (attempt,), stop)
}

/// On each occasion before the `n`th attempt the search was told to go on.
pub open spec fn told_to_go_on(answers: StopAnswers, n: int) -> bool {
    forall|i: u64|
        i < n && i % STOP_CHECK_INTERVAL == 0 ==> #[trigger] answers(i, false)
}

/// Every attempt before the `n`th was made and failed, and no request to stop was seen.
pub open spec fn in_vain<
    H,
    P: Fn(&BlockTemplate) -> Result<H, ConsensusError>,
    J: Fn(&H, u32) -> bool,
>(
    block: TemplateModel,
    config: MiningConfig,
    pow_hash: P,
    meets: J,
    answers: StopAnswers,
    n: int,
) -> bool {
    &&& 0 <= n <= config.attempt_limit()
    &&& n > 0 ==> config.difficulty != 0
    &&& forall|i: int|
        0 <= i < n ==> judged(
            pow_hash,
            meets,
            block.with_nonce(#[trigger] config.nonce_of(i)),
            config.difficulty,
            false,
        )
    &&& told_to_go_on(answers, n)
}

/// How a search ends after `n` failed attempts: with a block that is solved, or that needs no
/// solution; with a request to stop, which is looked for on every 1024th attempt; at the limit; or
/// with an error of the hash function. An attempt is made only if no request to stop was seen on its
/// own occasion either.
pub open spec fn search_ended<
    H,
    P: Fn(&BlockTemplate) -> Result<H, ConsensusError>,
    J: Fn(&H, u32) -> bool,
>(
    block: TemplateModel,
    config: MiningConfig,
    pow_hash: P,
    meets: J,
    answers: StopAnswers,
    n: int,
    r: Result<(Option<MiningResult>, u64), ConsensusError>,
) -> bool {
    let tried = block.with_nonce(config.nonce_of(n));
    &&& in_vain(block, config, pow_hash, meets, answers, n)
    &&& match r {
        Ok((Some(result), attempts)) => {
            &&& n < config.attempt_limit()
            &&& told_to_go_on(answers, n + 1)
            &&& result.block@ == tried
            &&& result.attempts == n + 1
            &&& attempts == n + 1
            &&& config.difficulty == 0 || judged(
                pow_hash,
                meets,
                tried,
                config.difficulty,
                true,
            )
        },
        Ok((None, attempts)) => {
            &&& attempts == n
            &&& n == config.attempt_limit() || (n % STOP_CHECK_INTERVAL as int == 0 && answers(
                n as u64,
                true,
            ))
        },
        Err(error) => {
            &&& n < config.attempt_limit()
            &&& told_to_go_on(answers, n + 1)
            &&& config.difficulty != 0
            &&& hashed(pow_hash, tried, Err::<H, ConsensusError>(error))
        },
    }
}

/// What is known of a search whose answers are known stays true if more answers are thought possible.
pub(crate) proof fn lemma_more_answers<
    H,
    P: Fn(&BlockTemplate) -> Result<H, ConsensusError>,
    J: Fn(&H, u32) -> bool,
>(
    block: TemplateModel,
    config: MiningConfig,
    pow_hash: P,
    meets: J,
    few: StopAnswers,
    more: StopAnswers,
    n: int,
    r: Result<(Option<MiningResult>, u64), ConsensusError>,
)
    requires
        search_ended(block, config, pow_hash, meets, few, n, r),
        forall|i: u64, stop: bool| #[trigger] few(i, stop) ==> more(i, stop),
    ensures
        search_ended(block, config, pow_hash, meets, more, n, r),
{
    assert forall|m: int| #[trigger] told_to_go_on(few, m) implies told_to_go_on(more, m) by {
        assert forall|i: u64| i < m && i % STOP_CHECK_INTERVAL == 0 implies #[trigger] more(
            i,
            false,
        ) by {
            assert(few(i, false));
        }
    }
    assert(told_to_go_on(few, n));
    if r is Ok && r->Ok_0.0 is None && n != config.attempt_limit() {
        assert(few(n as u64, true));
    }
}

/// A search that is asked to stop stops: if on some occasion before its limit it can only be told to
/// stop, it makes no attempt from there on. If it is told so on no earlier occasion, and no attempt
/// before that one can succeed or fail in its hash, it ends right there, without a block, and reports
/// as many attempts as it made.
pub proof fn searches_obey_a_request_to_stop<
    H,
    P: Fn(&BlockTemplate) -> Result<H, ConsensusError>,
    J: Fn(&H, u32) -> bool,
>(
    block: TemplateModel,
    config: MiningConfig,
    pow_hash: P,
    meets: J,
    answers: StopAnswers,
    n: int,
    r: Result<(Option<MiningResult>, u64), ConsensusError>,
    occasion: u64,
)
    requires
        search_ended(block, config, pow_hash, meets, answers, n, r),
        occasion < config.attempt_limit(),
        occasion % STOP_CHECK_INTERVAL == 0,
        !answers(occasion, false),
    ensures
        n <= occasion,
        r matches Ok((_, attempts)) ==> attempts <= occasion,
        ({
            &&& config.difficulty != 0
            &&& forall|i: u64|
                i < occasion && i % STOP_CHECK_INTERVAL == 0 ==> !#[trigger] answers(i, true)
            &&& forall|i: int|
                0 <= i < occasion ==> {
                    let tried = block.with_nonce(#[trigger] config.nonce_of(i));
                    &&& !judged(pow_hash, meets, tried, config.difficulty, true)
                    &&& forall|error: ConsensusError|
                        !#[trigger] hashed(pow_hash, tried, Err::<H, ConsensusError>(error))
                }
        }) ==> r == Ok::<(Option<MiningResult>, u64), ConsensusError>((None, occasion)),
{
    if n > occasion {
        assert(answers(occasion, false));
    }
    if r is Ok && r->Ok_0.0 is Some || r is Err {
        if n == occasion {
            assert(answers(occasion, false));
        }
        assert(n < occasion);
        let tried = block.with_nonce(config.nonce_of(n));
        assert(judged(pow_hash, meets, tried, config.difficulty, true) || config.difficulty == 0
            || r is Err);
    }
}

/// Tries nonces one by one until one solves the block. On every 1024th attempt `should_stop` is asked
/// with the number of the attempt, and the search ends if it says so.
pub fn mine_prepared_block_until_with_attempts<
    H,
    P: Fn(&BlockTemplate) -> Result<H, ConsensusError>,
    J: Fn(&H, u32) -> bool,
    S: Fn(u64) -> bool,
>(
    block: BlockTemplate,
    config: MiningConfig,
    pow_hash: P,
    meets: J,
    should_stop: S,
) -> (r: Result<(Option<MiningResult>, u64), ConsensusError>)
    requires
        forall|t: BlockTemplate| #[trigger] call_requires(pow_hash, (&t,)),
        forall|hash: H, d: u32| #[trigger] call_requires(meets, (&hash, d)),
        forall|i: u64| #[trigger] call_requires(should_stop, (i,)),
    ensures
        exists|n: int| #[trigger]
            search_ended(block@, config, pow_hash, meets, answers_of(should_stop), n, r),
{
    let ghost base = block@;
    let ghost answers = answers_of(should_stop);
    let mut work = block;
    let max_attempts: u64 = if config.max_attempts == 0 {
        u64::MAX
    } else {
        config.max_attempts
    };
    let mut attempt: u64 = 0;
    proof {
        assert(in_vain(base, config, pow_hash, meets, answers, 0));
    }
    while attempt < max_attempts
        invariant
            forall|t: BlockTemplate| #[trigger] call_requires(pow_hash, (&t,)),
            forall|hash: H, d: u32| #[trigger] call_requires(meets, (&hash, d)),
            forall|i: u64| #[trigger] call_requires(should_stop, (i,)),
            max_attempts == config.attempt_limit(),
            attempt <= max_attempts,
            in_vain(base, config, pow_hash, meets, answers, attempt as int),
            base == block@,
            answers == answers_of(should_stop),
            work@ == base.with_nonce(work@.header.nonce),
        decreases max_attempts - attempt,
    {
        if attempt % STOP_CHECK_INTERVAL == 0 {
            if should_stop(attempt) {
                assert(search_ended(
                    base,
                    config,
                    pow_hash,
                    meets,
                    answers,
                    attempt as int,
                    Ok::<(Option<MiningResult>, u64), ConsensusError>((None, attempt)),
                ));
                return Ok((None, attempt));
            }
        }
        work.header.nonce = Nonce(config.start_nonce.wrapping_add(attempt));
        let ghost tried = base.with_nonce(config.nonce_of(attempt as int));
        assert(work@ =~= tried);
        let attempts: u64 = attempt.saturating_add(1);
        if config.difficulty == 0 {
            let result = MiningResult { block: work, attempts };
            let r: Result<(Option<MiningResult>, u64), ConsensusError> = Ok(
                (Some(result), attempts),
            );
            assert(search_ended(
                base,
                config,
                pow_hash,
                meets,
                answers,
                attempt as int,
                r,
            ));
            return r;
        }
        let outcome = pow_hash(&work);
        assert(hashed(pow_hash, tried, outcome)) by {
            assert(call_ensures(pow_hash, (&work,), outcome));
        }
        let hash = match outcome {
            Ok(hash) => hash,
            Err(error) => {
                assert(search_ended(
                    base,
                    config,
                    pow_hash,
                    meets,
                    answers,
                    attempt as int,
                    Err::<(Option<MiningResult>, u64), ConsensusError>(error),
                ));
                return Err(error);
            },
        };
        let solved = meets(&hash, config.difficulty);
        assert(judged(pow_hash, meets, tried, config.difficulty, solved)) by {
            assert(hashed(pow_hash, tried, Ok::<H, ConsensusError>(hash)));
        }
        if solved {
            let result = MiningResult { block: work, attempts };
            let r: Result<(Option<MiningResult>, u64), ConsensusError> = Ok(
                (Some(result), attempts),
            );
            assert(search_ended(
                base,
                config,
                pow_hash,
                meets,
                answers,
                attempt as int,
                r,
            ));
            return r;
        }
        attempt = attempt + 1;
    }
    assert(search_ended(
        base,
        config,
        pow_hash,
        meets,
        answers,
        attempt as int,
        Ok::<(Option<MiningResult>, u64), ConsensusError>((None, max_attempts)),
    ));
    Ok((None, max_attempts))
}

/// Tries nonces one by one and hands out the solved block alone.
pub fn mine_prepared_block_until<
    H,
    P: Fn(&BlockTemplate) -> Result<H, ConsensusError>,
    J: Fn(&H, u32) -> bool,
    S: Fn(u64) -> bool,
>(
    block: BlockTemplate,
    config: MiningConfig,
    pow_hash: P,
    meets: J,
    should_stop: S,
) -> (r: Result<Option<MiningResult>, ConsensusError>)
    requires
        forall|t: BlockTemplate| #[trigger] call_requires(pow_hash, (&t,)),
        forall|hash: H, d: u32| #[trigger] call_requires(meets, (&hash, d)),
        forall|i: u64| #[trigger] call_requires(should_stop, (i,)),
    ensures
        exists|n: int, attempts: u64| #[trigger]
            search_ended(
                block@,
                config,
                pow_hash,
                meets,
                answers_of(should_stop),
                n,
                counted(r, attempts),
            ),
{
    let outcome = mine_prepared_block_until_with_attempts(
        block,
        config,
        pow_hash,
        meets,
        should_stop,
    );
    match outcome {
        Ok((result, attempts)) => {
            let r: Result<Option<MiningResult>, ConsensusError> = Ok(result);
            assert(counted(r, attempts) == outcome);
            r
        },
        Err(error) => {
            let r: Result<Option<MiningResult>, ConsensusError> = Err(error);
            assert(counted(r, 0) == outcome);
            r
        },
    }
}

/// An outcome with the number of attempts beside it.
pub open spec fn counted(
    r: Result<Option<MiningResult>, ConsensusError>,
    attempts: u64,
) -> Result<(Option<MiningResult>, u64), ConsensusError> {
    match r {
        Ok(result) => Ok((result, attempts)),
        Err(error) => Err(error),
    }
}

/// Tries nonces up to the limit, without being stopped.
pub fn mine_prepared_block<
    H,
    P: Fn(&BlockTemplate) -> Result<H, ConsensusError>,
    J: Fn(&H, u32) -> bool,
>(
    block: BlockTemplate,
    config: MiningConfig,
    pow_hash: P,
    meets: J,
) -> (r: Result<Option<MiningResult>, ConsensusError>)
    requires
        forall|t: BlockTemplate| #[trigger] call_requires(pow_hash, (&t,)),
        forall|hash: H, d: u32| #[trigger] call_requires(meets, (&hash, d)),
    ensures
        exists|n: int| #[trigger]
            unstopped_search_ended(block@, config, pow_hash, meets, n, r),
{
    let never = |attempt: u64| -> (stop: bool)
        ensures
            !stop,
        { false };
    let ghost base = block@;
    let r = mine_prepared_block_until(block, config, pow_hash, meets, never);
    proof {
        let (n, attempts) = choose|n: int, attempts: u64| #[trigger]
            search_ended(
                base,
                config,
                pow_hash,
                meets,
                answers_of(never),
                n,
                counted(r, attempts),
            );
        assert(unstopped_search_ended(base, config, pow_hash, meets, n, r));
    }
    r
}

/// How a search that nobody stops ends after `n` failed attempts.
pub open spec fn unstopped_search_ended<
    H,
    P: Fn(&BlockTemplate) -> Result<H, ConsensusError>,
    J: Fn(&H, u32) -> bool,
>(
    block: TemplateModel,
    config: MiningConfig,
    pow_hash: P,
    meets: J,
    n: int,
    r: Result<Option<MiningResult>, ConsensusError>,
) -> bool {
    let tried = block.with_nonce(config.nonce_of(n));
    &&& 0 <= n <= config.attempt_limit()
    &&& n > 0 ==> config.difficulty != 0
    &&& forall|i: int|
        0 <= i < n ==> judged(
            pow_hash,
            meets,
            block.with_nonce(#[trigger] config.nonce_of(i)),
            config.difficulty,
            false,
        )
    &&& match r {
        Ok(Some(result)) => {
            &&& n < config.attempt_limit()
            &&& result.block@ == tried
            &&& result.attempts == n + 1
            &&& config.difficulty == 0 || judged(
                pow_hash,
                meets,
                tried,
                config.difficulty,
                true,
            )
        },
        Ok(None) => n == config.attempt_limit(),
        Err(error) => {
            &&& n < config.attempt_limit()
            &&& config.difficulty != 0
            &&& hashed(pow_hash, tried, Err::<H, ConsensusError>(error))
        },
    }
}

/// The consensus rule that a chain error stands for.
pub open spec fn consensus_error_of(error: LedgerError) -> ConsensusError {
    match error {
        LedgerError::InvalidConsensus(error) => error,
        LedgerError::InvalidBlock(error) => ConsensusError::InvalidBlock(error),
        LedgerError::InvalidBlockHeight => ConsensusError::InvalidHeight,
        LedgerError::InvalidPreviousHash => ConsensusError::InvalidPreviousHash,
        LedgerError::InvalidParent => ConsensusError::InvalidPreviousHash,
        LedgerError::InvalidTimestamp => ConsensusError::InvalidTimestamp,
        _ => ConsensusError::InvalidBlock(BlockError::InvalidStateRoot),
    }
}

/// The consensus rule that a chain error stands for.
pub fn ledger_to_consensus_error(error: LedgerError) -> (r: ConsensusError)
    ensures
        r == consensus_error_of(error),
{
    match error {
        LedgerError::InvalidConsensus(error) => error,
        LedgerError::InvalidBlock(error) => ConsensusError::InvalidBlock(error),
        LedgerError::InvalidBlockHeight => ConsensusError::InvalidHeight,
        LedgerError::InvalidPreviousHash => ConsensusError::InvalidPreviousHash,
        LedgerError::InvalidParent => ConsensusError::InvalidPreviousHash,
        LedgerError::InvalidTimestamp => ConsensusError::InvalidTimestamp,
        LedgerError::InvalidStateRoot => ConsensusError::InvalidBlock(BlockError::InvalidStateRoot),
        _ => ConsensusError::InvalidBlock(BlockError::InvalidStateRoot),
    }
}

/// The candidate with bearer-coin transactions added, if any are pending.
pub open spec fn extended<M: Fn(&BlockTemplate) -> BlockSizes>(
    measure: M,
    rules: BlockRules,
    pool: ExtensionPool,
    before: TemplateModel,
    transaction_limit: usize,
    min_rate: int,
    after: TemplateModel,
) -> bool {
    if pool == Map::<TransactionHash, ProtocolModel>::empty() {
        after == before
    } else {
        appended(measure, rules, pool, before, transaction_limit, min_rate, after)
    }
}

/// How the preparation of a candidate on top of a tip ends: `first` is the outcome of packing
/// transfers, `packed` the template after bearer-coin transactions were added, which `execute` then
/// runs with the given difficulty and a zero state root.
pub open spec fn prepared<
    M: Fn(&BlockTemplate) -> BlockSizes,
    X: Fn(&BlockTemplate) -> Result<[u8; 32], LedgerError>,
>(
    measure: M,
    execute: X,
    rules: BlockRules,
    extension_pool: ExtensionPool,
    config: MiningConfig,
    first: Result<BlockTemplate, LedgerError>,
    packed: TemplateModel,
    r: Result<BlockTemplate, ConsensusError>,
) -> bool {
    match first {
        Err(error) => r == Err::<BlockTemplate, ConsensusError>(consensus_error_of(error)),
        Ok(base) => {
            let runnable = packed.with_difficulty(config.difficulty).rooted(zero_bytes());
            &&& extended(
                measure,
                rules,
                extension_pool,
                base@,
                config.transaction_limit,
                config.min_fee_rate as int,
                packed,
            )
            &&& match r {
                Ok(template) => {
                    &&& executed(
                        execute,
                        runnable,
                        Ok::<[u8; 32], LedgerError>(template@.header.state_root),
                    )
                    &&& template@ == runnable.rooted(template@.header.state_root)
                },
                Err(refusal) => exists|error: LedgerError| #[trigger]
                    executed(execute, runnable, Err::<[u8; 32], LedgerError>(error)) && refusal
                        == consensus_error_of(error),
            }
        },
    }
}

/// How the preparation of a block to mine ends: with the genesis block of the given difficulty on an
/// empty chain, else with a candidate from both mempools or with the error that stood against it.
pub open spec fn candidate_prepared<
    M: Fn(&BlockTemplate) -> BlockSizes,
    E: Fn(&BlockTemplate) -> Result<[u8; 32], LedgerError>,
    X: Fn(&BlockTemplate) -> Result<[u8; 32], LedgerError>,
    G: Fn(Address, u64) -> BlockTemplate,
>(
    mempool: &Mempool,
    extension_mempool: &ExtensionMempool,
    ledger: &Ledger,
    miner: Address,
    timestamp: u64,
    config: MiningConfig,
    rules: BlockRules,
    measure: M,
    state_root: E,
    execute: X,
    genesis: G,
    r: Result<BlockTemplate, ConsensusError>,
) -> bool {
    if ledger.tip().0 is None {
        &&& r is Ok
        &&& exists|t: BlockTemplate| #[trigger]
            call_ensures(genesis, (miner, timestamp), t) && r->Ok_0@ == t@.with_difficulty(
                config.difficulty,
            )
    } else {
        exists|k: int, first: Result<BlockTemplate, LedgerError>, packed: TemplateModel|
            #![trigger candidate_built(
                measure,
                state_root,
                ledger,
                miner,
                timestamp,
                Nonce(0),
                rules,
                chosen(
                    mempool.pool(),
                    ledger.tip().0,
                    config.transaction_limit,
                    config.min_fee_rate as int,
                ),
                k,
                first,
            ), prepared(
                measure,
                execute,
                rules,
                extension_mempool.pool(),
                config,
                first,
                packed,
                r,
            )]
            candidate_built(
                measure,
                state_root,
                ledger,
                miner,
                timestamp,
                Nonce(0),
                rules,
                chosen(
                    mempool.pool(),
                    ledger.tip().0,
                    config.transaction_limit,
                    config.min_fee_rate as int,
                ),
                k,
                first,
            ) && prepared(
                measure,
                execute,
                rules,
                extension_mempool.pool(),
                config,
                first,
                packed,
                r,
            )
    }
}

/// How mining a fresh candidate ends: with the error of its preparation, or as the search on it does.
pub open spec fn candidate_mined<
    H,
    P: Fn(&BlockTemplate) -> Result<H, ConsensusError>,
    J: Fn(&H, u32) -> bool,
>(
    candidate: Result<BlockTemplate, ConsensusError>,
    config: MiningConfig,
    pow_hash: P,
    meets: J,
    r: Result<Option<MiningResult>, ConsensusError>,
) -> bool {
    match candidate {
        Err(error) => r == Err::<Option<MiningResult>, ConsensusError>(error),
        Ok(block) => exists|n: int| #[trigger]
            unstopped_search_ended(block@, config, pow_hash, meets, n, r),
    }
}

/// Prepares a candidate block and mines it.
pub fn mine_candidate_block<
    H,
    M: Fn(&BlockTemplate) -> BlockSizes,
    E: Fn(&BlockTemplate) -> Result<[u8; 32], LedgerError>,
    X: Fn(&BlockTemplate) -> Result<[u8; 32], LedgerError>,
    G: Fn(Address, u64) -> BlockTemplate,
    P: Fn(&BlockTemplate) -> Result<H, ConsensusError>,
    J: Fn(&H, u32) -> bool,
>(
    mempool: &Mempool,
    extension_mempool: &ExtensionMempool,
    ledger: &Ledger,
    miner_address: Address,
    timestamp: u64,
    config: MiningConfig,
    rules: &BlockRules,
    measure: &M,
    state_root: E,
    execute: X,
    genesis: G,
    pow_hash: P,
    meets: J,
) -> (r: Result<Option<MiningResult>, ConsensusError>)
    requires
        mempool.wf(),
        extension_mempool.wf(),
        ledger.wf(),
        forall|t: BlockTemplate| #[trigger] call_requires(measure, (&t,)),
        forall|t: BlockTemplate| #[trigger] call_requires(state_root, (&t,)),
        forall|t: BlockTemplate| #[trigger] call_requires(execute, (&t,)),
        call_requires(genesis, (miner_address, timestamp)),
        forall|t: BlockTemplate| #[trigger] call_requires(pow_hash, (&t,)),
        forall|hash: H, d: u32| #[trigger] call_requires(meets, (&hash, d)),
        ledger.tip().0 is Some ==> transfer_fees(
            chosen(
                mempool.pool(),
                ledger.tip().0,
                config.transaction_limit,
                config.min_fee_rate as int,
            ),
        ) <= u64::MAX,
    ensures
        exists|candidate: Result<BlockTemplate, ConsensusError>|
            candidate_prepared(
                mempool,
                extension_mempool,
                ledger,
                miner_address,
                timestamp,
                config,
                *rules,
                measure,
                state_root,
                execute,
                genesis,
                candidate,
            ) && #[trigger] candidate_mined(candidate, config, pow_hash, meets, r),
{
    let candidate = prepare_candidate_block(
        mempool,
        extension_mempool,
        ledger,
        miner_address,
        timestamp,
        config,
        rules,
        measure,
        state_root,
        execute,
        genesis,
    );
    let ghost made = candidate;
    match candidate {
        Err(error) => {
            assert(candidate_mined(
                made,
                config,
                pow_hash,
                meets,
                Err::<Option<MiningResult>, ConsensusError>(error),
            ));
            Err(error)
        },
        Ok(block) => {
            let r = mine_prepared_block(block, config, pow_hash, meets);
            assert(candidate_mined(made, config, pow_hash, meets, r));
            r
        },
    }
}

/// Prepares the block to mine: the genesis block on an empty chain, else a candidate from both
/// mempools.
pub fn prepare_candidate_block<
    M: Fn(&BlockTemplate) -> BlockSizes,
    E: Fn(&BlockTemplate) -> Result<[u8; 32], LedgerError>,
    X: Fn(&BlockTemplate) -> Result<[u8; 32], LedgerError>,
    G: Fn(Address, u64) -> BlockTemplate,
>(
    mempool: &Mempool,
    extension_mempool: &ExtensionMempool,
    ledger: &Ledger,
    miner_address: Address,
    timestamp: u64,
    config: MiningConfig,
    rules: &BlockRules,
    measure: &M,
    state_root: E,
    execute: X,
    genesis: G,
) -> (r: Result<BlockTemplate, ConsensusError>)
    requires
        mempool.wf(),
        extension_mempool.wf(),
        ledger.wf(),
        forall|t: BlockTemplate| #[trigger] call_requires(measure, (&t,)),
        forall|t: BlockTemplate| #[trigger] call_requires(state_root, (&t,)),
        forall|t: BlockTemplate| #[trigger] call_requires(execute, (&t,)),
        call_requires(genesis, (miner_address, timestamp)),
        ledger.tip().0 is Some ==> transfer_fees(
            chosen(
                mempool.pool(),
                ledger.tip().0,
                config.transaction_limit,
                config.min_fee_rate as int,
            ),
        ) <= u64::MAX,
    ensures
        candidate_prepared(
            mempool,
            extension_mempool,
            ledger,
            miner_address,
            timestamp,
            config,
            *rules,
            measure,
            state_root,
            execute,
            genesis,
            r,
        ),
{
    if ledger.tip_height().is_none() {
        let mut first = genesis(miner_address, timestamp);
        let ghost made = first;
        assert(call_ensures(genesis, (miner_address, timestamp), made));
        first.header.difficulty = config.difficulty;
        assert(first@ =~= made@.with_difficulty(config.difficulty));
        return Ok(first);
    }
    let first = mempool.create_candidate_block_with_min_fee_rate(
        ledger,
        miner_address,
        timestamp,
        Nonce(0),
        config.transaction_limit,
        config.min_fee_rate,
        rules,
        measure,
        state_root,
    );
    let ghost start = first;
    let mut block = match first {
        Ok(block) => block,
        Err(error) => {
            let refusal = ledger_to_consensus_error(error);
            proof {
                let packed = TemplateModel {
                    header: arbitrary(),
                    transactions: Seq::empty(),
                    qcash_transactions: Seq::empty(),
                };
                assert(prepared(
                    measure,
                    execute,
                    *rules,
                    extension_mempool.pool(),
                    config,
                    start,
                    packed,
                    Err::<BlockTemplate, ConsensusError>(refusal),
                ));
            }
            return Err(refusal);
        },
    };
    if !extension_mempool.is_empty() {
        extension_mempool.append_selected_to_block(
            &mut block,
            config.transaction_limit,
            config.min_fee_rate,
            rules,
            measure,
        );
    }
    let ghost packed = block@;
    block.header.difficulty = config.difficulty;
    block.header.state_root = zeros();
    let ghost runnable = packed.with_difficulty(config.difficulty).rooted(zero_bytes());
    assert(block@ =~= runnable);
    let outcome = execute(&block);
    assert(executed(execute, runnable, outcome)) by {
        assert(call_ensures(execute, (&block,), outcome));
    }
    let r: Result<BlockTemplate, ConsensusError> = match outcome {
        Ok(root) => {
            block.header.state_root = root;
            assert(block@ =~= runnable.rooted(root));
            Ok(block)
        },
        Err(error) => Err(ledger_to_consensus_error(error)),
    };
    assert(prepared(
        measure,
        execute,
        *rules,
        extension_mempool.pool(),
        config,
        start,
        packed,
        r,
    ));
    r
}

} // verus!
