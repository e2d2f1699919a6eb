use paqus_node::chain::{
    Account, Block, BlockError, BlockHeader, BlockSizes, CoinbaseTransaction, ConsensusError,
    Ledger, LedgerError, StateError,
};
use paqus_node::ids::{Address, Amount, BlockHash, Height, Nonce};
use paqus_node::mempool::extension::ExtensionMempool;
use paqus_node::mempool::mempool::Mempool;
use paqus_node::miner::{
    ledger_to_consensus_error, mine_candidate_block, mine_prepared_block,
    mine_prepared_block_until, mine_prepared_block_until_with_attempts, prepare_candidate_block,
    MiningConfig,
};
use paqus_node::mining::{
    begin_mining, candidate_timestamp, empty_search_result, extends_tip, nonce_reservation,
    search_candidate, should_stop, MinerSettings, MiningStats,
};
use paqus_node::node::Node;
use paqus_node::template::{BlockRules, BlockTemplate, TemplateHeader};
use std::cell::{Cell, RefCell};

fn address(byte: u8) -> Address {
    Address([byte; 20])
}

fn template(height: u64) -> BlockTemplate {
    BlockTemplate {
        header: TemplateHeader {
            height: Height(height),
            previous_hash: BlockHash([0; 32]),
            miner_address: address(9),
            difficulty: 1,
            timestamp: 5,
            nonce: Nonce(0),
            state_root: [3; 32],
            coinbase: None,
        },
        transactions: vec![],
        qcash_transactions: vec![],
    }
}

fn config(start_nonce: u64, max_attempts: u64) -> MiningConfig {
    MiningConfig {
        difficulty: 4,
        start_nonce,
        max_attempts,
        transaction_limit: 10,
        min_fee_rate: 0,
    }
}

fn small(_: &BlockTemplate) -> BlockSizes {
    BlockSizes {
        serialized: 100,
        stripped: 80,
        witness: 20,
        weight: 300,
    }
}

fn rules() -> BlockRules {
    BlockRules {
        max_size: 1_000_000,
        max_weight: 4_000_000,
        difficulty_start: 2,
    }
}

fn nonce_hash(block: &BlockTemplate) -> Result<u64, ConsensusError> {
    Ok(block.header.nonce.0)
}

#[test]
fn the_first_fitting_nonce_wins() {
    let (result, attempts) = mine_prepared_block_until_with_attempts(
        template(1),
        config(10, 100),
        nonce_hash,
        |hash, difficulty| *hash == 13 && difficulty == 4,
        |_| false,
    )
    .unwrap();
    let result = result.unwrap();
    assert_eq!(attempts, 4);
    assert_eq!(result.attempts, 4);
    assert_eq!(result.block.header.nonce, Nonce(13));
    assert_eq!(result.block.header.difficulty, 1);
}

#[test]
fn nonces_wrap_around() {
    let result = mine_prepared_block(template(1), config(u64::MAX, 5), nonce_hash, |hash, _| {
        *hash == 1
    })
    .unwrap()
    .unwrap();
    assert_eq!(result.attempts, 3);
    assert_eq!(result.block.header.nonce, Nonce(1));
}

#[test]
fn a_search_gives_up_after_its_attempts() {
    let outcome = mine_prepared_block_until_with_attempts(
        template(1),
        config(0, 7),
        nonce_hash,
        |_, _| false,
        |_| false,
    )
    .unwrap();
    assert_eq!(outcome, (None, 7));
}

#[test]
fn a_search_can_be_stopped() {
    let asked = Cell::new(0);
    let outcome = mine_prepared_block_until(
        template(1),
        config(0, 0),
        nonce_hash,
        |_, _| false,
        |_| {
            asked.set(asked.get() + 1);
            asked.get() > 3
        },
    );
    assert_eq!(outcome, Ok(None));
}

#[test]
fn a_search_looks_up_on_every_1024th_attempt() {
    let asked = RefCell::new(vec![]);
    let hashed = Cell::new(0);
    let outcome = mine_prepared_block_until_with_attempts(
        template(1),
        config(0, 0),
        |block| {
            hashed.set(hashed.get() + 1);
            nonce_hash(block)
        },
        |_, _| false,
        |attempt| {
            assert_eq!(attempt, hashed.get());
            asked.borrow_mut().push(attempt);
            attempt >= 3_000
        },
    )
    .unwrap();
    assert_eq!(outcome, (None, 3_072));
    assert_eq!(*asked.borrow(), vec![0, 1_024, 2_048, 3_072]);
    assert_eq!(hashed.get(), 3_072);
}

#[test]
fn unlimited_searches_end_with_the_mining_interval() {
    let ticks = |attempt: u64| (false, 100 + attempt);
    let outcome = search_candidate(
        template(1),
        config(0, 0),
        100,
        1_500,
        nonce_hash,
        |_, _| false,
        ticks,
    )
    .unwrap();
    assert_eq!(outcome, (None, 2_048));
    let limited = search_candidate(
        template(1),
        config(0, 2_500),
        100,
        1_500,
        nonce_hash,
        |_, _| false,
        ticks,
    )
    .unwrap();
    assert_eq!(limited, (None, 2_500));
    let shut_down = search_candidate(
        template(1),
        config(0, 2_500),
        100,
        1_500,
        nonce_hash,
        |_, _| false,
        |attempt| (attempt > 0, 100),
    )
    .unwrap();
    assert_eq!(shut_down, (None, 1_024));
    let (found, attempts) = search_candidate(
        template(1),
        config(0, 0),
        100,
        1_500,
        nonce_hash,
        |hash, _| *hash == 2_000,
        ticks,
    )
    .unwrap();
    assert_eq!(attempts, 2_001);
    assert_eq!(found.unwrap().block.header.nonce, Nonce(2_000));
}

#[test]
fn a_failing_hash_fails_the_search() {
    let outcome = mine_prepared_block(
        template(1),
        config(0, 5),
        |_| -> Result<u64, ConsensusError> { Err(ConsensusError::InvalidHeight) },
        |_, _| true,
    );
    assert_eq!(outcome, Err(ConsensusError::InvalidHeight));
}

fn block(height: u64, timestamp: u64) -> Block {
    Block {
        header: BlockHeader {
            version: 1,
            height: Height(height),
            previous_hash: BlockHash([0; 32]),
            merkle_root: [0; 32],
            witness_root: [0; 32],
            state_root: [0; 32],
            miner_address: address(9),
            difficulty: 1,
            timestamp,
            nonce: Nonce(0),
        },
        hash: BlockHash([7; 32]),
        coinbase: None,
        genesis_allocations: vec![],
        transactions: vec![],
        qcash_transactions: vec![],
        total_fees: Some(Amount(0)),
        sizes: small(&template(0)),
    }
}

fn ledger() -> Ledger {
    let mut ledger = Ledger::new(Amount(25));
    ledger.put_account(Account::new(address(1), Amount(100)));
    ledger.put_block(block(0, 500));
    ledger
}

#[test]
fn an_empty_chain_starts_with_its_genesis_block() {
    let prepared = prepare_candidate_block(
        &Mempool::new(),
        &ExtensionMempool::new(),
        &Ledger::new(Amount(25)),
        address(9),
        77,
        config(0, 1),
        &rules(),
        &small,
        |_| Ok([1; 32]),
        |_| Ok([2; 32]),
        |miner, timestamp| {
            let mut genesis = template(0);
            genesis.header.miner_address = miner;
            genesis.header.timestamp = timestamp;
            genesis
        },
    )
    .unwrap();
    assert_eq!(prepared.header.height, Height(0));
    assert_eq!(prepared.header.timestamp, 77);
    assert_eq!(prepared.header.miner_address, address(9));
    assert_eq!(prepared.header.difficulty, 4);
}

#[test]
fn candidates_extend_the_tip() {
    let mined = mine_candidate_block(
        &Mempool::new(),
        &ExtensionMempool::new(),
        &ledger(),
        address(9),
        77,
        config(0, 10),
        &rules(),
        &small,
        |_| Ok([1; 32]),
        |_| Ok([2; 32]),
        |_, _| template(0),
        nonce_hash,
        |hash, _| *hash == 2,
    )
    .unwrap()
    .unwrap();
    assert_eq!(mined.block.header.height, Height(1));
    assert_eq!(mined.block.header.previous_hash, BlockHash([7; 32]));
    assert_eq!(
        mined.block.header.coinbase,
        Some(CoinbaseTransaction {
            to: address(9),
            subsidy: Amount(25),
            fees: Amount(0),
        })
    );
    assert_eq!(mined.attempts, 3);
}

#[test]
fn chain_errors_become_consensus_errors() {
    assert_eq!(
        ledger_to_consensus_error(LedgerError::InvalidConsensus(ConsensusError::InvalidHeight)),
        ConsensusError::InvalidHeight
    );
    assert_eq!(
        ledger_to_consensus_error(LedgerError::InvalidBlockHeight),
        ConsensusError::InvalidHeight
    );
    assert_eq!(
        ledger_to_consensus_error(LedgerError::InvalidState(StateError::InvalidNonce)),
        ConsensusError::InvalidBlock(BlockError::InvalidStateRoot)
    );
}

#[test]
fn statistics_are_rates() {
    let mut stats = MiningStats::default();
    stats.update_stats(500, 2_000_000_000);
    assert_eq!(stats.last_hashrate_hps, 250);
    assert_eq!(stats.last_attempts, 500);
    stats.update_stats(u64::MAX, 0);
    assert_eq!(stats.last_hashrate_hps, u64::MAX);
}

#[test]
fn searches_set_nonces_aside() {
    let mut stats = MiningStats {
        next_nonce: u64::MAX - 1,
        ..MiningStats::default()
    };
    assert_eq!(stats.reserve_nonces(5), u64::MAX - 1);
    assert_eq!(stats.next_nonce, 3);
    assert_eq!(nonce_reservation(5), 5);
    assert!(nonce_reservation(0) > 0);
}

#[test]
fn candidates_are_younger_than_their_parents() {
    assert_eq!(candidate_timestamp(&ledger(), 100), 501);
    assert_eq!(candidate_timestamp(&ledger(), 900), 900);
    assert_eq!(candidate_timestamp(&Ledger::new(Amount(0)), 3), 3);
}

#[test]
fn a_round_of_mining_prepares_a_search() {
    let mut node: Node<u8> = Node::from_ledger(ledger());
    let mut stats = MiningStats::default();
    let settings = MinerSettings {
        address: address(9),
        min_fee_rate: None,
        mine_attempts: 50,
        transaction_limit: 10,
    };
    let (candidate, search) = begin_mining(
        &mut node,
        &mut stats,
        &settings,
        6,
        100,
        &rules(),
        &small,
        |_| Ok([1; 32]),
        |_| Ok([2; 32]),
        |_, _| template(0),
    )
    .unwrap()
    .unwrap();
    assert_eq!(candidate.header.timestamp, 501);
    assert_eq!(search.difficulty, 6);
    assert_eq!(search.start_nonce, 0);
    assert_eq!(search.max_attempts, 50);
    assert_eq!(search.min_fee_rate, 2);
    assert_eq!(stats.next_nonce, 50);
}

#[test]
fn solved_blocks_must_still_fit() {
    let parent = BlockHash([7; 32]);
    assert!(extends_tip(true, &parent, None));
    assert!(!extends_tip(true, &parent, Some(parent)));
    assert!(extends_tip(false, &parent, Some(parent)));
    assert!(!extends_tip(false, &parent, Some(BlockHash([8; 32]))));
    assert!(!extends_tip(false, &parent, None));
}

#[test]
fn searches_end_for_a_reason() {
    assert_eq!(empty_search_result(true, 0), "stopped");
    assert_eq!(empty_search_result(false, 0), "rebuild");
    assert_eq!(empty_search_result(false, 1), "exhausted");
    assert!(should_stop(true, 5, 0, 10, 0));
    assert!(!should_stop(false, 5, 0, 10, 99));
    assert!(!should_stop(false, 0, 5, 10, 14));
    assert!(should_stop(false, 0, 5, 10, 15));
    assert!(should_stop(false, 0, 5, u64::MAX, 5));
}
