//! Protocol and policy constants.
use vstd::prelude::*;

verus! {

/// Bytes of an address.
pub const ADDRESS_SIZE: usize = 20;

/// Bytes of a hash.
pub const HASH_SIZE: usize = 32;

/// Smallest units in one coin.
pub const XPQ: u64 = 1_000_000;

/// Smallest units that exist before the first block is mined.
pub const GENESIS_PREMINE: u64 = 0;

/// Block subsidy before the tail emission.
pub const BLOCK_REWARD: u64 = 25_000_000;

/// Target seconds between blocks.
pub const BLOCK_TIME: u64 = 300;

/// Blocks on top of a transaction after which it counts as confirmed.
pub const CONFIRMATION_DEPTH: u64 = 5;

/// Blocks on top of a block after which it is final.
pub const FINALITY_DEPTH: u64 = 50;

/// Blocks after which a block reward can be spent.
pub const BLOCK_REWARD_MATURITY: u64 = 100;

/// Version of the peer protocol.
pub const PROTOCOL_VERSION: u8 = 1;

/// Version of the on-disk format.
pub const STORAGE_VERSION: u8 = 2;

/// Oldest transaction timestamp that is still relayed, in seconds before now.
pub const MAX_RELAY_TRANSACTION_AGE_SECS: u64 = 86_400;

/// Latest transaction timestamp that is relayed, in seconds after now.
pub const MAX_RELAY_TRANSACTION_FUTURE_SECS: u64 = 300;

/// Seconds that a transaction below the market fee stays in the mempool.
pub const LOW_FEE_EXPIRY_SECS: u64 = 1_800;

/// Seconds that a transaction at or above the market fee stays in the mempool.
pub const MEMPOOL_EXPIRY_SECS: u64 = 86_400;

/// Most transactions in a mempool.
pub const MAX_MEMPOOL_TXS: usize = 1_000;

/// Most serialized bytes in a mempool.
pub const MAX_MEMPOOL_BYTES: usize = 10_485_760;

/// Most bytes of one network message.
pub const MAX_NETWORK_MESSAGE_SIZE: usize = 8_388_608;

/// Fee rate that wallets pay by default.
pub const BASE_FEE: u64 = 2;

/// Fee rate of a transaction whose sender names none.
pub const DEFAULT_TRANSACTION_FEE: u64 = 2;

/// Lowest relay fee that a node can be configured with.
pub const MIN_RELAY_FEE_FLOOR: u64 = 1;

/// Relay fee of a node whose operator names none.
pub const DEFAULT_MIN_RELAY_FEE: u64 = 1;

/// Market fee of a node whose operator names none.
pub const DEFAULT_MARKET_FEE: u64 = 2;

/// Virtual bytes that a fee rate is quoted for.
pub const FEE_RATE_UNIT_BYTES: u64 = 1;

/// Market-fee premium of a full mempool, as a multiple of the base rate.
pub const DYNAMIC_MARKET_FEE_MAX_MULTIPLIER: u64 = 8;

} // verus!
