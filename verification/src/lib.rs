//! Verified core of a proof-of-work node.
pub mod block_laws;
pub mod cache;
pub mod cache_laws;
pub mod chain;
pub mod command;
pub mod gateway;
pub mod gossip;
pub mod ids;
pub mod key_map;
pub mod mempool;
pub mod miner;
pub mod mining;
pub mod network;
pub mod node;
pub mod node_laws;
pub mod order;
pub mod order_laws;
pub mod params;
pub mod rpc;
pub mod service;
pub mod sorted_map;
pub mod sync;
pub mod template;
pub mod text;
pub mod text_laws;
pub mod transaction;
