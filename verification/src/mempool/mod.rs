//! Pending transactions.
pub mod admission_laws;
pub mod cached;
pub mod candidate;
pub mod error;
pub mod extension;
pub mod extension_laws;
pub mod fee;
pub mod laws;
pub mod mempool;
pub mod policy;
pub mod pool;
pub mod selection_laws;
