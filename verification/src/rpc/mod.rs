//! What a node tells about itself, its chain and its mempools.
pub mod activity;
pub mod block;
pub mod events;
pub mod explorer;
pub mod lookup;
pub mod stats;
pub mod stats_laws;
pub mod view_laws;
