//! Catching up with peers.
pub mod book;
pub mod download;
pub mod headers;
pub mod locator;
pub mod parallel;
pub mod peer;
pub mod peer_laws;
pub mod poll;
pub mod ranges;
pub mod transfer_laws;
