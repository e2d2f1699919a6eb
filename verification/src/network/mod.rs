//! What peers say to each other.
pub mod answer_laws;
pub mod envelope;
pub mod handler;
pub mod message;
