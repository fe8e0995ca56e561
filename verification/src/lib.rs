//! Core of a message-board store: boards hold threads and replies, and every
//! post carries a number minted by a per-board sequence allocator. The store
//! is modelled in memory; the contracts state how each operation moves the
//! store from one well-formed state to the next.

pub mod board;
mod clock;
pub mod config;
pub mod database;
pub mod errors;
pub mod laws;
pub mod model;
pub mod post;
