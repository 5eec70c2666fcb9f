//! What holds of the engine's calls.
//!
//! Each law speaks of a call through what the call promises, and says of its
//! result what a user relies on: who is let in, what is shown, what is sent,
//! and what stays as it was.

pub mod connecting;
pub mod failing;
pub mod linking;
pub mod managing;
pub mod pairing;
pub mod receiving;
pub mod sending;
pub mod storing;
pub mod talking;
pub mod telling;
pub mod viewing;
