//! SyncMob core library: encrypted messages and files between paired devices in
//! a local network.
//!
//! * [`security`] — long term identity, at-rest key protection, trust store,
//!   fingerprints / short authentication strings.
//! * [`net`] — discovery, Noise handshake, framed encrypted transport.
//! * [`proto`] — wire message definitions.
//! * [`engine`] — orchestration (peer table, sessions, transfers): each method
//!   takes what happened and returns what is to be done.
//! * [`board`] and [`qr`] — what a front-end shows.
//! * [`codec`], [`crypto`] and [`noise`] — what is taken from other crates.

pub mod board;
pub mod bytes;
pub mod codec;
pub mod config;
pub mod crypto;
pub mod engine;
pub mod net;
pub mod noise;
pub mod proto;
pub mod qr;
pub mod security;
pub mod text;
pub mod util;

pub use engine::{Engine, EngineEvent};
