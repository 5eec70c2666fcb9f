//! Discovery, rate limits, Noise handshake and framed encrypted transport.

pub mod discovery;
pub mod laws;
pub mod limit;
pub mod session;
