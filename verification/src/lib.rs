//! Routing and transport fabric for a low-latency Solana transaction
//! submission client.
//!
//! The library holds the verified core: configuration validation, the
//! deny-list of misbehaving validators, the slot-to-leader-to-address
//! routing state, the reconnect backoff policy, the session cache
//! bookkeeping, and the identity-key encoding used for the client
//! certificate. Network and file plumbing lives outside the library and
//! hands it plain values.

pub mod blocklist;
pub mod cartographer;
pub mod clock;
pub mod config;
pub mod engine;
pub mod error;
pub mod identity;
pub mod keys;
