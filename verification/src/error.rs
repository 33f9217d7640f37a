//! Error taxonomy of the library.

use vstd::prelude::*;

verus! {

/// Errors surfaced by the routing and transport fabric.
///
/// Failures that originate in outside libraries (transport stacks, RPC
/// clients) are carried as plain text so that the variants stay free of
/// foreign types.
pub enum ScramjetError {
    /// Configuration could not be assembled.
    ConfigError(String),
    /// Configuration was assembled but violates a stated constraint.
    ConfigValidationError(String),
    /// Local certificate construction failed.
    CertError(String),
    /// Identity keypair unreadable or unparseable.
    KeypairError(String),
    /// An endpoint URL could not be understood.
    InvalidUri(String),
    /// An upstream JSON-RPC call failed.
    RpcError(String),
    /// The upstream reported no leader schedule.
    ScheduleUnavailable,
    /// Slot-feed connect or mid-stream failure.
    GeyserError(String),
    /// Transport handshake or datagram failure.
    ConnectionError(String),
    /// Substream open, write or finish failed.
    StreamError(String),
    /// An internal channel was closed early.
    ChannelError(String),
    /// The slot has no usable leader (unscheduled or deny-listed).
    NoLeaderFound(u64),
}

impl ScramjetError {
    /// The human-readable description of the error.
    pub open spec fn spec_message(&self) -> Seq<char> {
        match self {
            ScramjetError::ConfigError(m) => m@,
            ScramjetError::ConfigValidationError(m) => m@,
            ScramjetError::CertError(m) => m@,
            ScramjetError::KeypairError(m) => m@,
            ScramjetError::InvalidUri(m) => m@,
            ScramjetError::RpcError(m) => m@,
            ScramjetError::ScheduleUnavailable => "Leader schedule unavailable"@,
            ScramjetError::GeyserError(m) => m@,
            ScramjetError::ConnectionError(m) => m@,
            ScramjetError::StreamError(m) => m@,
            ScramjetError::ChannelError(m) => m@,
            ScramjetError::NoLeaderFound(_) => "No leader found for slot"@,
        }
    }

    /// Render the description, for logs and operator output.
    pub fn message(&self) -> (r: String)
        ensures
            r@ == self.spec_message(),
    {
        match self {
            ScramjetError::ConfigError(m) => m.clone(),
            ScramjetError::ConfigValidationError(m) => m.clone(),
            ScramjetError::CertError(m) => m.clone(),
            ScramjetError::KeypairError(m) => m.clone(),
            ScramjetError::InvalidUri(m) => m.clone(),
            ScramjetError::RpcError(m) => m.clone(),
            ScramjetError::ScheduleUnavailable => "Leader schedule unavailable".to_owned(),
            ScramjetError::GeyserError(m) => m.clone(),
            ScramjetError::ConnectionError(m) => m.clone(),
            ScramjetError::StreamError(m) => m.clone(),
            ScramjetError::ChannelError(m) => m.clone(),
            ScramjetError::NoLeaderFound(_) => "No leader found for slot".to_owned(),
        }
    }
}

} // verus!
