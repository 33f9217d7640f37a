//! Runtime configuration and its validation.

use vstd::prelude::*;
use std::time::Duration;
use crate::error::ScramjetError;

verus! {

/// Smallest accepted period for any polling loop, in milliseconds.
pub const MIN_INTERVAL_MS: u64 = 50;

/// Tunables of the routing and transport fabric.
///
/// Every field is validated once by [`Config::validate`] and never
/// mutated afterwards.
#[derive(Debug, Clone)]
pub struct Config {
    /// JSON-RPC endpoint.
    pub rpc_url: String,
    /// Streaming slot feed; absent means polling mode.
    pub geyser_url: Option<String>,
    /// Polling period for the slot clock, in milliseconds.
    pub rpc_poll_interval_ms: u64,
    /// Pre-warm period of the scout task, in milliseconds.
    pub scout_interval_ms: u64,
    /// How many slots ahead the scout pre-warms.
    pub scout_lookahead_slots: u64,
    /// Monitor print period, in milliseconds.
    pub monitor_interval_ms: u64,
    /// Initial reconnect backoff of the slot feed, in milliseconds.
    pub geyser_reconnect_delay_ms: u64,
    /// Cap of the reconnect backoff, in milliseconds.
    pub geyser_max_reconnect_delay_ms: u64,
    /// Transport keep-alive interval, in seconds.
    pub quic_keep_alive_secs: u64,
    /// Transport idle timeout, in seconds.
    pub quic_idle_timeout_secs: u64,
    /// Compute-unit limit placed on built transactions.
    pub default_compute_unit_limit: u32,
    /// Per-unit compute price placed on built transactions.
    pub default_priority_fee: u64,
}

impl Config {
    /// All constraints that a usable configuration satisfies.
    pub open spec fn valid(self) -> bool {
        &&& self.rpc_poll_interval_ms >= MIN_INTERVAL_MS
        &&& self.scout_interval_ms >= MIN_INTERVAL_MS
        &&& self.monitor_interval_ms >= MIN_INTERVAL_MS
        &&& self.default_compute_unit_limit > 0
        &&& self.quic_idle_timeout_secs > 0
        &&& self.quic_keep_alive_secs < self.quic_idle_timeout_secs
        &&& self.geyser_reconnect_delay_ms <= self.geyser_max_reconnect_delay_ms
    }

    /// The description reported for the first violated constraint, in
    /// the order [`Config::validate`] checks them.
    pub open spec fn first_violation(self) -> Seq<char> {
        if self.rpc_poll_interval_ms < MIN_INTERVAL_MS {
            "RPC_POLL_INTERVAL_MS is too low (min 50ms). CPU will spike."@
        } else if self.scout_interval_ms < MIN_INTERVAL_MS {
            "SCOUT_INTERVAL_MS is too low (min 50ms). CPU will spike."@
        } else if self.monitor_interval_ms < MIN_INTERVAL_MS {
            "MONITOR_INTERVAL_MS is too low (min 50ms). CPU will spike."@
        } else if self.default_compute_unit_limit == 0 {
            "DEFAULT_COMPUTE_UNIT_LIMIT=0 means all transactions will fail."@
        } else if self.quic_idle_timeout_secs == 0 {
            "QUIC_IDLE_TIMEOUT_SECS=0 means connections disconnect immediately."@
        } else if self.quic_keep_alive_secs >= self.quic_idle_timeout_secs {
            "QUIC_KEEP_ALIVE_SECS must be less than QUIC_IDLE_TIMEOUT_SECS."@
        } else {
            "GEYSER_MAX_RECONNECT_DELAY_MS must be >= GEYSER_RECONNECT_DELAY_MS."@
        }
    }

    /// Check every stated constraint, failing fast on the first
    /// violation. Succeeds exactly on valid configurations.
    pub fn validate(&self) -> (r: Result<(), ScramjetError>)
        ensures
            r is Ok <==> self.valid(),
            r matches Err(e) ==> e matches ScramjetError::ConfigValidationError(m)
                && m@ == self.first_violation(),
    {
        if self.rpc_poll_interval_ms < MIN_INTERVAL_MS {
            return Err(ScramjetError::ConfigValidationError(
                "RPC_POLL_INTERVAL_MS is too low (min 50ms). CPU will spike.".to_owned(),
            ));
        }
        if self.scout_interval_ms < MIN_INTERVAL_MS {
            return Err(ScramjetError::ConfigValidationError(
                "SCOUT_INTERVAL_MS is too low (min 50ms). CPU will spike.".to_owned(),
            ));
        }
        if self.monitor_interval_ms < MIN_INTERVAL_MS {
            return Err(ScramjetError::ConfigValidationError(
                "MONITOR_INTERVAL_MS is too low (min 50ms). CPU will spike.".to_owned(),
            ));
        }
        if self.default_compute_unit_limit == 0 {
            return Err(ScramjetError::ConfigValidationError(
                "DEFAULT_COMPUTE_UNIT_LIMIT=0 means all transactions will fail.".to_owned(),
            ));
        }
        if self.quic_idle_timeout_secs == 0 {
            return Err(ScramjetError::ConfigValidationError(
                "QUIC_IDLE_TIMEOUT_SECS=0 means connections disconnect immediately.".to_owned(),
            ));
        }
        if self.quic_keep_alive_secs >= self.quic_idle_timeout_secs {
            return Err(ScramjetError::ConfigValidationError(
                "QUIC_KEEP_ALIVE_SECS must be less than QUIC_IDLE_TIMEOUT_SECS.".to_owned(),
            ));
        }
        if self.geyser_max_reconnect_delay_ms < self.geyser_reconnect_delay_ms {
            return Err(ScramjetError::ConfigValidationError(
                "GEYSER_MAX_RECONNECT_DELAY_MS must be >= GEYSER_RECONNECT_DELAY_MS.".to_owned(),
            ));
        }
        Ok(())
    }

    /// Polling period of the slot clock.
    pub fn rpc_poll_interval(&self) -> (d: Duration)
        ensures
            d == duration_from_millis(self.rpc_poll_interval_ms),
    {
        millis_duration(self.rpc_poll_interval_ms)
    }

    /// Pre-warm period of the scout task.
    pub fn scout_interval(&self) -> (d: Duration)
        ensures
            d == duration_from_millis(self.scout_interval_ms),
    {
        millis_duration(self.scout_interval_ms)
    }

    /// Monitor print period.
    pub fn monitor_interval(&self) -> (d: Duration)
        ensures
            d == duration_from_millis(self.monitor_interval_ms),
    {
        millis_duration(self.monitor_interval_ms)
    }

    /// Initial reconnect backoff of the slot feed.
    pub fn geyser_reconnect_delay(&self) -> (d: Duration)
        ensures
            d == duration_from_millis(self.geyser_reconnect_delay_ms),
    {
        millis_duration(self.geyser_reconnect_delay_ms)
    }

    /// Cap of the reconnect backoff.
    pub fn geyser_max_reconnect_delay(&self) -> (d: Duration)
        ensures
            d == duration_from_millis(self.geyser_max_reconnect_delay_ms),
    {
        millis_duration(self.geyser_max_reconnect_delay_ms)
    }

    /// Transport keep-alive interval.
    pub fn quic_keep_alive(&self) -> (d: Duration)
        ensures
            d == duration_from_secs(self.quic_keep_alive_secs),
    {
        secs_duration(self.quic_keep_alive_secs)
    }

    /// Transport idle timeout.
    pub fn quic_idle_timeout(&self) -> (d: Duration)
        ensures
            d == duration_from_secs(self.quic_idle_timeout_secs),
    {
        secs_duration(self.quic_idle_timeout_secs)
    }
}

impl Default for Config {
    /// The documented defaults; they form a valid configuration.
    fn default() -> (c: Self)
        ensures
            c.rpc_url@ == "https://api.mainnet-beta.solana.com"@,
            c.geyser_url is None,
            c.rpc_poll_interval_ms == 400,
            c.scout_interval_ms == 1000,
            c.scout_lookahead_slots == 10,
            c.monitor_interval_ms == 400,
            c.geyser_reconnect_delay_ms == 1000,
            c.geyser_max_reconnect_delay_ms == 10000,
            c.quic_keep_alive_secs == 5,
            c.quic_idle_timeout_secs == 10,
            c.default_compute_unit_limit == 200000,
            c.default_priority_fee == 100000,
            c.valid(),
    {
        Config {
            rpc_url: "https://api.mainnet-beta.solana.com".to_owned(),
            geyser_url: None,
            rpc_poll_interval_ms: 400,
            scout_interval_ms: 1000,
            scout_lookahead_slots: 10,
            monitor_interval_ms: 400,
            geyser_reconnect_delay_ms: 1000,
            geyser_max_reconnect_delay_ms: 10000,
            quic_keep_alive_secs: 5,
            quic_idle_timeout_secs: 10,
            default_compute_unit_limit: 200000,
            default_priority_fee: 100000,
        }
    }
}

/// What [`Duration::from_millis`] returns for a given count.
pub uninterp spec fn duration_from_millis(ms: u64) -> Duration;

/// What [`Duration::from_secs`] returns for a given count.
pub uninterp spec fn duration_from_secs(secs: u64) -> Duration;

/// Relies on `std::time::Duration::from_millis`: the result is a
/// function of the argument alone.
#[verifier::external_body]
fn millis_duration(ms: u64) -> (d: Duration)
    ensures
        d == duration_from_millis(ms),
{
    Duration::from_millis(ms)
}

/// Relies on `std::time::Duration::from_secs`: the result is a
/// function of the argument alone.
#[verifier::external_body]
fn secs_duration(secs: u64) -> (d: Duration)
    ensures
        d == duration_from_secs(secs),
{
    Duration::from_secs(secs)
}

} // verus!
