//! Server settings: the listen port, the idle timeout, and the
//! heartbeat cadence that enforces it.
use vstd::prelude::*;

verus! {

/// Settings the relay server runs with.  Times are in milliseconds.
pub struct ServerConfig {
    pub port: u16,
    /// Time without a message before a user is dropped.
    pub timeout_ms: u64,
    /// Interval between heartbeat checks.
    pub heartbeat_interval_ms: u64,
}

impl ServerConfig {
    /// The stock configuration: port 8080, a three-second idle timeout
    /// checked once a second.
    pub fn new() -> (r: ServerConfig)
        ensures
            r.port == 8080,
            r.timeout_ms == 3000,
            r.heartbeat_interval_ms == 1000,
    {
        ServerConfig { port: 8080, timeout_ms: 3000, heartbeat_interval_ms: 1000 }
    }
}

impl Default for ServerConfig {
    fn default() -> (r: Self)
        ensures
            r.port == 8080,
            r.timeout_ms == 3000,
            r.heartbeat_interval_ms == 1000,
    {
        ServerConfig::new()
    }
}

} // verus!
