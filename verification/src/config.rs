//! Process configuration, as plain values. The boundary layer parses the
//! configuration file and hands these structs in.

use vstd::prelude::*;

verus! {

/// The whole configuration.
pub struct Config {
    pub general: General,
    pub proxy_settings: ProxyCheckerSettings,
}

/// General settings: where the backing store lives.
pub struct General {
    pub database_path: String,
}

/// Settings of the health checker: page size, probe timeout and interval
/// in seconds, the blacklist threshold, and the probe destination.
#[derive(Clone)]
pub struct ProxyCheckerSettings {
    pub pagination: u32,
    pub timeout: u64,
    pub interval: u64,
    pub max_fails: u32,
    pub dest: String,
}

/// Settings of the HTTP boundary layer.
pub struct HttpServer {
    pub port: u16,
}

} // verus!
