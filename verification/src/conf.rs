//! A configuration of a log level and a list of HTTP listeners, each with
//! its address, port and TLS switch.
use vstd::prelude::*;

verus! {

/// One HTTP listener.
pub struct HTTPserverSettings {
    pub addr: String,
    pub port: u32,
    pub tls: u8,
}

/// The whole configuration.
pub struct Settings {
    pub log_level: u8,
    pub http_server: Vec<HTTPserverSettings>,
}

} // verus!
