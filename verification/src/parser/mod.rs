//! Records received by the server, and the syslog header parsed out of them.
pub mod record;
pub mod syslog;
