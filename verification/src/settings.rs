//! The configuration of the storage server: its listeners, and what each
//! listener entry starts.
use vstd::prelude::*;

verus! {

/// The certificate and key of a TLS listener; both empty for plain text.
pub struct TLSSettings {
    pub certificate: String,
    pub key: String,
}

/// One listener: its address, its TLS files and its protocol
/// (`http`, `tcp` or `udp`).
pub struct HTTPserverSettings {
    pub addr: String,
    pub tls: TLSSettings,
    pub proto: String,
}

/// The whole configuration.
pub struct Settings {
    pub log_level: u8,
    pub server: Vec<HTTPserverSettings>,
}

/// What the server starts for a listener entry.
#[derive(Clone, Copy, PartialEq, Eq, Structural, Debug)]
pub enum Listener {
    Https,
    Http,
    TcpTls,
    Tcp,
    /// A UDP listener with TLS files: DTLS is not supported and nothing
    /// listens.
    DtlsUnsupported,
    Udp,
    /// An unknown protocol: nothing listens.
    Ignored,
}

/// The entry names both a certificate and a key.
pub open spec fn uses_tls(srv: HTTPserverSettings) -> bool {
    srv.tls.key@.len() != 0 && srv.tls.certificate@.len() != 0
}

/// What the server starts for `srv`.
pub open spec fn listener_of(srv: HTTPserverSettings) -> Listener {
    if srv.proto@ == "http"@ {
        if uses_tls(srv) { Listener::Https } else { Listener::Http }
    } else if srv.proto@ == "tcp"@ {
        if uses_tls(srv) { Listener::TcpTls } else { Listener::Tcp }
    } else if srv.proto@ == "udp"@ {
        if uses_tls(srv) { Listener::DtlsUnsupported } else { Listener::Udp }
    } else {
        Listener::Ignored
    }
}

/// What the server starts for a listener entry.
pub fn listener_kind(srv: &HTTPserverSettings) -> (r: Listener)
    ensures
        r == listener_of(*srv),
{
    let tls = !srv.tls.key.as_str().is_empty() && !srv.tls.certificate.as_str().is_empty();
    if srv.proto == String::from_str("http") {
        if tls { Listener::Https } else { Listener::Http }
    } else if srv.proto == String::from_str("tcp") {
        if tls { Listener::TcpTls } else { Listener::Tcp }
    } else if srv.proto == String::from_str("udp") {
        if tls { Listener::DtlsUnsupported } else { Listener::Udp }
    } else {
        Listener::Ignored
    }
}

/// What the server starts, one entry after the other.
pub fn listeners(conf: &Settings) -> (r: Vec<Listener>)
    ensures
        r@.len() == conf.server@.len(),
        forall|i: int| 0 <= i < r@.len() ==> r@[i] == listener_of(conf.server@[i]),
{
    let mut r: Vec<Listener> = Vec::new();
    let mut i: usize = 0;
    while i < conf.server.len()
        invariant
            i <= conf.server@.len(),
            r@.len() == i,
            forall|j: int| 0 <= j < i ==> r@[j] == listener_of(conf.server@[j]),
        decreases conf.server@.len() - i,
    {
        r.push(listener_kind(&conf.server[i]));
        i += 1;
    }
    r
}

} // verus!
