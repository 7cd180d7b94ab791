use spacestorage::router::{dummy_reply, route, Method, Route};
use spacestorage::server::{connection_response, Config};
use spacestorage::settings::{listener_kind, listeners, HTTPserverSettings, Listener, Settings, TLSSettings};
use spacestorage::vectofile::to_le_byte_vec;

#[test]
fn default_addresses() {
    let c = Config::default();
    assert_eq!(c.client_addr, "0.0.0.0:10100");
    assert_eq!(c.internode_addr, "0.0.0.0:10101");
}

#[test]
fn root_request_gets_200() {
    let (response, page) = connection_response(b"GET / HTTP/1.1\r\nHost: x\r\n\r\n");
    assert_eq!(response, "HTTP/1.1 200 OK\r\n\r\ntest2\n");
    assert_eq!(page, "hello.html");
}

#[test]
fn other_request_gets_404() {
    let (response, page) = connection_response(b"GET /other HTTP/1.1");
    assert_eq!(response, "HTTP/1.1 404 NOT FOUND\r\n\r\ntest2\n");
    assert_eq!(page, "404.html");
    let (response, _) = connection_response(b"");
    assert_eq!(response, "HTTP/1.1 404 NOT FOUND\r\n\r\ntest2\n");
}

#[test]
fn routes() {
    assert_eq!(route(Method::Get, "/test/1"), Route::Test);
    assert_eq!(route(Method::Get, "/metrics"), Route::Metrics);
    assert_eq!(route(Method::Post, "/data"), Route::Store);
    assert_eq!(route(Method::Put, "/"), Route::Store);
    assert_eq!(route(Method::Get, "/file"), Route::Load);
    assert_eq!(route(Method::Get, "nopath"), Route::NotFound);
    assert_eq!(route(Method::Other, "/test"), Route::NotFound);
    assert_eq!(route(Method::Post, "/test"), Route::Store);
}

#[test]
fn dummy_reply_text() {
    assert_eq!(dummy_reply("bob"), "Dummy: 'bob'!\n");
}

fn srv(proto: &str, cert: &str, key: &str) -> HTTPserverSettings {
    HTTPserverSettings {
        addr: "127.0.0.1:1".to_string(),
        tls: TLSSettings { certificate: cert.to_string(), key: key.to_string() },
        proto: proto.to_string(),
    }
}

#[test]
fn listener_kinds() {
    assert_eq!(listener_kind(&srv("http", "", "")), Listener::Http);
    assert_eq!(listener_kind(&srv("http", "c", "k")), Listener::Https);
    assert_eq!(listener_kind(&srv("http", "c", "")), Listener::Http);
    assert_eq!(listener_kind(&srv("tcp", "c", "k")), Listener::TcpTls);
    assert_eq!(listener_kind(&srv("tcp", "", "k")), Listener::Tcp);
    assert_eq!(listener_kind(&srv("udp", "c", "k")), Listener::DtlsUnsupported);
    assert_eq!(listener_kind(&srv("udp", "", "")), Listener::Udp);
    assert_eq!(listener_kind(&srv("sctp", "", "")), Listener::Ignored);
    let conf = Settings { log_level: 1, server: vec![srv("udp", "", ""), srv("http", "c", "k")] };
    assert_eq!(listeners(&conf), vec![Listener::Udp, Listener::Https]);
}

#[test]
fn little_endian_bytes() {
    let bytes = to_le_byte_vec(&[12, -1, 6345]);
    assert_eq!(bytes.len(), 48);
    assert_eq!(bytes[0], 12);
    assert!(bytes[1..16].iter().all(|b| *b == 0));
    assert!(bytes[16..32].iter().all(|b| *b == 0xff));
    assert_eq!(&bytes[32..34], &[0xc9, 0x18]);
}
