//! The first server: its addresses and its answer to a request.
use crate::strings::bytes_start_with;
use vstd::prelude::*;
use vstd::utf8::encode_utf8;

verus! {

/// The addresses the server listens on.
pub struct Config {
    pub client_addr: String,
    pub internode_addr: String,
}

impl Default for Config {
    fn default() -> (r: Self)
        ensures
            r.client_addr@ == "0.0.0.0:10100"@,
            r.internode_addr@ == "0.0.0.0:10101"@,
    {
        Config {
            client_addr: String::from_str("0.0.0.0:10100"),
            internode_addr: String::from_str("0.0.0.0:10101"),
        }
    }
}

/// The request asks for the root page: it starts with `GET / `.
pub open spec fn asks_for_root(request: Seq<u8>) -> bool {
    encode_utf8("GET / "@).is_prefix_of(request)
}

/// The answer to a request and the name of the page it stands for: `200 OK`
/// and `hello.html` for a request of the root page, `404 NOT FOUND` and
/// `404.html` for any other; the body is `test2` and a line feed.
pub fn connection_response(buffer: &[u8]) -> (r: (String, &'static str))
    ensures
        asks_for_root(buffer@) ==> r.0@ == "HTTP/1.1 200 OK\r\n\r\n"@ + "test2\n"@ && r.1@
            == "hello.html"@,
        !asks_for_root(buffer@) ==> r.0@ == "HTTP/1.1 404 NOT FOUND\r\n\r\n"@ + "test2\n"@ && r.1@
            == "404.html"@,
{
    let get = "GET / ".as_bytes();
    let (status_line, filename) = if bytes_start_with(buffer, get) {
        ("HTTP/1.1 200 OK\r\n\r\n", "hello.html")
    } else {
        ("HTTP/1.1 404 NOT FOUND\r\n\r\n", "404.html")
    };
    let contents = "test2\n";
    let response = String::from_str(status_line).concat(contents);
    (response, filename)
}

} // verus!
