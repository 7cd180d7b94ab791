//! The routing of the HTTP server: which service answers a request, by its
//! method and the start of its path.
use crate::strings::str_starts_with;
use vstd::prelude::*;

verus! {

/// The request methods the router tells apart.
#[derive(Clone, Copy, PartialEq, Eq, Structural, Debug)]
pub enum Method {
    Get,
    Post,
    Put,
    Other,
}

/// The services of the HTTP server.
#[derive(Clone, Copy, PartialEq, Eq, Structural, Debug)]
pub enum Route {
    /// `GET /test...`: a greeting.
    Test,
    /// `GET /metrics...`: the metrics in the Prometheus text format.
    Metrics,
    /// `POST` or `PUT`: the body is appended to the store.
    Store,
    /// Any other `GET`: the store is read back.
    Load,
    /// Anything else.
    NotFound,
}

/// The service for a method and a path, the first rule that applies.
pub open spec fn route_of(method: Method, path: Seq<char>) -> Route {
    if method == Method::Get && "/test"@.is_prefix_of(path) {
        Route::Test
    } else if method == Method::Get && "/metrics"@.is_prefix_of(path) {
        Route::Metrics
    } else if method == Method::Post && "/"@.is_prefix_of(path) {
        Route::Store
    } else if method == Method::Put && "/"@.is_prefix_of(path) {
        Route::Store
    } else if method == Method::Get && "/"@.is_prefix_of(path) {
        Route::Load
    } else {
        Route::NotFound
    }
}

/// The service that answers a request.
pub fn route(method: Method, path: &str) -> (r: Route)
    ensures
        r == route_of(method, path@),
{
    if method == Method::Get && str_starts_with(path, "/test") {
        Route::Test
    } else if method == Method::Get && str_starts_with(path, "/metrics") {
        Route::Metrics
    } else if method == Method::Post && str_starts_with(path, "/") {
        Route::Store
    } else if method == Method::Put && str_starts_with(path, "/") {
        Route::Store
    } else if method == Method::Get && str_starts_with(path, "/") {
        Route::Load
    } else {
        Route::NotFound
    }
}

/// The reply of the dummy service to a name.
pub fn dummy_reply(name: &str) -> (r: String)
    ensures
        r@ == "Dummy: '"@ + name@ + "'!\n"@,
{
    String::from_str("Dummy: '").concat(name).concat("'!\n")
}

/// Which service answers, read off the request: a `GET` whose path starts
/// with `/test` is greeted, one whose path starts with `/metrics` gets the
/// metrics, a `POST` or `PUT` under `/` stores its body, any other `GET`
/// under `/` reads the store back, and a request whose path does not start
/// with `/` (or of another method) is not found.
pub proof fn law_route_by_method_and_prefix(method: Method, path: Seq<char>)
    ensures
        method == Method::Get && "/test"@.is_prefix_of(path) ==> route_of(method, path)
            == Route::Test,
        method == Method::Get && "/metrics"@.is_prefix_of(path) ==> route_of(method, path)
            == Route::Metrics,
        (method == Method::Post || method == Method::Put) && "/"@.is_prefix_of(path) ==> route_of(
            method,
            path,
        ) == Route::Store,
        method == Method::Get && "/"@.is_prefix_of(path) && !"/test"@.is_prefix_of(path)
            && !"/metrics"@.is_prefix_of(path) ==> route_of(method, path) == Route::Load,
        method == Method::Other || !"/"@.is_prefix_of(path) ==> route_of(method, path)
            == Route::NotFound,
{
    reveal_strlit("/test");
    reveal_strlit("/metrics");
    reveal_strlit("/");
    if "/test"@.is_prefix_of(path) {
        assert("/"@.is_prefix_of(path)) by {
            assert(path[0] == "/test"@[0]);
        }
        assert("/test"@.len() > 0);
    }
    if "/metrics"@.is_prefix_of(path) {
        assert("/"@.is_prefix_of(path)) by {
            assert(path[0] == "/metrics"@[0]);
        }
    }
    if "/test"@.is_prefix_of(path) && "/metrics"@.is_prefix_of(path) {
        assert(path[1] == "/test"@[1]);
        assert(path[1] == "/metrics"@[1]);
    }
}

} // verus!
