# spacestorage

A small storage server and its helpers: exact fraction arithmetic over
arbitrary-precision integers (with Machin's formula for pi), syslog records
and their buffering per application, the JSON side of a small
Elasticsearch API (bulk bodies split into documents, the server's
description document), AES-128-CBC encryption, request routing and
listener configuration.

`src/` is the library, verified with Verus: each public function's
contract fixes what it returns or changes, in terms of the library's own
spec functions and of named results of the outside calls it makes, and the `*_laws.rs` modules prove what
holds across functions (fractions stay in lowest terms, the reciprocal is
an involution, what the arctangent loop sums is the arctangent series,
parsing keeps the record under `msg`, buffering appends or flushes).
Calls into `num-bigint`, `syslog_loose` (with the year and UTC offset
that the caller supplies), `serde_json`, `redis-protocol`, `aes` and
`block-modes`, and the few std functions vstd leaves unspecified, go
through small wrappers whose contracts state what those crates document.

A record's fields and the per-application buffer are string-keyed maps.
vstd's `HashMap` contract only describes the contents when the key type
obeys its key model, which it establishes for integer keys and not for
`String` (a crate could only assume it). These maps are therefore held in
`NamedBytes`, a vector of distinct names and their bytes whose view is a
`Map` and whose invariant is that no name occurs twice.

`app/` holds the programs: the warp, tokio and hyper servers, the
Prometheus metrics, configuration loading with `config`, and the small
demonstrations; it runs the library's decisions and does the I/O.

`tests/` runs the library on concrete values.
