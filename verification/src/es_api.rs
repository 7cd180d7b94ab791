//! The JSON side of the Elasticsearch endpoints: which bodies they accept,
//! the documents of a bulk body with the index and type named before each,
//! and the document that describes this server.
use crate::bulk::{bulk_line_view, bulk_lines, lines_of, BulkLine};
use crate::strings::utf8_to_str;
use vstd::prelude::*;
use vstd::slice::slice_to_vec;
use vstd::utf8::{decode_utf8, valid_utf8};

verus! {

/// `serde_json::from_str::<serde_json::Value>` accepts `text`.
pub uninterp spec fn json_parses(text: Seq<char>) -> bool;

/// `serde_json::from_str::<serde_json::Value>(text)`, then indexed by each
/// key of `path` in turn (a missing member gives `null`), written back as
/// JSON text with `to_string`.
pub uninterp spec fn json_path_text(text: Seq<char>, path: Seq<Seq<char>>) -> Seq<char>;

/// `serde_json::from_str::<serde_json::Value>`: whether `text` parses as
/// JSON.
#[verifier::external_body]
fn json_accepts(text: &str) -> (r: bool)
    ensures
        r == json_parses(text@),
{
    serde_json::from_str::<serde_json::Value>(text).is_ok()
}

/// The keys of a member path, as plain values.
pub open spec fn path_view(path: Seq<&str>) -> Seq<Seq<char>> {
    path.map_values(|k: &str| k@)
}

/// `serde_json::from_str::<serde_json::Value>(text)`, then `value[k]` for
/// each key `k` of `path` in turn, written out with `to_string`; `None` when
/// the text is not JSON. The text is named `json_path_text`.
#[verifier::external_body]
fn json_path(text: &str, path: &[&str]) -> (r: Option<String>)
    ensures
        r is Some <==> json_parses(text@),
        r matches Some(s) ==> s@ == json_path_text(text@, path_view(path@)),
{
    match serde_json::from_str::<serde_json::Value>(text) {
        Ok(v) => Some(path.iter().fold(&v, |member, k| &member[*k]).to_string()),
        Err(_) => None,
    }
}

/// The member path of a bulk action line that names the index.
pub open spec fn index_path() -> Seq<Seq<char>> {
    seq!["index"@, "_index"@]
}

/// The member path of a bulk action line that names the type.
pub open spec fn type_path() -> Seq<Seq<char>> {
    seq!["index"@, "_type"@]
}

/// The index and the type that a bulk action line names: its members
/// `index._index` and `index._type`, as JSON text.
pub open spec fn action_names_of(text: Seq<char>) -> (Seq<char>, Seq<char>) {
    (json_path_text(text, index_path()), json_path_text(text, type_path()))
}

/// The index and the type that the bulk action line `line` names; `None`
/// when the line is not JSON.
fn action_names(line: &str) -> (r: Option<(String, String)>)
    ensures
        r is Some <==> json_parses(line@),
        r matches Some(p) ==> (p.0@, p.1@) == action_names_of(line@),
{
    let index_keys: [&str; 2] = ["index", "_index"];
    let type_keys: [&str; 2] = ["index", "_type"];
    proof {
        assert(path_view(index_keys@) =~= index_path());
        assert(path_view(type_keys@) =~= type_path());
    }
    let index_name = match json_path(line, index_keys.as_slice()) {
        Some(s) => s,
        None => return None,
    };
    let doc_type = match json_path(line, type_keys.as_slice()) {
        Some(s) => s,
        None => return None,
    };
    Some((index_name, doc_type))
}

/// A body of `put` or of a bulk request to one index is taken when it is
/// not UTF-8 (it is then ignored) or when it is JSON.
pub fn json_body_accepted(body: &[u8]) -> (r: bool)
    ensures
        r == (valid_utf8(body@) ==> json_parses(decode_utf8(body@))),
{
    match utf8_to_str(body) {
        Some(s) => json_accepts(s),
        None => true,
    }
}

/// The line is UTF-8 text that parses as JSON.
pub open spec fn json_line(line: Seq<u8>) -> bool {
    valid_utf8(line) && json_parses(decode_utf8(line))
}

/// Every line parses as JSON.
pub open spec fn all_json(lines: Seq<Seq<u8>>) -> bool {
    forall|i: int| 0 <= i < lines.len() ==> #[trigger] json_line(lines[i])
}

/// The `k`-th document of a bulk body's lines (from 0): the line after the
/// `k`-th action line, with the index and type that the action line names.
pub open spec fn bulk_document(lines: Seq<Seq<u8>>, k: int) -> (Seq<char>, Seq<char>, Seq<u8>) {
    let names = action_names_of(decode_utf8(lines[2 * k]));
    (names.0, names.1, lines[2 * k + 1])
}

/// A document with its index and type, as plain values.
pub open spec fn document_view(d: (String, String, Vec<u8>)) -> (Seq<char>, Seq<char>, Seq<u8>) {
    (d.0@, d.1@, d.2@)
}

/// The documents of a bulk body, each with the index and type of the action
/// line before it. `None` when the body is not UTF-8 (it is then ignored)
/// or when one of its lines is not JSON (the request fails).
pub fn bulk_documents(body: &[u8]) -> (r: Option<Vec<(String, String, Vec<u8>)>>)
    ensures
        r is Some <==> valid_utf8(body@) && all_json(lines_of(body@)),
        r matches Some(docs) ==> {
            &&& docs@.len() == lines_of(body@).len() / 2
            &&& forall|k: int|
                0 <= k < docs@.len() ==> #[trigger] document_view(docs@[k]) == bulk_document(
                    lines_of(body@),
                    k,
                )
        },
{
    let lines = match bulk_lines(body) {
        Some(l) => l,
        None => return None,
    };
    let ghost all = lines_of(body@);
    let mut docs: Vec<(String, String, Vec<u8>)> = Vec::new();
    let mut index_name = String::new();
    let mut doc_type = String::new();
    let mut i: usize = 0;
    while i < lines.len()
        invariant
            valid_utf8(body@),
            all == lines_of(body@),
            lines@.len() == all.len(),
            forall|j: int|
                0 <= j < lines@.len() ==> #[trigger] bulk_line_view(lines@[j]) == (j % 2 == 0,
                all[j]),
            i <= lines@.len(),
            forall|j: int| 0 <= j < i ==> #[trigger] json_line(all[j]),
            docs@.len() == i / 2,
            forall|k: int|
                0 <= k < docs@.len() ==> #[trigger] document_view(docs@[k]) == bulk_document(
                    all,
                    k,
                ),
            i % 2 == 1 ==> (index_name@, doc_type@) == action_names_of(
                decode_utf8(all[i - 1]),
            ),
        decreases lines@.len() - i,
    {
        assert(bulk_line_view(lines@[i as int]) == (i % 2 == 0, all[i as int]));
        match &lines[i] {
            BulkLine::Action(b) => {
                let s = match utf8_to_str(b.as_slice()) {
                    Some(s) => s,
                    None => {
                        assert(!json_line(all[i as int]));
                        return None;
                    },
                };
                match action_names(s) {
                    Some(p) => {
                        index_name = p.0;
                        doc_type = p.1;
                    },
                    None => {
                        assert(!json_line(all[i as int]));
                        return None;
                    },
                }
            },
            BulkLine::Document(b) => {
                let s = match utf8_to_str(b.as_slice()) {
                    Some(s) => s,
                    None => {
                        assert(!json_line(all[i as int]));
                        return None;
                    },
                };
                if !json_accepts(s) {
                    assert(!json_line(all[i as int]));
                    return None;
                }
                let doc = (index_name.clone(), doc_type.clone(), slice_to_vec(b.as_slice()));
                docs.push(doc);
                assert(document_view(docs@[docs@.len() - 1]) == bulk_document(
                    all,
                    (i / 2) as int,
                ));
            },
        }
        i += 1;
    }
    Some(docs)
}

/// A JSON value made of strings and objects, the members of an object in
/// the order they were added.
pub enum JsonValue {
    Str(String),
    Object(Vec<(String, JsonValue)>),
}

/// A JSON value of strings and objects, as plain values.
pub enum JsonSpec {
    Str(Seq<char>),
    Object(Seq<(Seq<char>, JsonSpec)>),
}

/// The plain value of a `JsonValue`.
pub open spec fn json_view(v: JsonValue) -> JsonSpec
    decreases v,
{
    match v {
        JsonValue::Str(s) => JsonSpec::Str(s@),
        JsonValue::Object(members) => JsonSpec::Object(
            Seq::new(
                members@.len(),
                |i: int|
                    (members@[i].0@, if 0 <= i < members@.len() {
                        json_view(members@[i].1)
                    } else {
                        JsonSpec::Str(Seq::empty())
                    }),
            ),
        ),
    }
}

/// `serde_json::Value`, carried from one trusted call to the next.
#[verifier::external_type_specification]
#[verifier::external_body]
pub struct ExJsonValue(serde_json::Value);

/// The text that `serde_json::to_string_pretty` writes for a value of
/// strings and objects: two spaces of indent per level, members in the
/// order of the crate's default (sorted) map.
pub uninterp spec fn pretty_json(v: JsonSpec) -> Seq<char>;

/// The `serde_json::Value` a `JsonValue` stands for: a string as
/// `Value::String`, an object as `Value::Object` holding the same members.
/// Nothing is stated of the result, which only `to_pretty_json` reads.
#[verifier::external_body]
fn serde_value(v: &JsonValue) -> serde_json::Value {
    match v {
        JsonValue::Str(s) => serde_json::Value::String(s.clone()),
        JsonValue::Object(members) => serde_json::Value::Object(
            members.iter().map(|(k, e)| (k.clone(), serde_value(e))).collect(),
        ),
    }
}

/// `serde_json::to_string_pretty` of the value, written through the
/// alternate form of `Value`'s `Display`, which calls the same pretty
/// writer and cannot fail for a value with string keys. The text is named
/// `pretty_json`.
#[verifier::external_body]
fn to_pretty_json(v: &JsonValue) -> (r: String)
    ensures
        r@ == pretty_json(json_view(*v)),
{
    format!("{:#}", serde_value(v))
}

/// The members of an object, as plain values; none for a string.
pub open spec fn object_members(v: JsonSpec) -> Seq<(Seq<char>, JsonSpec)> {
    match v {
        JsonSpec::Object(m) => m,
        JsonSpec::Str(_) => Seq::empty(),
    }
}

/// An object's plain value holds its members' names and plain values, in
/// their order.
proof fn lemma_object_view(v: JsonValue)
    requires
        v is Object,
    ensures
        json_view(v) is Object,
        object_members(json_view(v)).len() == v->Object_0@.len(),
        forall|i: int|
            0 <= i < v->Object_0@.len() ==> #[trigger] object_members(json_view(v))[i] == (
                v->Object_0@[i].0@,
                json_view(v->Object_0@[i].1),
            ),
{
}

/// A string value.
fn json_str(s: &str) -> (r: JsonValue)
    ensures
        json_view(r) == JsonSpec::Str(s@),
{
    JsonValue::Str(s.to_string())
}

/// An object member with a string value.
fn str_member(k: &str, v: &str) -> (r: (String, JsonValue))
    ensures
        r.0@ == k@,
        json_view(r.1) == JsonSpec::Str(v@),
{
    (k.to_string(), json_str(v))
}

/// The `version` member of the document that describes this server.
pub open spec fn version_view() -> JsonSpec {
    JsonSpec::Object(
        seq![
            ("number"@, JsonSpec::Str("0.0.1"@)),
            ("build_flavor"@, JsonSpec::Str("default"@)),
            ("build_type"@, JsonSpec::Str("cargo"@)),
            ("build_snapshot"@, JsonSpec::Str("false"@)),
            ("lucene_version"@, JsonSpec::Str(""@)),
            ("minimum_wire_compatibility_version"@, JsonSpec::Str("6.8.0"@)),
            ("minimum_index_compatibility_version"@, JsonSpec::Str("6.0.0-beta1"@)),
        ],
    )
}

/// The document that describes this server, running on `hostname`.
pub open spec fn index_document_view(hostname: Seq<char>) -> JsonSpec {
    JsonSpec::Object(
        seq![
            ("name"@, JsonSpec::Str(hostname)),
            ("cluster_name"@, JsonSpec::Str(""@)),
            ("cluster_uuid"@, JsonSpec::Str(""@)),
            ("tagline"@, JsonSpec::Str(""@)),
            ("version"@, version_view()),
        ],
    )
}

/// The document that describes this server, running on `hostname`, as the
/// root of the Elasticsearch API gives it.
pub fn index_document(hostname: &str) -> (r: JsonValue)
    ensures
        json_view(r) == index_document_view(hostname@),
{
    let mut version: Vec<(String, JsonValue)> = Vec::new();
    version.push(str_member("number", "0.0.1"));
    version.push(str_member("build_flavor", "default"));
    version.push(str_member("build_type", "cargo"));
    version.push(str_member("build_snapshot", "false"));
    version.push(str_member("lucene_version", ""));
    version.push(str_member("minimum_wire_compatibility_version", "6.8.0"));
    version.push(str_member("minimum_index_compatibility_version", "6.0.0-beta1"));
    let version = JsonValue::Object(version);
    proof {
        lemma_object_view(version);
        assert(object_members(json_view(version)) =~= object_members(version_view()));
    }
    let mut data: Vec<(String, JsonValue)> = Vec::new();
    data.push(str_member("name", hostname));
    data.push(str_member("cluster_name", ""));
    data.push(str_member("cluster_uuid", ""));
    data.push(str_member("tagline", ""));
    data.push((String::from_str("version"), version));
    let r = JsonValue::Object(data);
    proof {
        lemma_object_view(r);
        assert(object_members(json_view(r)) =~= object_members(index_document_view(hostname@)));
    }
    r
}

/// The reply of the root of the Elasticsearch API: the document that
/// describes this server, running on `hostname`, as pretty JSON text.
pub fn index_reply(hostname: &str) -> (r: String)
    ensures
        r@ == pretty_json(index_document_view(hostname@)),
{
    to_pretty_json(&index_document(hostname))
}

} // verus!
