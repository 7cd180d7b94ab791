use spacestorage::es_api::{
    bulk_documents, index_document, index_reply, json_body_accepted, JsonValue,
};

fn doc(index: &str, doc_type: &str, body: &str) -> (String, String, Vec<u8>) {
    (index.to_string(), doc_type.to_string(), body.as_bytes().to_vec())
}

#[test]
fn json_body_accepted_checks_utf8_json() {
    assert!(json_body_accepted(b"{\"a\": [1, 2]}"));
    assert!(!json_body_accepted(b"{\"a\": "));
    assert!(!json_body_accepted(b""));
    assert!(json_body_accepted(&[0xff, 0x7b]));
}

#[test]
fn bulk_documents_carry_names_of_their_action() {
    let body = "{\"index\":{\"_index\":\"logs\",\"_type\":\"doc\"}}\n{\"a\":1}\n{\"index\":{\"_index\":\"other\"}}\n{\"b\":2}";
    let docs = bulk_documents(body.as_bytes()).unwrap();
    assert_eq!(docs.len(), 2);
    assert_eq!(docs[0], doc("\"logs\"", "\"doc\"", "{\"a\":1}"));
    assert_eq!(docs[1], doc("\"other\"", "null", "{\"b\":2}"));
}

#[test]
fn bulk_documents_ignore_a_last_action_without_document() {
    let body = "{\"index\":{\"_index\":\"i\",\"_type\":\"t\"}}\n\"x\"\n{\"index\":{}}";
    let docs = bulk_documents(body.as_bytes()).unwrap();
    assert_eq!(docs, vec![doc("\"i\"", "\"t\"", "\"x\"")]);
}

#[test]
fn bulk_documents_refuse_a_line_that_is_not_json() {
    assert_eq!(bulk_documents(b"{\"index\":{}}\n{\"a\":1}\n"), None);
    assert_eq!(bulk_documents(b"{\"index\":{}}\nnot json"), None);
    assert_eq!(bulk_documents(b"oops\n{}"), None);
}

#[test]
fn bulk_documents_ignore_a_body_that_is_not_utf8() {
    assert_eq!(bulk_documents(&[0x7b, 0xff, 0x7d]), None);
}

#[test]
fn index_document_describes_the_server() {
    match index_document("node1") {
        JsonValue::Object(members) => {
            assert_eq!(members.len(), 5);
            assert_eq!(members[0].0, "name");
            assert!(matches!(&members[0].1, JsonValue::Str(s) if s == "node1"));
            assert_eq!(members[4].0, "version");
            assert!(matches!(&members[4].1, JsonValue::Object(v) if v.len() == 7));
        }
        JsonValue::Str(_) => panic!("expected an object"),
    }
}

#[test]
fn index_reply_is_pretty_json() {
    let expected = "{\n  \"cluster_name\": \"\",\n  \"cluster_uuid\": \"\",\n  \"name\": \"node1\",\n  \"tagline\": \"\",\n  \"version\": {\n    \"build_flavor\": \"default\",\n    \"build_snapshot\": \"false\",\n    \"build_type\": \"cargo\",\n    \"lucene_version\": \"\",\n    \"minimum_index_compatibility_version\": \"6.0.0-beta1\",\n    \"minimum_wire_compatibility_version\": \"6.8.0\",\n    \"number\": \"0.0.1\"\n  }\n}";
    assert_eq!(index_reply("node1"), expected);
}

#[test]
fn bulk_documents_read_only_the_index_member() {
    let body = "{\"_index\":\"top\",\"index\":{\"_type\":\"t\"},\"create\":{\"_index\":\"c\"}}\n{}";
    let docs = bulk_documents(body.as_bytes()).unwrap();
    assert_eq!(docs, vec![doc("null", "\"t\"", "{}")]);
}
