use spacestorage::bulk::{bulk_lines, BulkLine};

fn parts(lines: Vec<BulkLine>) -> Vec<(bool, Vec<u8>)> {
    lines
        .into_iter()
        .map(|l| match l {
            BulkLine::Action(b) => (true, b),
            BulkLine::Document(b) => (false, b),
        })
        .collect()
}

#[test]
fn bulk_lines_alternate() {
    let body = b"{\"index\":{\"_index\":\"i\"}}\n{\"a\":1}\n{\"index\":{}}\n{\"b\":2}";
    let lines = parts(bulk_lines(body).unwrap());
    assert_eq!(
        lines,
        vec![
            (true, b"{\"index\":{\"_index\":\"i\"}}".to_vec()),
            (false, b"{\"a\":1}".to_vec()),
            (true, b"{\"index\":{}}".to_vec()),
            (false, b"{\"b\":2}".to_vec()),
        ]
    );
}

#[test]
fn bulk_trailing_newline_gives_empty_last_line() {
    let lines = parts(bulk_lines(b"a\nb\n").unwrap());
    assert_eq!(lines, vec![(true, b"a".to_vec()), (false, b"b".to_vec()), (true, Vec::new())]);
    let lines = parts(bulk_lines(b"").unwrap());
    assert_eq!(lines, vec![(true, Vec::new())]);
}

#[test]
fn bulk_refuses_non_utf8() {
    assert!(bulk_lines(&[0xff, 10, 0x41]).is_none());
}

#[test]
fn bulk_lines_join_back() {
    let body = b"x\n\ny\nz\n";
    let joined: Vec<Vec<u8>> = parts(bulk_lines(body).unwrap()).into_iter().map(|(_, b)| b).collect();
    assert_eq!(joined.join(&b'\n'), body.to_vec());
}
