use spacestorage::global::{BufferAction, SpaceLocalBuffer, FLUSH_THRESHOLD};
use spacestorage::handler::{call, get_id_handler, redis};

#[test]
fn handler_ids() {
    assert_eq!(get_id_handler("redis".to_string()), 1);
    assert_eq!(get_id_handler("stub".to_string()), 0);
    assert_eq!(get_id_handler("".to_string()), 0);
}

#[test]
fn redis_replies_ok_bulk_string() {
    assert_eq!(redis::run(b"anything"), "$3\r\n+OK\r\n");
}

#[test]
fn buffer_starts_appends_and_flushes() {
    let mut slb = SpaceLocalBuffer::new();
    assert_eq!(slb.buffer_size, 1000000);
    assert!(matches!(slb.buffer_record("a", b"x"), BufferAction::Stored));
    assert_eq!(slb.buffer.get("a"), Some(&b"x\n".to_vec()));
    assert!(matches!(slb.buffer_record("a", b"yz"), BufferAction::Stored));
    assert_eq!(slb.buffer.get("a"), Some(&b"x\nyz\n".to_vec()));
    slb.insert("b".to_string(), vec![0u8; FLUSH_THRESHOLD]);
    match slb.buffer_record("b", b"late") {
        BufferAction::Flush { name, bytes } => {
            assert_eq!(name, "b");
            assert_eq!(bytes.len(), FLUSH_THRESHOLD);
        }
        BufferAction::Stored => panic!("expected a flush"),
    }
    assert_eq!(slb.buffer.get("a"), None);
    assert_eq!(slb.buffer.get("b"), None);
}

#[test]
fn call_buffers_under_application_name() {
    let mut slb = SpaceLocalBuffer::new();
    let line = b"<34>Oct 11 22:14:15 mymachine su: failed";
    assert!(matches!(call::run(&mut slb, line, 2024, 0), BufferAction::Stored));
    let mut expected = line.to_vec();
    expected.push(b'\n');
    assert_eq!(slb.buffer.get("su"), Some(&expected));
    assert!(matches!(call::run(&mut slb, b"plain", 2024, 0), BufferAction::Stored));
    assert_eq!(slb.buffer.get("test"), Some(&b"plain\n".to_vec()));
}

#[test]
fn call_buffers_rfc5424_record_under_its_application() {
    let mut slb = SpaceLocalBuffer::new();
    let line = b"<34>1 2003-10-11T22:14:15.003Z host su - ID47 - x";
    assert!(matches!(call::run(&mut slb, line, 1999, -7200), BufferAction::Stored));
    let mut expected = line.to_vec();
    expected.push(b'\n');
    assert_eq!(slb.buffer.get("su"), Some(&expected));
    assert_eq!(slb.buffer.get("test"), None);
}
