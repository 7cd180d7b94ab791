use spacestorage::parser::record::Record;
use spacestorage::parser::syslog::{store_header, SyslogHeader};
use spacestorage::named_bytes::NamedBytes;

fn field(rec: &Record, name: &str) -> Option<Vec<u8>> {
    rec.field.get(name).cloned()
}

#[test]
fn new_record_has_no_fields() {
    let rec = Record::new(b"abc".to_vec());
    assert_eq!(rec.data, b"abc".to_vec());
    assert_eq!(field(&rec, "msg"), None);
}

#[test]
fn is_syslog_checks_first_byte() {
    assert!(Record::new(b"<34>x".to_vec()).is_syslog());
    assert!(!Record::new(b"34>x".to_vec()).is_syslog());
}

#[test]
fn syslog_3164_fields() {
    let text = "<34>Oct 11 22:14:15 mymachine su: 'su root' failed for lonvick on /dev/pts/8";
    let mut rec = Record::new(text.as_bytes().to_vec());
    rec.syslog_parse(2024, 0);
    assert_eq!(field(&rec, "appname"), Some(b"su".to_vec()));
    assert_eq!(field(&rec, "hostname"), Some(b"mymachine".to_vec()));
    assert_eq!(field(&rec, "facility"), Some(b"auth".to_vec()));
    assert_eq!(field(&rec, "severity"), Some(b"crit".to_vec()));
    assert_eq!(field(&rec, "msg"), Some(text.as_bytes().to_vec()));
    assert_eq!(rec.data, text.as_bytes().to_vec());
}

#[test]
fn syslog_5424_fields() {
    let text = "<165>1 2003-10-11T22:14:15.003Z mymachine.example.com evntslog - ID47 - An application event";
    let mut rec = Record::new(text.as_bytes().to_vec());
    rec.syslog_parse(2024, 0);
    assert_eq!(field(&rec, "appname"), Some(b"evntslog".to_vec()));
    assert_eq!(field(&rec, "hostname"), Some(b"mymachine.example.com".to_vec()));
    assert_eq!(field(&rec, "facility"), Some(b"local4".to_vec()));
    assert_eq!(field(&rec, "severity"), Some(b"notice".to_vec()));
    assert_eq!(field(&rec, "msg"), Some(text.as_bytes().to_vec()));
}

#[test]
fn unparsable_text_keeps_only_the_message() {
    let mut rec = Record::new(b"hello".to_vec());
    rec.syslog_parse(2024, 0);
    assert_eq!(field(&rec, "appname"), None);
    assert_eq!(field(&rec, "facility"), None);
    assert_eq!(field(&rec, "msg"), Some(b"hello".to_vec()));
}

#[test]
fn invalid_utf8_is_left_alone() {
    let mut rec = Record::new(vec![0xff, 0xfe, 0x3c]);
    rec.syslog_parse(2024, 0);
    assert_eq!(field(&rec, "msg"), None);
    assert_eq!(rec.data, vec![0xff, 0xfe, 0x3c]);
}

#[test]
fn syslog_date_without_year_takes_the_given_year() {
    let text = "<34>Feb 29 22:14:15 mymachine su: leap day";
    let mut leap = Record::new(text.as_bytes().to_vec());
    leap.syslog_parse(2024, 3600);
    assert_eq!(field(&leap, "appname"), Some(b"su".to_vec()));
    assert_eq!(field(&leap, "hostname"), Some(b"mymachine".to_vec()));
    let mut plain = Record::new(text.as_bytes().to_vec());
    plain.syslog_parse(2023, 3600);
    assert_eq!(field(&plain, "appname"), None);
    assert_eq!(field(&plain, "hostname"), None);
    assert_eq!(field(&plain, "msg"), Some(text.as_bytes().to_vec()));
}

#[test]
fn store_header_writes_present_parts() {
    let mut f = NamedBytes::new();
    let h = SyslogHeader {
        facility: None,
        severity: Some("info".to_string()),
        hostname: None,
        appname: Some("app".to_string()),
    };
    store_header(&mut f, "line", h);
    assert_eq!(f.get("appname"), Some(&b"app".to_vec()));
    assert_eq!(f.get("severity"), Some(&b"info".to_vec()));
    assert_eq!(f.get("hostname"), None);
    assert_eq!(f.get("msg"), Some(&b"line".to_vec()));
}

#[test]
fn named_bytes_insert_replace_clear() {
    let mut f = NamedBytes::new();
    f.insert("a".to_string(), vec![1]);
    f.insert("b".to_string(), vec![2]);
    f.insert("a".to_string(), vec![3]);
    assert_eq!(f.get("a"), Some(&vec![3]));
    assert_eq!(f.get("b"), Some(&vec![2]));
    assert_eq!(f.get("c"), None);
    f.clear();
    assert_eq!(f.get("a"), None);
}
