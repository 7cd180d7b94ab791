//! Syslog parsing of a record, with `syslog_loose`.
use crate::named_bytes::NamedBytes;
use crate::parser::record::Record;
use crate::strings::utf8_to_str;
use chrono::FixedOffset;
use syslog_loose::{parse_message_with_year_tz, Variant};
use vstd::prelude::*;
use vstd::slice::slice_to_vec;
use vstd::utf8::{decode_utf8, decode_utf8_encode_utf8, encode_utf8, valid_utf8};

verus! {

/// What a record keeps of a parsed syslog message: the names of facility
/// and severity, the host name and the application name, each when the
/// message has it.
pub struct SyslogHeader {
    pub facility: Option<String>,
    pub severity: Option<String>,
    pub hostname: Option<String>,
    pub appname: Option<String>,
}

/// `s` occurs in `t` at some position.
pub open spec fn occurs_in(s: Seq<char>, t: Seq<char>) -> bool {
    exists|i: int, j: int| 0 <= i <= j <= t.len() && t.subrange(i, j) == s
}

/// The names that `SyslogFacility::as_str` gives.
pub open spec fn facility_names() -> Set<Seq<char>> {
    set![
        "kern"@, "user"@, "mail"@, "daemon"@, "auth"@, "syslog"@, "lpr"@, "news"@, "uucp"@,
        "cron"@, "authpriv"@, "ftp"@, "ntp"@, "audit"@, "alert"@, "clockd"@, "local0"@,
        "local1"@, "local2"@, "local3"@, "local4"@, "local5"@, "local6"@, "local7"@,
    ]
}

/// The names that `SyslogSeverity::as_str` gives.
pub open spec fn severity_names() -> Set<Seq<char>> {
    set!["emerg"@, "alert"@, "crit"@, "err"@, "warning"@, "notice"@, "info"@, "debug"@]
}

/// A text that may be missing, as plain characters.
pub open spec fn opt_text(o: Option<String>) -> Option<Seq<char>> {
    match o {
        Some(s) => Some(s@),
        None => None,
    }
}

/// A header as plain values: facility, severity, host name and
/// application name, in that order.
pub open spec fn header_view(h: SyslogHeader) -> (
    Option<Seq<char>>,
    Option<Seq<char>>,
    Option<Seq<char>>,
    Option<Seq<char>>,
) {
    (opt_text(h.facility), opt_text(h.severity), opt_text(h.hostname), opt_text(h.appname))
}

/// The header (facility name, severity name, host name, application name)
/// that `syslog_loose::parse_message_with_year_tz` finds in `text` with
/// `Variant::Either`, when a date without a year is placed in `year` and a
/// date without a zone at the UTC offset of `offset_secs` seconds.
pub uninterp spec fn syslog_header_at(text: Seq<char>, year: int, offset_secs: int) -> (
    Option<Seq<char>>,
    Option<Seq<char>>,
    Option<Seq<char>>,
    Option<Seq<char>>,
);

/// What holds of every header that the parser can give for `text`: the
/// facility and severity are among their names, and host and application
/// names are taken out of the text.
pub open spec fn header_fits(
    h: (Option<Seq<char>>, Option<Seq<char>>, Option<Seq<char>>, Option<Seq<char>>),
    text: Seq<char>,
) -> bool {
    &&& h.0 matches Some(f) ==> facility_names().contains(f)
    &&& h.1 matches Some(s) ==> severity_names().contains(s)
    &&& h.2 matches Some(n) ==> occurs_in(n, text)
    &&& h.3 matches Some(a) ==> occurs_in(a, text)
}

/// `field` with the header's parts stored under `facility`, `severity`,
/// `hostname` and `appname` where the header has them, and the whole
/// record under `msg`.
pub open spec fn with_header_fields(
    field: Map<Seq<char>, Seq<u8>>,
    h: (Option<Seq<char>>, Option<Seq<char>>, Option<Seq<char>>, Option<Seq<char>>),
    data: Seq<u8>,
) -> Map<Seq<char>, Seq<u8>> {
    let m1 = match h.3 {
        Some(a) => field.insert("appname"@, encode_utf8(a)),
        None => field,
    };
    let m2 = match h.2 {
        Some(n) => m1.insert("hostname"@, encode_utf8(n)),
        None => m1,
    };
    let m3 = match h.0 {
        Some(f) => m2.insert("facility"@, encode_utf8(f)),
        None => m2,
    };
    let m4 = match h.1 {
        Some(s) => m3.insert("severity"@, encode_utf8(s)),
        None => m3,
    };
    m4.insert("msg"@, data)
}

/// `syslog_loose::parse_message_with_year_tz` with `Variant::Either`
/// (RFC 5424 first, then RFC 3164), reduced to the parts a record keeps;
/// facility and severity are turned into their names with `as_str`. A date
/// without a year is placed in `year`, one without a zone at the fixed UTC
/// offset of `offset_secs` seconds. The parser gives the header named
/// `syslog_header_at`; of it the source shows that facility and severity
/// are among their names and that host and application names are slices of
/// the text.
#[verifier::external_body]
fn parse_header(text: &str, year: i32, offset_secs: i32) -> (h: SyslogHeader)
    requires
        -86400 < offset_secs < 86400,
    ensures
        header_view(h) == syslog_header_at(text@, year as int, offset_secs as int),
        header_fits(header_view(h), text@),
{
    let tz = FixedOffset::east_opt(offset_secs);
    let m = parse_message_with_year_tz(text, move |_| year, tz, Variant::Either);
    SyslogHeader {
        facility: m.facility.map(|f| f.as_str().to_string()),
        severity: m.severity.map(|s| s.as_str().to_string()),
        hostname: m.hostname.map(|s| s.to_string()),
        appname: m.appname.map(|s| s.to_string()),
    }
}

/// The UTF-8 bytes of a string.
fn text_bytes(s: &str) -> (r: Vec<u8>)
    ensures
        r@ == encode_utf8(s@),
{
    slice_to_vec(s.as_bytes())
}

/// Stores the parts of `header` in `field`, and the whole record text
/// under `msg`.
pub fn store_header(field: &mut NamedBytes, text: &str, header: SyslogHeader)
    ensures
        final(field)@ == with_header_fields(old(field)@, header_view(header), encode_utf8(text@)),
{
    if let Some(v) = header.appname {
        field.insert(String::from_str("appname"), text_bytes(v.as_str()));
    }
    if let Some(v) = header.hostname {
        field.insert(String::from_str("hostname"), text_bytes(v.as_str()));
    }
    if let Some(v) = header.facility {
        field.insert(String::from_str("facility"), text_bytes(v.as_str()));
    }
    if let Some(v) = header.severity {
        field.insert(String::from_str("severity"), text_bytes(v.as_str()));
    }
    field.insert(String::from_str("msg"), text_bytes(text));
}

/// The fields a record holds after its bytes `data` were parsed as syslog,
/// starting from `field`: unchanged for bytes that are not UTF-8.
pub open spec fn parsed_fields(
    field: Map<Seq<char>, Seq<u8>>,
    data: Seq<u8>,
    year: int,
    offset_secs: int,
) -> Map<Seq<char>, Seq<u8>> {
    if valid_utf8(data) {
        with_header_fields(field, syslog_header_at(decode_utf8(data), year, offset_secs), data)
    } else {
        field
    }
}

/// Parses the record's bytes as a syslog message when they are UTF-8 and
/// stores what is found in the record's fields. A date without a year is
/// placed in `year`; one without a zone is read at the UTC offset of
/// `offset_secs` seconds.
pub fn run(rec: &mut Record, year: i32, offset_secs: i32)
    requires
        -86400 < offset_secs < 86400,
    ensures
        final(rec).data@ == old(rec).data@,
        final(rec).field@ == parsed_fields(
            old(rec).field@,
            old(rec).data@,
            year as int,
            offset_secs as int,
        ),
{
    match utf8_to_str(rec.data.as_slice()) {
        Some(v) => {
            let header = parse_header(v, year, offset_secs);
            proof {
                decode_utf8_encode_utf8(rec.data@);
            }
            store_header(&mut rec.field, v, header);
        },
        None => {},
    };
}

} // verus!
