//! The call handler: parses each received record as syslog and buffers it
//! under the application name it carries.
use crate::global::{buffered, BufferAction, SpaceLocalBuffer};
use crate::parser::record::Record;
use crate::parser::syslog::parsed_fields;
use crate::strings::utf8_to_str;
use vstd::prelude::*;
use vstd::slice::slice_to_vec;
use vstd::utf8::{decode_utf8, valid_utf8};

verus! {

/// The destination a record's fields name: the application name when it
/// is there and is UTF-8, `test` otherwise.
pub open spec fn destination_of(field: Map<Seq<char>, Seq<u8>>) -> Seq<char> {
    if field.contains_key("appname"@) && valid_utf8(field["appname"@]) {
        decode_utf8(field["appname"@])
    } else {
        "test"@
    }
}

/// The destination of a parsed record.
pub fn destination(rec: &Record) -> (r: String)
    ensures
        r@ == destination_of(rec.field@),
{
    match rec.field.get("appname") {
        Some(v) => match utf8_to_str(v.as_slice()) {
            Some(s) => s.to_owned(),
            None => String::from_str("test"),
        },
        None => String::from_str("test"),
    }
}

/// Handles one received record: parses it as syslog and buffers it under
/// its destination. The answer to the sender is always `ok`; the action
/// says whether a destination has to be written out. A date without a year
/// is placed in `year`, one without a zone at the UTC offset of
/// `offset_secs` seconds.
pub fn run(slb: &mut SpaceLocalBuffer, data: &[u8], year: i32, offset_secs: i32) -> (r: BufferAction)
    requires
        -86400 < offset_secs < 86400,
    ensures
        buffered(
            *old(slb),
            *final(slb),
            destination_of(parsed_fields(Map::empty(), data@, year as int, offset_secs as int)),
            data@,
            r,
        ),
{
    let mut rec_data = Record::new(slice_to_vec(data));
    rec_data.syslog_parse(year, offset_secs);
    let name = destination(&rec_data);
    let r = slb.buffer_record(name.as_str(), data);
    r
}

} // verus!
