//! A received record: its raw bytes and the named fields parsed from them.
use crate::named_bytes::NamedBytes;
use crate::parser::syslog;
use crate::parser::syslog::parsed_fields;
use vstd::prelude::*;

verus! {

/// The bytes of a record and the fields found in it.
pub struct Record {
    pub field: NamedBytes,
    pub data: Vec<u8>,
}

impl Record {
    /// A record of the bytes `res`, with no fields yet.
    pub fn new(res: Vec<u8>) -> (r: Self)
        ensures
            r.data@ == res@,
            r.field@ == Map::<Seq<char>, Seq<u8>>::empty(),
    {
        return Record { data: res, field: NamedBytes::new() };
    }

    /// The record starts with `<`, as a syslog priority does.
    pub fn is_syslog(self) -> (r: bool)
        requires
            self.data@.len() > 0,
        ensures
            r == (self.data@[0] == '<' as u8),
    {
        if self.data[0] == '<' as u8 {
            return true;
        } else {
            return false;
        }
    }

    /// Parses the record as a syslog message and stores what it finds in
    /// `field`; a record that is not UTF-8 is left as it is. A date without
    /// a year is placed in `year`, one without a zone at the UTC offset of
    /// `offset_secs` seconds.
    pub fn syslog_parse(&mut self, year: i32, offset_secs: i32)
        requires
            -86400 < offset_secs < 86400,
        ensures
            final(self).data@ == old(self).data@,
            final(self).field@ == parsed_fields(
                old(self).field@,
                old(self).data@,
                year as int,
                offset_secs as int,
            ),
    {
        syslog::run(self, year, offset_secs);
    }
}

} // verus!
