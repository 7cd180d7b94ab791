//! What holds of record parsing and buffering as a whole.
use crate::global::{buffered, buffered_line, BufferAction, SpaceLocalBuffer, FLUSH_THRESHOLD};
use crate::handler::call::destination_of;
use crate::parser::syslog::with_header_fields;
use vstd::utf8::{encode_utf8, encode_utf8_decode_utf8, encode_utf8_valid_utf8};
use vstd::prelude::*;

verus! {

/// After parsing, the record's whole bytes stand under `msg`, and every
/// field other than the five that parsing writes keeps its bytes.
pub proof fn law_parse_keeps_record_and_other_fields(
    field: Map<Seq<char>, Seq<u8>>,
    h: (Option<Seq<char>>, Option<Seq<char>>, Option<Seq<char>>, Option<Seq<char>>),
    data: Seq<u8>,
    other: Seq<char>,
)
    requires
        other != "msg"@,
        other != "appname"@,
        other != "hostname"@,
        other != "facility"@,
        other != "severity"@,
    ensures
        with_header_fields(field, h, data).contains_key("msg"@),
        with_header_fields(field, h, data)["msg"@] == data,
        with_header_fields(field, h, data).contains_key(other) == field.contains_key(other),
        field.contains_key(other) ==> with_header_fields(field, h, data)[other] == field[other],
{
}

/// A record that is buffered without a flush ends the bytes of its
/// destination, followed by a line feed; a flush empties the whole buffer.
pub proof fn law_buffering_appends_or_flushes(
    before: SpaceLocalBuffer,
    after: SpaceLocalBuffer,
    name: Seq<char>,
    data: Seq<u8>,
    action: BufferAction,
)
    requires
        buffered(before, after, name, data, action),
    ensures
        action is Stored ==> after.buffer@.contains_key(name) && buffered_line(data).is_suffix_of(
            after.buffer@[name],
        ),
        action is Flush ==> after.buffer@ == Map::<Seq<char>, Seq<u8>>::empty(),
        action is Flush ==> before.buffer@[name].len() >= FLUSH_THRESHOLD,
{
    if action is Stored && before.buffer@.contains_key(name) {
        let old_bytes = before.buffer@[name];
        let new_bytes = old_bytes + buffered_line(data);
        assert(new_bytes.subrange(
            new_bytes.len() - buffered_line(data).len(),
            new_bytes.len() as int,
        ) =~= buffered_line(data));
    }
    if action is Stored && !before.buffer@.contains_key(name) {
        assert(buffered_line(data).subrange(0, buffered_line(data).len() as int) =~= buffered_line(data));
    }
}

/// A parsed record goes to the application name that the parser found in
/// it, and to `test` when the parser found none.
pub proof fn law_destination_is_parsed_appname(
    h: (Option<Seq<char>>, Option<Seq<char>>, Option<Seq<char>>, Option<Seq<char>>),
    data: Seq<u8>,
)
    ensures
        destination_of(with_header_fields(Map::empty(), h, data)) == match h.3 {
            Some(a) => a,
            None => "test"@,
        },
{
    reveal_strlit("appname");
    reveal_strlit("hostname");
    reveal_strlit("facility");
    reveal_strlit("severity");
    reveal_strlit("msg");
    assert("appname"@.len() != "hostname"@.len());
    assert("appname"@.len() != "facility"@.len());
    assert("appname"@.len() != "severity"@.len());
    assert("appname"@.len() != "msg"@.len());
    if let Some(a) = h.3 {
        encode_utf8_valid_utf8(a);
        encode_utf8_decode_utf8(a);
        assert(with_header_fields(Map::empty(), h, data)["appname"@] == encode_utf8(a));
    } else {
        assert(!with_header_fields(Map::empty(), h, data).contains_key("appname"@));
    }
}

/// Each part of the header that the parser found is stored under its own
/// name, whatever the other parts are; a part it did not find leaves that
/// name as it was.
pub proof fn law_each_part_stored_under_its_name(
    field: Map<Seq<char>, Seq<u8>>,
    h: (Option<Seq<char>>, Option<Seq<char>>, Option<Seq<char>>, Option<Seq<char>>),
    data: Seq<u8>,
)
    ensures
        ({
            let m = with_header_fields(field, h, data);
            &&& (h.0 matches Some(f) ==> m.contains_key("facility"@) && m["facility"@]
                == encode_utf8(f))
            &&& (h.1 matches Some(s) ==> m.contains_key("severity"@) && m["severity"@]
                == encode_utf8(s))
            &&& (h.2 matches Some(n) ==> m.contains_key("hostname"@) && m["hostname"@]
                == encode_utf8(n))
            &&& (h.3 matches Some(a) ==> m.contains_key("appname"@) && m["appname"@]
                == encode_utf8(a))
            &&& (h.0 is None ==> m.contains_key("facility"@) == field.contains_key("facility"@)
                && (field.contains_key("facility"@) ==> m["facility"@] == field["facility"@]))
            &&& (h.1 is None ==> m.contains_key("severity"@) == field.contains_key("severity"@)
                && (field.contains_key("severity"@) ==> m["severity"@] == field["severity"@]))
            &&& (h.2 is None ==> m.contains_key("hostname"@) == field.contains_key("hostname"@)
                && (field.contains_key("hostname"@) ==> m["hostname"@] == field["hostname"@]))
            &&& (h.3 is None ==> m.contains_key("appname"@) == field.contains_key("appname"@)
                && (field.contains_key("appname"@) ==> m["appname"@] == field["appname"@]))
        }),
{
    reveal_strlit("appname");
    reveal_strlit("hostname");
    reveal_strlit("facility");
    reveal_strlit("severity");
    reveal_strlit("msg");
    assert("appname"@ != "hostname"@) by { assert("appname"@.len() != "hostname"@.len()); }
    assert("appname"@ != "facility"@) by { assert("appname"@.len() != "facility"@.len()); }
    assert("appname"@ != "severity"@) by { assert("appname"@.len() != "severity"@.len()); }
    assert("appname"@ != "msg"@) by { assert("appname"@.len() != "msg"@.len()); }
    assert("hostname"@ != "facility"@) by { assert("hostname"@[0] != "facility"@[0]); }
    assert("hostname"@ != "severity"@) by { assert("hostname"@[0] != "severity"@[0]); }
    assert("hostname"@ != "msg"@) by { assert("hostname"@.len() != "msg"@.len()); }
    assert("facility"@ != "severity"@) by { assert("facility"@[0] != "severity"@[0]); }
    assert("facility"@ != "msg"@) by { assert("facility"@.len() != "msg"@.len()); }
    assert("severity"@ != "msg"@) by { assert("severity"@.len() != "msg"@.len()); }
}

} // verus!
