//! The redis handler: answers every request with the RESP2 bulk string
//! `+OK`, encoded with `redis-protocol`.
use crate::bignum::decimal_text;
use crate::strings::{ascii_bytes, lemma_ascii_text, utf8_lossy};
use bytes::{Bytes, BytesMut};
use redis_protocol::resp2::prelude::{encode_bytes, Frame};
use redis_protocol::types::RedisProtocolError;
use vstd::prelude::*;
use vstd::string::is_ascii_spec_bytes;

verus! {

#[verifier::external_type_specification]
#[verifier::external_body]
pub struct ExRedisProtocolError(RedisProtocolError);

/// A RESP2 bulk string: `$`, the length in decimal, CR LF, the bytes, CR LF.
pub open spec fn bulk_string_frame(data: Seq<u8>) -> Seq<u8> {
    seq![36u8] + ascii_bytes(decimal_text(data.len())) + seq![13u8, 10u8] + data + seq![13u8, 10u8]
}

/// `encode_bytes` of `Frame::BulkString(data)` into an empty `BytesMut`,
/// whose bytes are returned. redis-protocol grows the buffer as the frame
/// needs, so encoding a bulk string does not fail.
#[verifier::external_body]
fn encode_bulk_string(data: &[u8]) -> (r: Result<Vec<u8>, RedisProtocolError>)
    ensures
        r is Ok,
        r matches Ok(b) ==> b@ == bulk_string_frame(data@),
{
    let frame = Frame::BulkString(Bytes::copy_from_slice(data));
    let mut buf = BytesMut::new();
    encode_bytes(&mut buf, &frame).map(|_| buf.to_vec())
}

/// The reply of the redis handler to any data: the bulk string `+OK`,
/// read back as text.
pub fn run(data: &[u8]) -> (r: String)
    ensures
        r@ == "$3\r\n+OK\r\n"@,
{
    let text = "+OK";
    proof {
        reveal_strlit("+OK");
        reveal_strlit("$3\r\n+OK\r\n");
        is_ascii_spec_bytes(text);
    }
    let buf = encode_bulk_string(text.as_bytes()).unwrap();
    proof {
        let reply = "$3\r\n+OK\r\n"@;
        lemma_ascii_text(reply);
        assert(decimal_text(3) == seq!['3']);
        assert(buf@ =~= ascii_bytes(reply));
    }
    utf8_lossy(buf.as_slice())
}

} // verus!
