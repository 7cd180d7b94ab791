//! Numbers turned into the bytes that are written to a file.
use vstd::arithmetic::power2::pow2;
use vstd::prelude::*;

verus! {

/// The 16 little-endian bytes of the two's complement of `v`.
pub open spec fn le_bytes_i128(v: i128) -> Seq<u8> {
    Seq::new(16, |i: int| ((((v as int) % pow2(128) as int) / pow2((8 * i) as nat) as int) % 256) as u8)
}

/// The little-endian bytes of each value, one value after the other.
pub open spec fn le_bytes_all(values: Seq<i128>) -> Seq<u8>
    decreases values.len(),
{
    if values.len() == 0 {
        seq![]
    } else {
        le_bytes_all(values.drop_last()) + le_bytes_i128(values.last())
    }
}

/// `i128::to_le_bytes`, as a vector.
#[verifier::external_body]
fn i128_to_le_bytes(v: i128) -> (r: Vec<u8>)
    ensures
        r@ == le_bytes_i128(v),
{
    v.to_le_bytes().to_vec()
}

/// The little-endian bytes of the values, in order.
pub fn to_le_byte_vec(values: &[i128]) -> (r: Vec<u8>)
    ensures
        r@ == le_bytes_all(values@),
{
    let mut u8array: Vec<u8> = Vec::new();
    let mut i: usize = 0;
    while i < values.len()
        invariant
            i <= values@.len(),
            u8array@ == le_bytes_all(values@.take(i as int)),
        decreases values@.len() - i,
    {
        let mut bytes = i128_to_le_bytes(values[i]);
        u8array.append(&mut bytes);
        assert(values@.take(i + 1).drop_last() =~= values@.take(i as int));
        i += 1;
    }
    assert(values@.take(values@.len() as int) =~= values@);
    u8array
}

} // verus!
