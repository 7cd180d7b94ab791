//! AES-128 in CBC mode with PKCS#7 padding, from the `aes` and
//! `block-modes` crates.
use aes::Aes128;
use block_modes::block_padding::Pkcs7;
use block_modes::{BlockMode, Cbc};
use vstd::prelude::*;
use vstd::slice::slice_to_vec;

verus! {

/// The ciphertext that AES-128 in CBC mode with PKCS#7 padding makes of
/// `plaintext` under `key` and `iv`.
pub uninterp spec fn aes128_cbc_encrypt(key: Seq<u8>, iv: Seq<u8>, plaintext: Seq<u8>) -> Seq<u8>;

/// The plaintext that AES-128 in CBC mode with PKCS#7 padding recovers from
/// `ciphertext` under `key` and `iv`; `None` where the ciphertext is not a
/// whole number of blocks or its padding is malformed.
pub uninterp spec fn aes128_cbc_decrypt(key: Seq<u8>, iv: Seq<u8>, ciphertext: Seq<u8>) -> Option<
    Seq<u8>,
>;

/// The length of `n` bytes padded to whole 16-byte blocks with PKCS#7,
/// which always adds at least one byte.
pub open spec fn padded_len(n: nat) -> nat {
    16 * (n / 16) + 16
}

/// `Cbc::<Aes128, Pkcs7>::new_from_slices(key, iv)` then `encrypt` on a
/// copy of `buffer` with the message `buffer[..pos]`: the ciphertext, or
/// `None` where the buffer has no room for the padding. block-modes pads to
/// the next whole block and encrypts in place; decrypting with the same key
/// and iv gives the message back.
#[verifier::external_body]
fn cbc_encrypt(key: &[u8], iv: &[u8], buffer: &[u8], pos: usize) -> (r: Option<Vec<u8>>)
    requires
        key@.len() == 16,
        iv@.len() == 16,
        pos <= buffer@.len(),
    ensures
        r is Some <==> padded_len(pos as nat) <= buffer@.len(),
        r matches Some(c) ==> {
            &&& c@ == aes128_cbc_encrypt(key@, iv@, buffer@.take(pos as int))
            &&& c@.len() == padded_len(pos as nat)
            &&& aes128_cbc_decrypt(key@, iv@, c@) == Some(buffer@.take(pos as int))
        },
{
    let cipher = Cbc::<Aes128, Pkcs7>::new_from_slices(key, iv).unwrap();
    let mut buf = buffer.to_vec();
    cipher.encrypt(&mut buf, pos).ok().map(|c| c.to_vec())
}

/// `Cbc::<Aes128, Pkcs7>::new_from_slices(key, iv)` then `decrypt` on a
/// copy of `ciphertext`: the plaintext, or `None` where decryption fails.
#[verifier::external_body]
fn cbc_decrypt(key: &[u8], iv: &[u8], ciphertext: &[u8]) -> (r: Option<Vec<u8>>)
    requires
        key@.len() == 16,
        iv@.len() == 16,
    ensures
        r is Some <==> aes128_cbc_decrypt(key@, iv@, ciphertext@) is Some,
        r matches Some(p) ==> aes128_cbc_decrypt(key@, iv@, ciphertext@) == Some(p@),
{
    let cipher = Cbc::<Aes128, Pkcs7>::new_from_slices(key, iv).unwrap();
    let mut buf = ciphertext.to_vec();
    cipher.decrypt(&mut buf).ok().map(|p| p.to_vec())
}

/// Encrypts `plaintext` (fewer than 32 bytes, as the 32-byte buffer must
/// also hold the padding) with AES-128-CBC and PKCS#7 padding.
pub fn aes_encrypt(plaintext: &[u8], iv: &[u8], key: &[u8]) -> (r: Vec<u8>)
    requires
        key@.len() == 16,
        iv@.len() == 16,
        plaintext@.len() < 32,
    ensures
        r@ == aes128_cbc_encrypt(key@, iv@, plaintext@),
        r@.len() == padded_len(plaintext@.len()),
        aes128_cbc_decrypt(key@, iv@, r@) == Some(plaintext@),
{
    let mut buffer: Vec<u8> = Vec::new();
    while buffer.len() < 32
        invariant
            buffer@.len() <= 32,
            forall|j: int| 0 <= j < buffer@.len() ==> buffer@[j] == 0,
        decreases 32 - buffer@.len(),
    {
        buffer.push(0u8);
    }
    let pos = plaintext.len();
    let mut i: usize = 0;
    while i < pos
        invariant
            pos == plaintext@.len(),
            pos < 32,
            i <= pos,
            buffer@.len() == 32,
            forall|j: int| 0 <= j < i ==> buffer@[j] == plaintext@[j],
        decreases pos - i,
    {
        buffer.set(i, plaintext[i]);
        i += 1;
    }
    assert(buffer@.take(pos as int) =~= plaintext@);
    let ciphertext = cbc_encrypt(key, iv, buffer.as_slice(), pos).unwrap();
    return ciphertext;
}

/// Decrypts `ciphertext` with AES-128-CBC and removes the PKCS#7 padding;
/// the ciphertext must decrypt.
pub fn aes_decrypt(ciphertext: &[u8], iv: &[u8], key: &[u8]) -> (r: Vec<u8>)
    requires
        key@.len() == 16,
        iv@.len() == 16,
        aes128_cbc_decrypt(key@, iv@, ciphertext@) is Some,
    ensures
        aes128_cbc_decrypt(key@, iv@, ciphertext@) == Some(r@),
{
    let buf = slice_to_vec(ciphertext);
    let decrypted_ciphertext = cbc_decrypt(key, iv, buf.as_slice()).unwrap();
    return decrypted_ciphertext;
}

/// Decrypts `ciphertext` when it decrypts, and gives `None` otherwise.
pub fn try_aes_decrypt(ciphertext: &[u8], iv: &[u8], key: &[u8]) -> (r: Option<Vec<u8>>)
    requires
        key@.len() == 16,
        iv@.len() == 16,
    ensures
        r is Some <==> aes128_cbc_decrypt(key@, iv@, ciphertext@) is Some,
        r matches Some(p) ==> aes128_cbc_decrypt(key@, iv@, ciphertext@) == Some(p@),
{
    cbc_decrypt(key, iv, ciphertext)
}

/// Encrypts `plaintext` and decrypts the ciphertext again, giving both:
/// the decryption gives the plaintext back.
pub fn encrypt_and_decrypt(plaintext: &[u8], iv: &[u8], key: &[u8]) -> (r: (Vec<u8>, Vec<u8>))
    requires
        key@.len() == 16,
        iv@.len() == 16,
        plaintext@.len() < 32,
    ensures
        r.0@ == aes128_cbc_encrypt(key@, iv@, plaintext@),
        r.1@ == plaintext@,
{
    let ciphertext = aes_encrypt(plaintext, iv, key);
    let decrypted = aes_decrypt(ciphertext.as_slice(), iv, key);
    (ciphertext, decrypted)
}

} // verus!
