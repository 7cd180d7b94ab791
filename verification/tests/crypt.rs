use spacestorage::crypt::{aes_decrypt, aes_encrypt, encrypt_and_decrypt, try_aes_decrypt};

const KEY: [u8; 16] = [0x00, 0x01, 0x02, 0x03, 0x04, 0x05, 0x06, 0x07, 0x08, 0x09, 0x0a, 0x0b, 0x0c, 0x0d, 0x0e, 0x0f];
const IV: [u8; 16] = [0xf0, 0xf1, 0xf2, 0xf3, 0xf4, 0xf5, 0xf6, 0xf7, 0xf8, 0xf9, 0xfa, 0xfb, 0xfc, 0xfd, 0xfe, 0xff];

#[test]
fn encrypt_known_vector() {
    let ciphertext = aes_encrypt(b"Hello world!", &IV, &KEY);
    assert_eq!(
        ciphertext,
        vec![0x1b, 0x7a, 0x4c, 0x40, 0x31, 0x24, 0xae, 0x2f, 0xb5, 0x2b, 0xed, 0xc5, 0x34, 0xd8, 0x2f, 0xa8]
    );
}

#[test]
fn decrypt_gives_plaintext_back() {
    let ciphertext = aes_encrypt(b"Hello world!", &IV, &KEY);
    assert_eq!(aes_decrypt(&ciphertext, &IV, &KEY), b"Hello world!".to_vec());
    let long = aes_encrypt(b"sixteen byte msg", &IV, &KEY);
    assert_eq!(long.len(), 32);
    assert_eq!(aes_decrypt(&long, &IV, &KEY), b"sixteen byte msg".to_vec());
    let empty = aes_encrypt(b"", &IV, &KEY);
    assert_eq!(empty.len(), 16);
    assert_eq!(aes_decrypt(&empty, &IV, &KEY), Vec::<u8>::new());
}

#[test]
fn try_decrypt_refuses_partial_blocks() {
    assert_eq!(try_aes_decrypt(&[1u8; 15], &IV, &KEY), None);
    assert_eq!(try_aes_decrypt(&[], &IV, &KEY), None);
    let ciphertext = aes_encrypt(b"abc", &IV, &KEY);
    assert_eq!(try_aes_decrypt(&ciphertext, &IV, &KEY), Some(b"abc".to_vec()));
}

#[test]
fn encrypt_and_decrypt_round_trip() {
    let (ciphertext, plain) = encrypt_and_decrypt(b"Hello world!", &IV, &KEY);
    assert_eq!(
        ciphertext,
        vec![0x1b, 0x7a, 0x4c, 0x40, 0x31, 0x24, 0xae, 0x2f, 0xb5, 0x2b, 0xed, 0xc5, 0x34, 0xd8, 0x2f, 0xa8]
    );
    assert_eq!(plain, b"Hello world!".to_vec());
}
