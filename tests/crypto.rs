use guarakapa::crypto::{decrypt, derive_key, encrypt, generate_bytes, hash};
use guarakapa::error::StoreError;

#[test]
fn encrypting_and_decrypting_should_retrieve_content() {
    let content = "This is my text.\n\nLet's see if I can retrieve it!.";
    let salt = generate_bytes(16).unwrap();
    let pw = derive_key("very strong secret!".to_string(), &salt[..]);
    let iv = generate_bytes(16).unwrap();

    let encrypted = encrypt(content.as_bytes(), &iv[..], &pw[..]).unwrap();
    let decrypted = decrypt(encrypted.as_slice(), &iv[..], &pw[..]).unwrap();
    assert_eq!(content.as_bytes(), decrypted.as_slice());
}

#[test]
fn encrypting_should_yield_something_different() {
    let content = "This is my text.\n\nLet's see if I can retrieve it!.";
    let salt = generate_bytes(16).unwrap();
    let pw = derive_key("very strong secret!".to_string(), &salt[..]);
    let iv = generate_bytes(16).unwrap();

    let encrypted = encrypt(content.as_bytes(), &iv[..], &pw[..]).unwrap();
    assert!(content.as_bytes() != encrypted.as_slice());
}

#[test]
fn generated_bytes_are_different() {
    let bytes1 = generate_bytes(1024).unwrap();
    let bytes2 = generate_bytes(1024).unwrap();
    assert!(bytes1 != bytes2);
}

#[test]
fn generated_bytes_have_requested_length() {
    assert_eq!(generate_bytes(0).unwrap().len(), 0);
    assert_eq!(generate_bytes(16).unwrap().len(), 16);
    assert_eq!(generate_bytes(33).unwrap().len(), 33);
}

#[test]
fn hash_of_abc_is_the_known_digest() {
    let digest = hash(vec![b"abc".as_slice()]);
    let expected: [u8; 32] = [
        0xba, 0x78, 0x16, 0xbf, 0x8f, 0x01, 0xcf, 0xea, 0x41, 0x41, 0x40, 0xde, 0x5d, 0xae, 0x22,
        0x23, 0xb0, 0x03, 0x61, 0xa3, 0x96, 0x17, 0x7a, 0x9c, 0xb4, 0x10, 0xff, 0x61, 0xf2, 0x00,
        0x15, 0xad,
    ];
    assert_eq!(digest, expected);
}

#[test]
fn hash_covers_the_concatenation_of_chunks() {
    let joined = hash(vec![b"abc".as_slice()]);
    let split = hash(vec![b"a".as_slice(), b"".as_slice(), b"bc".as_slice()]);
    assert_eq!(joined, split);
    assert_ne!(hash(vec![b"abd".as_slice()]), joined);
}

#[test]
fn derive_key_hashes_password_then_salt() {
    let salt = [7u8; 16];
    let key = derive_key("pass".to_string(), &salt[..]);
    assert_eq!(key, hash(vec![b"pass".as_slice(), &salt[..]]));
    assert_ne!(key, derive_key("pasS".to_string(), &salt[..]));
    assert_ne!(key, derive_key("pass".to_string(), &[8u8; 16][..]));
}

#[test]
fn wrong_key_or_iv_length_is_invalid_input() {
    let key = [1u8; 32];
    let iv = [2u8; 16];
    assert_eq!(encrypt(b"x", &iv[..], &key[..31]), Err(StoreError::InvalidInput));
    assert_eq!(encrypt(b"x", &iv[..15], &key[..]), Err(StoreError::InvalidInput));
    assert_eq!(decrypt(b"x", &iv[..], &[0u8; 33][..]), Err(StoreError::InvalidInput));
    assert_eq!(decrypt(b"x", &[0u8; 17][..], &key[..]), Err(StoreError::InvalidInput));
}

#[test]
fn ciphertext_is_padded_to_whole_blocks() {
    let key = [1u8; 32];
    let iv = [2u8; 16];
    assert_eq!(encrypt(b"", &iv[..], &key[..]).unwrap().len(), 16);
    assert_eq!(encrypt(&[0u8; 16], &iv[..], &key[..]).unwrap().len(), 32);
    assert_eq!(encrypt(&[0u8; 17], &iv[..], &key[..]).unwrap().len(), 32);
}

#[test]
fn malformed_ciphertext_is_a_crypto_error() {
    let key = [1u8; 32];
    let iv = [2u8; 16];
    assert_eq!(decrypt(&[9u8; 5], &iv[..], &key[..]), Err(StoreError::CryptoError));
}

#[test]
fn partial_block_ciphertext_is_a_crypto_error() {
    let key = [1u8; 32];
    let iv = [2u8; 16];
    let c = encrypt(b"hello", &iv[..], &key[..]).unwrap();
    assert_eq!(decrypt(&c[..15], &iv[..], &key[..]), Err(StoreError::CryptoError));
    assert_eq!(decrypt(&c, &iv[..], &key[..]).unwrap(), b"hello".to_vec());
}
