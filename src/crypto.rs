//! Cryptographic primitives: AES-256 in CBC mode, SHA-256, key derivation
//! and secure random bytes.

use vstd::prelude::*;
use vstd::utf8::encode_utf8;
use crate::error::StoreError;

verus! {

/// Length of a key, in bytes (256 bits).
pub const KEY_LEN: usize = 32;

/// Length of an initialization vector, in bytes (128 bits).
pub const IV_LEN: usize = 16;

/// Longest input the cipher takes in one call: its length must fit in a C
/// `int`.
pub const MAX_CIPHERTEXT: usize = 2147483647;

/// Longest plaintext accepted, so that its padded ciphertext can be
/// decrypted again in one call.
pub const MAX_PLAINTEXT: usize = 2147483631;

/// Length of the AES-CBC ciphertext of `n` bytes with PKCS#7 padding: the
/// next multiple of the block size, a whole block more when `n` is one.
pub open spec fn padded_len(n: nat) -> nat {
    (n + 16 - n % 16) as nat
}

#[verifier::external_type_specification]
#[verifier::external_body]
pub struct ExErrorStack(openssl::error::ErrorStack);

#[verifier::external_type_specification]
#[verifier::external_body]
pub struct ExRandError(rand::Error);

/// The AES-256-CBC ciphertext (with PKCS#7 padding) of `plaintext` under
/// `key` and `iv`.
pub uninterp spec fn aes256_cbc(key: Seq<u8>, iv: Seq<u8>, plaintext: Seq<u8>) -> Seq<u8>;

/// The SHA-256 digest of `data`.
pub uninterp spec fn sha256_digest(data: Seq<u8>) -> Seq<u8>;

/// Relies on openssl::symm::encrypt with AES-256-CBC (padding on, as the
/// crate's default): it returns the ciphertext of `content` under `key` and
/// `iv`. Inputs longer than a C `int` would panic, hence the bound.
#[verifier::external_body]
fn aes_encrypt(content: &[u8], iv: &[u8], key: &[u8]) -> (r: Result<
    Vec<u8>,
    openssl::error::ErrorStack,
>)
    requires
        key@.len() == KEY_LEN,
        iv@.len() == IV_LEN,
        content@.len() <= MAX_PLAINTEXT,
    ensures
        r is Ok && r->Ok_0@ == aes256_cbc(key@, iv@, content@),
        r is Ok && r->Ok_0@.len() == padded_len(content@.len()),
{
    openssl::symm::encrypt(openssl::symm::Cipher::aes_256_cbc(), key, Some(iv), content)
}

/// Relies on openssl::symm::decrypt with AES-256-CBC: the ciphertext of a
/// plaintext decrypts to that plaintext; with padding on, an input that is
/// not a whole number of blocks is rejected. Inputs longer than a C `int` would
/// panic, hence the bound.
#[verifier::external_body]
fn aes_decrypt(secret: &[u8], iv: &[u8], key: &[u8]) -> (r: Result<
    Vec<u8>,
    openssl::error::ErrorStack,
>)
    requires
        key@.len() == KEY_LEN,
        iv@.len() == IV_LEN,
        secret@.len() <= MAX_CIPHERTEXT,
    ensures
        forall|p: Seq<u8>|
            secret@ == #[trigger] aes256_cbc(key@, iv@, p) ==> (r is Ok && r->Ok_0@ == p),
        secret@.len() % 16 != 0 ==> r is Err,
{
    openssl::symm::decrypt(openssl::symm::Cipher::aes_256_cbc(), key, Some(iv), secret)
}

/// Relies on openssl::sha::sha256: the 32-byte digest of `data`.
#[verifier::external_body]
fn sha256(data: &[u8]) -> (r: [u8; 32])
    ensures
        r@ == sha256_digest(data@),
{
    openssl::sha::sha256(data)
}

/// Relies on rand's OsRng and RngCore::try_fill_bytes: overwrites the bytes
/// of `buf` from the operating system's secure generator, keeping its
/// length, or reports that the generator failed.
#[verifier::external_body]
fn fill_random(buf: &mut Vec<u8>) -> (r: Result<(), rand::Error>)
    ensures
        final(buf)@.len() == old(buf)@.len(),
{
    rand::RngCore::try_fill_bytes(&mut rand::rngs::OsRng, buf.as_mut_slice())
}

/// Encrypts `content` with AES-256-CBC under `key` and `iv`.
pub fn encrypt(content: &[u8], iv: &[u8], key: &[u8]) -> (r: Result<Vec<u8>, StoreError>)
    ensures
        r == Err::<Vec<u8>, StoreError>(StoreError::InvalidInput) <==> (key@.len() != KEY_LEN
            || iv@.len() != IV_LEN),
        key@.len() == KEY_LEN && iv@.len() == IV_LEN && content@.len() <= MAX_PLAINTEXT ==> (r is Ok
            && r->Ok_0@ == aes256_cbc(key@, iv@, content@) && r->Ok_0@.len() == padded_len(
            content@.len(),
        )),
        key@.len() == KEY_LEN && iv@.len() == IV_LEN && content@.len() > MAX_PLAINTEXT ==> r
            == Err::<Vec<u8>, StoreError>(StoreError::CryptoError),
{
    if key.len() != KEY_LEN || iv.len() != IV_LEN {
        return Err(StoreError::InvalidInput);
    }
    if content.len() > MAX_PLAINTEXT {
        return Err(StoreError::CryptoError);
    }
    match aes_encrypt(content, iv, key) {
        Ok(c) => Ok(c),
        Err(_) => Err(StoreError::CryptoError),
    }
}

/// Decrypts `secret` with AES-256-CBC under the `key` and `iv` it was
/// encrypted with.
pub fn decrypt(secret: &[u8], iv: &[u8], key: &[u8]) -> (r: Result<Vec<u8>, StoreError>)
    ensures
        r == Err::<Vec<u8>, StoreError>(StoreError::InvalidInput) <==> (key@.len() != KEY_LEN
            || iv@.len() != IV_LEN),
        forall|p: Seq<u8>|
            key@.len() == KEY_LEN && iv@.len() == IV_LEN && secret@.len() <= MAX_CIPHERTEXT
                && secret@ == #[trigger] aes256_cbc(key@, iv@, p) ==> (r is Ok && r->Ok_0@ == p),
        key@.len() == KEY_LEN && iv@.len() == IV_LEN && (secret@.len() > MAX_CIPHERTEXT
            || secret@.len() % 16 != 0) ==> r == Err::<Vec<u8>, StoreError>(StoreError::CryptoError),
        r matches Err(e) ==> e == StoreError::InvalidInput || e == StoreError::CryptoError,
{
    if key.len() != KEY_LEN || iv.len() != IV_LEN {
        return Err(StoreError::InvalidInput);
    }
    if secret.len() > MAX_CIPHERTEXT {
        return Err(StoreError::CryptoError);
    }
    match aes_decrypt(secret, iv, key) {
        Ok(p) => Ok(p),
        Err(_) => Err(StoreError::CryptoError),
    }
}

/// The concatenation of `chunks`, in order.
pub open spec fn concat(chunks: Seq<Seq<u8>>) -> Seq<u8>
    decreases chunks.len(),
{
    if chunks.len() == 0 {
        Seq::empty()
    } else {
        concat(chunks.drop_last()) + chunks.last()
    }
}

/// The byte contents of each chunk.
pub open spec fn chunk_views(chunks: Seq<&[u8]>) -> Seq<Seq<u8>> {
    chunks.map_values(|c: &[u8]| c@)
}

/// The SHA-256 digest of the concatenation of `content`.
pub fn hash(content: Vec<&[u8]>) -> (r: [u8; 32])
    ensures
        r@ == sha256_digest(concat(chunk_views(content@))),
{
    let mut data: Vec<u8> = Vec::new();
    let mut i: usize = 0;
    while i < content.len()
        invariant
            i <= content@.len(),
            data@ == concat(chunk_views(content@).subrange(0, i as int)),
        decreases content@.len() - i,
    {
        let chunk: &[u8] = content[i];
        data.extend_from_slice(chunk);
        proof {
            let s = chunk_views(content@).subrange(0, i + 1);
            assert(s.drop_last() =~= chunk_views(content@).subrange(0, i as int));
        }
        i = i + 1;
        assert(data@ =~= concat(chunk_views(content@).subrange(0, i as int)));
    }
    assert(chunk_views(content@).subrange(0, i as int) =~= chunk_views(content@));
    sha256(data.as_slice())
}

/// The key derived from `password` and `salt`: the digest of the UTF-8
/// bytes of the password followed by the salt.
pub open spec fn derived_key(password: Seq<char>, salt: Seq<u8>) -> Seq<u8> {
    sha256_digest(encode_utf8(password) + salt)
}

/// Derives a 256-bit key from a password and a salt.
pub fn derive_key(password: String, salt: &[u8]) -> (r: [u8; 32])
    ensures
        r@ == derived_key(password@, salt@),
{
    let bytes: &[u8] = password.as_str().as_bytes();
    let chunks: Vec<&[u8]> = vec![bytes, salt];
    proof {
        let v = chunk_views(chunks@);
        assert(v[0] == encode_utf8(password@));
        assert(v[1] == salt@);
        assert(v.drop_last().drop_last() =~= Seq::<Seq<u8>>::empty());
        assert(concat(v.drop_last().drop_last()) =~= Seq::<u8>::empty());
        assert(v.drop_last().last() == v[0]);
        assert(concat(v.drop_last()) =~= v[0]);
        assert(concat(v) =~= encode_utf8(password@) + salt@);
    }
    hash(chunks)
}

/// `n` bytes from the secure random generator.
pub fn generate_bytes(n: usize) -> (r: Result<Vec<u8>, StoreError>)
    ensures
        r matches Ok(b) ==> b@.len() == n,
        r matches Err(e) ==> e == StoreError::RandomnessError,
{
    let mut bytes: Vec<u8> = vec![0; n];
    match fill_random(&mut bytes) {
        Ok(()) => Ok(bytes),
        Err(_) => Err(StoreError::RandomnessError),
    }
}

} // verus!
