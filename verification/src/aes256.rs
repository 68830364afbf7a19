//! AES-256-CBC encryption of files with PKCS #7 padding, under a secret of
//! a 32-byte key followed by a 16-byte initialization vector.

use aes::cipher::{BlockModeDecrypt, BlockModeEncrypt, KeyIvInit};
use rand::Rng;
use vstd::prelude::*;

verus! {

/// The ciphertext of `payload` under AES-256-CBC with PKCS #7 padding.
pub uninterp spec fn aes256_cbc_encrypt(key: Seq<u8>, iv: Seq<u8>, payload: Seq<u8>) -> Seq<u8>;

/// The plaintext of `payload` under AES-256-CBC with PKCS #7 padding;
/// `None` when its length is not a positive multiple of 16 bytes or its
/// padding is malformed.
pub uninterp spec fn aes256_cbc_decrypt(key: Seq<u8>, iv: Seq<u8>, payload: Seq<u8>) -> Option<Seq<u8>>;

/// Calls `encrypt_padded_vec::<Pkcs7>` of a `cbc::Encryptor<aes::Aes256>`
/// made from `key` and `iv`. The ciphertext is named `aes256_cbc_encrypt`;
/// stated of it: padding always adds between 1 and 16 bytes up to a whole
/// block, and decrypting it with the same key and vector gives `payload`
/// back. The cipher itself is not described.
#[verifier::external_body]
fn encrypt_payload(key: &[u8], iv: &[u8], payload: &[u8]) -> (r: Vec<u8>)
    requires
        key@.len() == 32,
        iv@.len() == 16,
    ensures
        r@ == aes256_cbc_encrypt(key@, iv@, payload@),
        r@.len() == (payload@.len() / 16 + 1) * 16,
        aes256_cbc_decrypt(key@, iv@, r@) == Some(payload@),
{
    cbc::Encryptor::<aes::Aes256>::new_from_slices(key, iv).unwrap().encrypt_padded_vec::<aes::cipher::block_padding::Pkcs7>(payload)
}

/// Calls `decrypt_padded_vec::<Pkcs7>` of a `cbc::Decryptor<aes::Aes256>`
/// made from `key` and `iv`: the plaintext, or `None` for a malformed
/// ciphertext. Named `aes256_cbc_decrypt`; the cipher is not described.
#[verifier::external_body]
fn decrypt_payload(key: &[u8], iv: &[u8], payload: &[u8]) -> (r: Option<Vec<u8>>)
    requires
        key@.len() == 32,
        iv@.len() == 16,
    ensures
        match r {
            Some(p) => aes256_cbc_decrypt(key@, iv@, payload@) == Some(p@),
            None => aes256_cbc_decrypt(key@, iv@, payload@) is None,
        },
{
    cbc::Decryptor::<aes::Aes256>::new_from_slices(key, iv).unwrap().decrypt_padded_vec::<aes::cipher::block_padding::Pkcs7>(payload).ok()
}

/// Fills `n` bytes from `rand::make_rng::<rand::rngs::StdRng>()`. Only
/// the length is stated.
#[verifier::external_body]
fn random_bytes(n: usize) -> (r: Vec<u8>)
    ensures
        r@.len() == n,
{
    let mut rng: rand::rngs::StdRng = rand::make_rng();
    let mut bytes = vec![0u8; n];
    rng.fill_bytes(&mut bytes);
    bytes
}

/// The secret is shorter than a key and an initialization vector.
pub enum SecretError {
    TooShort,
}

/// The key of a secret: its first 32 bytes.
pub open spec fn secret_key(secret: Seq<u8>) -> Seq<u8> {
    secret.subrange(0, 32)
}

/// The initialization vector of a secret: the 16 bytes after the key.
pub open spec fn secret_iv(secret: Seq<u8>) -> Seq<u8> {
    secret.subrange(32, 48)
}

/// The key and the initialization vector at the start of `secret`, when it
/// holds both.
pub fn read_secret(secret: &[u8]) -> (r: Result<(Vec<u8>, Vec<u8>), SecretError>)
    ensures
        match r {
            Ok((key, iv)) => secret@.len() >= 48 && key@ == secret_key(secret@) && iv@ == secret_iv(
                secret@,
            ),
            Err(_) => secret@.len() < 48,
        },
{
    if secret.len() < 48 {
        return Err(SecretError::TooShort);
    }
    let mut key: Vec<u8> = Vec::new();
    let mut iv: Vec<u8> = Vec::new();
    let mut i: usize = 0;
    while i < 48
        invariant
            i <= 48,
            secret@.len() >= 48,
            key@ == secret@.subrange(0, if i < 32 { i as int } else { 32 }),
            iv@ == secret@.subrange(32, if i < 32 { 32 } else { i as int }),
        decreases 48 - i,
    {
        if i < 32 {
            key.push(secret[i]);
        } else {
            iv.push(secret[i]);
        }
        i = i + 1;
    }
    Ok((key, iv))
}

/// Encrypts `payload` under `secret`.
pub fn encrypt(secret: &[u8], payload: &[u8]) -> (r: Result<Vec<u8>, SecretError>)
    ensures
        match r {
            Ok(c) => {
                &&& secret@.len() >= 48
                &&& c@ == aes256_cbc_encrypt(secret_key(secret@), secret_iv(secret@), payload@)
                &&& c@.len() == (payload@.len() / 16 + 1) * 16
                &&& aes256_cbc_decrypt(secret_key(secret@), secret_iv(secret@), c@) == Some(payload@)
            },
            Err(_) => secret@.len() < 48,
        },
{
    let (key, iv) = match read_secret(secret) {
        Ok(parts) => parts,
        Err(e) => return Err(e),
    };
    Ok(encrypt_payload(key.as_slice(), iv.as_slice(), payload))
}

/// Decrypts `payload` under `secret`, whose ciphertext must be well formed.
pub fn decrypt(secret: &[u8], payload: &[u8]) -> (r: Result<Vec<u8>, SecretError>)
    requires
        secret@.len() >= 48 ==> aes256_cbc_decrypt(
            secret_key(secret@),
            secret_iv(secret@),
            payload@,
        ) is Some,
    ensures
        match r {
            Ok(p) => secret@.len() >= 48 && aes256_cbc_decrypt(
                secret_key(secret@),
                secret_iv(secret@),
                payload@,
            ) == Some(p@),
            Err(_) => secret@.len() < 48,
        },
{
    let (key, iv) = match read_secret(secret) {
        Ok(parts) => parts,
        Err(e) => return Err(e),
    };
    Ok(decrypt_payload(key.as_slice(), iv.as_slice(), payload).unwrap())
}

/// Decrypts `payload` under `secret`; `None` when the secret holds a key
/// and a vector but the ciphertext is malformed.
pub fn decrypt_checked(secret: &[u8], payload: &[u8]) -> (r: Option<Result<Vec<u8>, SecretError>>)
    ensures
        match r {
            Some(Ok(p)) => secret@.len() >= 48 && aes256_cbc_decrypt(
                secret_key(secret@),
                secret_iv(secret@),
                payload@,
            ) == Some(p@),
            Some(Err(_)) => secret@.len() < 48,
            None => secret@.len() >= 48 && aes256_cbc_decrypt(
                secret_key(secret@),
                secret_iv(secret@),
                payload@,
            ) is None,
        },
{
    if secret.len() >= 48 {
        let (key, iv) = match read_secret(secret) {
            Ok(parts) => parts,
            Err(e) => return Some(Err(e)),
        };
        if decrypt_payload(key.as_slice(), iv.as_slice(), payload).is_none() {
            return None;
        }
    }
    Some(decrypt(secret, payload))
}

/// A fresh secret: 48 random bytes.
pub fn generate_secret() -> (r: Vec<u8>)
    ensures
        r@.len() == 48,
{
    random_bytes(48)
}

} // verus!
