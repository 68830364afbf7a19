//! Message digests of package files, written as lowercase hexadecimal.

use crate::text::text_is;
use sha2::Digest;
use vstd::prelude::*;

verus! {

/// The MD5 digest of `data`.
pub uninterp spec fn md5_digest(data: Seq<u8>) -> Seq<u8>;

/// The SHA-1 digest of `data`.
pub uninterp spec fn sha1_digest(data: Seq<u8>) -> Seq<u8>;

/// The SHA-256 digest of `data`.
pub uninterp spec fn sha256_digest(data: Seq<u8>) -> Seq<u8>;

/// Calls `md5::Md5::digest` (RustCrypto `md-5`): the result is the MD5
/// digest of `data`, 16 bytes long. What the bytes are is not stated beyond
/// the name `md5_digest`.
#[verifier::external_body]
fn md5_of(data: &[u8]) -> (r: Vec<u8>)
    ensures
        r@ == md5_digest(data@),
        r@.len() == 16,
{
    md5::Md5::digest(data).to_vec()
}

/// Calls `sha1::Sha1::digest`: the result is the SHA-1 digest of `data`,
/// 20 bytes long; the bytes themselves are only named by `sha1_digest`.
#[verifier::external_body]
fn sha1_of(data: &[u8]) -> (r: Vec<u8>)
    ensures
        r@ == sha1_digest(data@),
        r@.len() == 20,
{
    sha1::Sha1::digest(data).to_vec()
}

/// Calls `sha2::Sha256::digest`: the result is the SHA-256 digest of `data`,
/// 32 bytes long; the bytes themselves are only named by `sha256_digest`.
#[verifier::external_body]
fn sha256_of(data: &[u8]) -> (r: Vec<u8>)
    ensures
        r@ == sha256_digest(data@),
        r@.len() == 32,
{
    sha2::Sha256::digest(data).to_vec()
}

/// The lowercase hexadecimal digit for `v < 16`.
pub open spec fn hex_digit(v: int) -> char {
    if v < 10 {
        ((v + 48) as u8) as char
    } else {
        ((v + 87) as u8) as char
    }
}

/// Each byte as two lowercase hexadecimal digits, high nibble first.
pub open spec fn hex_lower(bytes: Seq<u8>) -> Seq<char>
    decreases bytes.len(),
{
    if bytes.len() == 0 {
        seq![]
    } else {
        hex_lower(bytes.drop_last()) + seq![
            hex_digit(bytes.last() as int / 16),
            hex_digit(bytes.last() as int % 16),
        ]
    }
}

fn hex_digit_exec(v: u8) -> (c: char)
    requires
        v < 16,
    ensures
        c == hex_digit(v as int),
{
    if v < 10 {
        (v + 48) as char
    } else {
        (v + 87) as char
    }
}

/// `bytes` written as lowercase hexadecimal, two digits per byte.
pub fn to_hex(bytes: &[u8]) -> (s: String)
    ensures
        s@ == hex_lower(bytes@),
{
    let mut s = String::new();
    let mut i: usize = 0;
    while i < bytes.len()
        invariant
            i <= bytes@.len(),
            s@ == hex_lower(bytes@.subrange(0, i as int)),
        decreases bytes.len() - i,
    {
        let b = bytes[i];
        s.push(hex_digit_exec(b / 16));
        s.push(hex_digit_exec(b % 16));
        assert(bytes@.subrange(0, i + 1).drop_last() =~= bytes@.subrange(0, i as int));
        i = i + 1;
    }
    assert(bytes@.subrange(0, bytes@.len() as int) =~= bytes@);
    s
}

/// The digest algorithms a package index can publish.
pub enum HashAlgorithm {
    Md5,
    Sha1,
    Sha256,
}

pub open spec fn digest_of(algo: HashAlgorithm, data: Seq<u8>) -> Seq<u8> {
    match algo {
        HashAlgorithm::Md5 => md5_digest(data),
        HashAlgorithm::Sha1 => sha1_digest(data),
        HashAlgorithm::Sha256 => sha256_digest(data),
    }
}

/// The digest of `data` under `algo`, in lowercase hexadecimal.
pub fn compute_hash(algo: HashAlgorithm, data: &[u8]) -> (s: String)
    ensures
        s@ == hex_lower(digest_of(algo, data@)),
{
    let d = match algo {
        HashAlgorithm::Md5 => md5_of(data),
        HashAlgorithm::Sha1 => sha1_of(data),
        HashAlgorithm::Sha256 => sha256_of(data),
    };
    to_hex(d.as_slice())
}

/// The algorithm named `name` among those a PyPI index is configured with:
/// `md5` or `sha256`.
pub open spec fn pypi_algorithm(name: Seq<char>) -> Option<HashAlgorithm> {
    if name == seq!['m', 'd', '5'] {
        Some(HashAlgorithm::Md5)
    } else if name == seq!['s', 'h', 'a', '2', '5', '6'] {
        Some(HashAlgorithm::Sha256)
    } else {
        None
    }
}

pub fn pypi_algorithm_exec(name: &str) -> (r: Option<HashAlgorithm>)
    ensures
        r == pypi_algorithm(name@),
{
    if text_is(name, &['m', 'd', '5']) {
        Some(HashAlgorithm::Md5)
    } else if text_is(name, &['s', 'h', 'a', '2', '5', '6']) {
        Some(HashAlgorithm::Sha256)
    } else {
        None
    }
}

} // verus!
