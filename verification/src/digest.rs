//! The integrity check: the SHA-256 digest of the payload, written in
//! lower-case hexadecimal and held against the digest that was expected.

use sha2::{Digest, Sha256};
use vstd::prelude::*;
use vstd::string::StringSliceAdditionalSpecFns;
use crate::ascii::{eq_ignoring_case, same_ignoring_case};

verus! {

/// The SHA-256 digest of `data`.
pub uninterp spec fn sha256_of(data: Seq<u8>) -> Seq<u8>;

/// Calls `Sha256::digest` of the crate `sha2` on `data`. Trusted, not
/// proved: the result is the SHA-256 digest of `data`, a function of the
/// bytes of `data` alone, and it is 32 bytes long (the output size that
/// `sha2` fixes for `Sha256`).
#[verifier::external_body]
fn sha256(data: &[u8]) -> (digest: Vec<u8>)
    ensures
        digest@ == sha256_of(data@),
        digest@.len() == 32,
{
    Sha256::digest(data).to_vec()
}

/// The lower-case hexadecimal digit for `n`, which is below 16.
pub open spec fn hex_digit(n: u8) -> u8 {
    if n < 10 {
        (0x30 + n) as u8
    } else {
        (0x61 + (n - 10)) as u8
    }
}

/// `bytes` in lower-case hexadecimal: two digits for each byte, the high
/// half first.
pub open spec fn hex_lower(bytes: Seq<u8>) -> Seq<u8> {
    Seq::new(
        2 * bytes.len(),
        |i: int|
            if i % 2 == 0 {
                hex_digit(bytes[i / 2] / 16)
            } else {
                hex_digit(bytes[i / 2] % 16)
            },
    )
}

/// Whether the text `expected` is `digest` in hexadecimal, in upper or
/// lower case.
pub open spec fn digest_matches(digest: Seq<u8>, expected: Seq<u8>) -> bool {
    same_ignoring_case(expected, hex_lower(digest))
}

/// The lower-case hexadecimal digit for `n`.
fn digit(n: u8) -> (d: u8)
    requires
        n < 16,
    ensures
        d == hex_digit(n),
{
    if n < 10 {
        0x30 + n
    } else {
        0x61 + (n - 10)
    }
}

/// Writes `bytes` in lower-case hexadecimal.
pub fn to_hex(bytes: &[u8]) -> (text: Vec<u8>)
    ensures
        text@ == hex_lower(bytes@),
{
    let len: usize = bytes.len();
    let mut text: Vec<u8> = Vec::new();
    let mut i: usize = 0;
    while i < len
        invariant
            len == bytes@.len(),
            i <= len,
            text@ == hex_lower(bytes@.take(i as int)),
        decreases len - i,
    {
        let b: u8 = bytes[i];
        text.push(digit(b / 16));
        text.push(digit(b % 16));
        i += 1;
        assert(text@ =~= hex_lower(bytes@.take(i as int)));
    }
    assert(bytes@.take(len as int) =~= bytes@);
    text
}

/// Whether `expected` is `digest` in hexadecimal, in upper or lower case.
pub fn matches_digest(digest: &[u8], expected: &str) -> (r: bool)
    ensures
        r == digest_matches(digest@, expected.spec_bytes()),
{
    let text = to_hex(digest);
    eq_ignoring_case(expected.as_bytes(), text.as_slice())
}

/// The SHA-256 digest of `payload` in lower-case hexadecimal: 64 digits.
pub fn digest_hex(payload: &[u8]) -> (text: Vec<u8>)
    ensures
        text@ == hex_lower(sha256_of(payload@)),
        text@.len() == 64,
{
    let digest = sha256(payload);
    to_hex(digest.as_slice())
}

/// Whether `expected` is the SHA-256 digest of `payload` in hexadecimal, in
/// upper or lower case. A mismatch is an answer, not a failure.
pub fn verify_payload(payload: &[u8], expected: &str) -> (r: bool)
    ensures
        r == digest_matches(sha256_of(payload@), expected.spec_bytes()),
{
    let digest = sha256(payload);
    matches_digest(digest.as_slice(), expected)
}

} // verus!
