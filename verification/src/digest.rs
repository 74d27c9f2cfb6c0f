//! Hashes, hex, Base64 and URL encoding, from the outside crates that
//! implement them (`sha1`, `sha2`, `hex`, `base64`, `urlencoding`), and the
//! checks the library makes with them.
use vstd::prelude::*;
use crate::text::{chars_of, eq, lower, oview, to_lower};

verus! {

/// The SHA-1 digest of `data` (20 bytes).
pub uninterp spec fn sha1_of(data: Seq<u8>) -> Seq<u8>;

/// The SHA-256 digest of `data` (32 bytes).
pub uninterp spec fn sha256_of(data: Seq<u8>) -> Seq<u8>;

/// The SHA-512 digest of `data` (64 bytes).
pub uninterp spec fn sha512_of(data: Seq<u8>) -> Seq<u8>;

/// The standard (padded) Base64 text of `data`.
pub uninterp spec fn base64_of(data: Seq<u8>) -> Seq<char>;

/// Calls `sha1::Sha1::digest`: the result is the SHA-1 digest of `data`,
/// named [`sha1_of`], 20 bytes long as the algorithm fixes.
#[verifier::external_body]
pub(crate) fn sha1_digest(data: &[u8]) -> (r: Vec<u8>)
    ensures
        r@ == sha1_of(data@),
        r@.len() == 20,
{
    <sha1::Sha1 as sha1::Digest>::digest(data).to_vec()
}

/// Calls `sha2::Sha256::digest`: the result is the SHA-256 digest of
/// `data`, named [`sha256_of`], 32 bytes long.
#[verifier::external_body]
pub(crate) fn sha256_digest(data: &[u8]) -> (r: Vec<u8>)
    ensures
        r@ == sha256_of(data@),
        r@.len() == 32,
{
    <sha2::Sha256 as sha2::Digest>::digest(data).to_vec()
}

/// Calls `sha2::Sha512::digest`: the result is the SHA-512 digest of
/// `data`, named [`sha512_of`], 64 bytes long.
#[verifier::external_body]
pub(crate) fn sha512_digest(data: &[u8]) -> (r: Vec<u8>)
    ensures
        r@ == sha512_of(data@),
        r@.len() == 64,
{
    <sha2::Sha512 as sha2::Digest>::digest(data).to_vec()
}

/// The lowercase hexadecimal digit of a nibble.
pub open spec fn hex_digit(n: u8) -> char {
    if n < 10 {
        ((n as u32) + ('0' as u32)) as char
    } else {
        ((n as u32) - 10 + ('a' as u32)) as char
    }
}

/// `data` in lowercase hexadecimal, two digits per byte, high nibble first.
pub open spec fn hex_of(data: Seq<u8>) -> Seq<char>
    decreases data.len(),
{
    if data.len() == 0 {
        Seq::empty()
    } else {
        hex_of(data.drop_last()) + seq![hex_digit(data.last() / 16), hex_digit(data.last() % 16)]
    }
}

/// Calls `hex::encode`, which writes each byte as two lowercase hex digits.
#[verifier::external_body]
pub(crate) fn hex_encode(data: &[u8]) -> (r: String)
    ensures
        r@ == hex_of(data@),
{
    hex::encode(data)
}

/// Calls `base64::engine::general_purpose::STANDARD.encode`; the result
/// is named [`base64_of`].
#[verifier::external_body]
pub(crate) fn base64_encode(data: &[u8]) -> (r: String)
    ensures
        r@ == base64_of(data@),
{
    base64::Engine::encode(&base64::engine::general_purpose::STANDARD, data)
}

/// The URL-safe Base64 text of `data` (`-` and `_` for `+` and `/`),
/// without `=` padding.
pub uninterp spec fn base64url_of(data: Seq<u8>) -> Seq<char>;

/// Calls `base64::engine::general_purpose::URL_SAFE_NO_PAD.encode`; the
/// result is named [`base64url_of`].
#[verifier::external_body]
pub(crate) fn base64url_encode(data: &[u8]) -> (r: String)
    ensures
        r@ == base64url_of(data@),
{
    base64::Engine::encode(&base64::engine::general_purpose::URL_SAFE_NO_PAD, data)
}

/// Bytes `urlencoding` leaves as they are: ASCII letters, digits, `-`, `.`, `_`, `~`.
pub open spec fn url_safe_byte(b: u8) -> bool {
    (0x30 <= b <= 0x39) || (0x41 <= b <= 0x5a) || (0x61 <= b <= 0x7a) || b == 0x2d || b == 0x2e
        || b == 0x5f || b == 0x7e
}

/// The uppercase hexadecimal digit of a nibble.
pub open spec fn hex_upper(n: u8) -> char {
    if n < 10 {
        ((n as u32) + ('0' as u32)) as char
    } else {
        ((n as u32) - 10 + ('A' as u32)) as char
    }
}

/// `bytes` percent-encoded: safe bytes kept, every other byte as `%XX`.
pub open spec fn percent_encoded(bytes: Seq<u8>) -> Seq<char>
    decreases bytes.len(),
{
    if bytes.len() == 0 {
        Seq::empty()
    } else {
        let b = bytes.last();
        percent_encoded(bytes.drop_last()) + if url_safe_byte(b) {
            seq![b as char]
        } else {
            seq!['%', hex_upper(b / 16), hex_upper(b % 16)]
        }
    }
}

/// Calls `urlencoding::encode`, which percent-encodes every byte of the
/// UTF-8 text except ASCII letters, digits and `-`, `_`, `.`, `~`, with
/// uppercase hex digits.
#[verifier::external_body]
pub(crate) fn url_encode(s: &str) -> (r: String)
    ensures
        r@ == percent_encoded(vstd::utf8::encode_utf8(s@)),
{
    urlencoding::encode(s).into_owned()
}

/// Whether the lowercase hex `actual` and the expected digest text agree,
/// ignoring ASCII case (std's `eq_ignore_ascii_case`).
pub open spec fn digest_agrees(actual: Seq<char>, expected: Seq<char>) -> bool {
    lower(actual) == lower(expected)
}

/// Whether `data` has SHA-1 digest `expected` (hex, any letter case).
pub fn sha1_matches(data: &[u8], expected: &str) -> (b: bool)
    ensures
        b == digest_agrees(hex_of(sha1_of(data@)), expected@),
{
    let d = sha1_digest(data);
    let h = hex_encode(d.as_slice());
    eq(&to_lower(&chars_of(h.as_str())), &to_lower(&chars_of(expected)))
}

/// Whether `data` has SHA-512 digest `expected` (hex, any letter case).
pub fn sha512_matches(data: &[u8], expected: &str) -> (b: bool)
    ensures
        b == digest_agrees(hex_of(sha512_of(data@)), expected@),
{
    let d = sha512_digest(data);
    let h = hex_encode(d.as_slice());
    eq(&to_lower(&chars_of(h.as_str())), &to_lower(&chars_of(expected)))
}

/// The text `s` percent-decoded as UTF-8, when the decoded bytes are UTF-8.
pub uninterp spec fn url_decoded(s: Seq<char>) -> Option<Seq<char>>;

/// Calls `urlencoding::decode`. The result is named [`url_decoded`]
/// (`None` where the decoded bytes are not UTF-8); text without `%` comes
/// back as it is, which `decode` does without decoding anything.
#[verifier::external_body]
pub(crate) fn url_decode(s: &str) -> (r: Option<String>)
    ensures
        oview(r) == url_decoded(s@),
        !s@.contains('%') ==> oview(r) == Some(s@),
{
    match urlencoding::decode(s) {
        Ok(d) => Some(d.into_owned()),
        Err(_) => None,
    }
}

} // verus!
