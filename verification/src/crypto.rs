//! Digests, MACs and encodings used for request signing and checkpoint names.
//! The digests come from `sha1`, `sha2` and `hmac`; the encodings from `hex`,
//! `urlencoding` and `base64`.

use vstd::prelude::*;
use vstd::utf8::encode_utf8;
use hmac::Mac;
use sha2::Digest;

verus! {

/// HMAC-SHA256 of `data` under `key`.
pub uninterp spec fn hmac_sha256_of(key: Seq<u8>, data: Seq<u8>) -> Seq<u8>;

/// SHA-256 digest of `data`.
pub uninterp spec fn sha256_of(data: Seq<u8>) -> Seq<u8>;

/// SHA-1 digest of `data`.
pub uninterp spec fn sha1_of(data: Seq<u8>) -> Seq<u8>;


/// HMAC-SHA256 through the `hmac` and `sha2` crates
/// (`Hmac::<Sha256>::new_from_slice`, `update`, `finalize`).
/// Trusted: the result is the MAC of `data` under `key` and is 32 bytes long.
/// `new_from_slice` accepts keys of every length, so the call cannot fail.
#[verifier::external_body]
pub(crate) fn hmac_sha256(key: &[u8], data: &[u8]) -> (r: Vec<u8>)
    ensures
        r@ == hmac_sha256_of(key@, data@),
        r@.len() == 32,
{
    let mut mac = <hmac::Hmac<sha2::Sha256> as hmac::KeyInit>::new_from_slice(key).expect("any key length");
    mac.update(data);
    mac.finalize().into_bytes().to_vec()
}

/// SHA-256 through `sha2::Sha256::digest`.
/// Trusted: the result is the digest of `data` and is 32 bytes long.
#[verifier::external_body]
pub(crate) fn sha256(data: &[u8]) -> (r: Vec<u8>)
    ensures
        r@ == sha256_of(data@),
        r@.len() == 32,
{
    sha2::Sha256::digest(data).to_vec()
}

/// SHA-1 through `sha1::Sha1::digest`.
/// Trusted: the result is the digest of `data` and is 20 bytes long.
#[verifier::external_body]
pub(crate) fn sha1(data: &[u8]) -> (r: Vec<u8>)
    ensures
        r@ == sha1_of(data@),
        r@.len() == 20,
{
    sha1::Sha1::digest(data).to_vec()
}

/// Digit `n` (below 64) of the URL-safe base64 alphabet
/// `A-Z`, `a-z`, `0-9`, `-`, `_`.
pub open spec fn base64_url_digit(n: nat) -> char {
    if n < 26 {
        ((n + 65) as u8) as char
    } else if n < 52 {
        ((n + 71) as u8) as char
    } else if n < 62 {
        ((n - 4) as u8) as char
    } else if n == 62 {
        '-'
    } else {
        '_'
    }
}

/// URL-safe base64 of `data` without padding: each group of three bytes
/// becomes four digits of six bits, most significant first; a final group
/// of two bytes becomes three digits and one of a single byte two digits,
/// the missing low bits being zero.
pub open spec fn base64_url(data: Seq<u8>) -> Seq<char>
    decreases data.len(),
{
    if data.len() == 0 {
        Seq::empty()
    } else if data.len() == 1 {
        seq![base64_url_digit(data[0] as nat / 4), base64_url_digit((data[0] as nat % 4) * 16)]
    } else if data.len() == 2 {
        seq![
            base64_url_digit(data[0] as nat / 4),
            base64_url_digit((data[0] as nat % 4) * 16 + data[1] as nat / 16),
            base64_url_digit((data[1] as nat % 16) * 4),
        ]
    } else {
        seq![
            base64_url_digit(data[0] as nat / 4),
            base64_url_digit((data[0] as nat % 4) * 16 + data[1] as nat / 16),
            base64_url_digit((data[1] as nat % 16) * 4 + data[2] as nat / 64),
            base64_url_digit(data[2] as nat % 64),
        ] + base64_url(data.skip(3))
    }
}

/// URL-safe base64 without padding through
/// `base64::engine::general_purpose::URL_SAFE_NO_PAD.encode`.
/// Trusted: the result is `base64_url(data)`.
#[verifier::external_body]
pub(crate) fn base64_url_no_pad(data: &[u8]) -> (r: String)
    ensures
        r@ == base64_url(data@),
{
    base64::Engine::encode(&base64::engine::general_purpose::URL_SAFE_NO_PAD, data)
}

/// Lowercase hexadecimal digit for a value below 16.
pub open spec fn hex_digit_lower(n: nat) -> char {
    if n < 10 {
        ((n + 48) as u8) as char
    } else {
        ((n + 87) as u8) as char
    }
}

/// Uppercase hexadecimal digit for a value below 16.
pub open spec fn hex_digit_upper(n: nat) -> char {
    if n < 10 {
        ((n + 48) as u8) as char
    } else {
        ((n + 55) as u8) as char
    }
}

/// Lowercase hexadecimal text of a byte string, two digits per byte.
pub open spec fn hex_lower(data: Seq<u8>) -> Seq<char>
    decreases data.len(),
{
    if data.len() == 0 {
        Seq::empty()
    } else {
        hex_lower(data.drop_last()) + seq![
            hex_digit_lower(data.last() as nat / 16),
            hex_digit_lower(data.last() as nat % 16),
        ]
    }
}

/// Hexadecimal through `hex::encode`.
/// Trusted: two lowercase hex digits per byte, most significant first.
#[verifier::external_body]
pub(crate) fn hex_encode(data: &[u8]) -> (r: String)
    ensures
        r@ == hex_lower(data@),
{
    hex::encode(data)
}

/// Bytes that percent-encoding leaves as they are: ASCII letters, digits,
/// `-`, `.`, `_` and `~`.
pub open spec fn is_url_safe(b: u8) -> bool {
    (48 <= b <= 57) || (65 <= b <= 90) || (97 <= b <= 122) || b == 45 || b == 46 || b == 95 || b == 126
}

/// Percent-encoding of a byte string: safe bytes as themselves, every other
/// byte as `%` and two uppercase hex digits.
pub open spec fn url_encode_bytes(data: Seq<u8>) -> Seq<char>
    decreases data.len(),
{
    if data.len() == 0 {
        Seq::empty()
    } else {
        let b = data.last();
        url_encode_bytes(data.drop_last()) + if is_url_safe(b) {
            seq![b as char]
        } else {
            seq!['%', hex_digit_upper(b as nat / 16), hex_digit_upper(b as nat % 16)]
        }
    }
}

/// Percent-encoding of the UTF-8 bytes of a string.
pub open spec fn url_encode(s: Seq<char>) -> Seq<char> {
    url_encode_bytes(encode_utf8(s))
}

/// Percent-encoding through `urlencoding::encode`.
/// Trusted: every UTF-8 byte of `s` except ASCII letters, digits and `-._~`
/// becomes `%XX` with uppercase hex digits.
#[verifier::external_body]
pub(crate) fn url_encode_str(s: &str) -> (r: String)
    ensures
        r@ == url_encode(s@),
{
    urlencoding::encode(s).into_owned()
}

} // verus!
