//! The text form of a compressed fingerprint: base64 with the URL-safe
//! alphabet and without padding.

use vstd::prelude::*;

verus! {

/// The character that stands for the six-bit value `value`: `A` to `Z`, `a`
/// to `z`, `0` to `9`, then `-` and `_`.
pub open spec fn url_safe_digit(value: int) -> char {
    if value < 26 {
        (65 + value) as u8 as char
    } else if value < 52 {
        (97 + value - 26) as u8 as char
    } else if value < 62 {
        (48 + value - 52) as u8 as char
    } else if value == 62 {
        '-'
    } else {
        '_'
    }
}

/// Byte `i` of `bytes`, or zero after the end.
pub open spec fn byte_or_zero(bytes: Seq<u8>, i: int) -> int {
    if 0 <= i < bytes.len() {
        bytes[i] as int
    } else {
        0
    }
}

/// The `i`-th group of six bits of `bytes`, read from the most significant
/// bit of the first byte on and filled up with zero bits after the end: every
/// three bytes make one number of 24 bits, which holds four groups.
pub open spec fn sextet(bytes: Seq<u8>, i: int) -> int {
    let first = 3 * (i / 4);
    let triple = byte_or_zero(bytes, first) * 65536 + byte_or_zero(bytes, first + 1) * 256
        + byte_or_zero(bytes, first + 2);
    if i % 4 == 0 {
        triple / 262144
    } else if i % 4 == 1 {
        (triple / 4096) % 64
    } else if i % 4 == 2 {
        (triple / 64) % 64
    } else {
        triple % 64
    }
}

/// The number of characters that encode `len` bytes: four for every three
/// bytes, and two or three for one or two bytes at the end.
pub open spec fn encoded_len(len: nat) -> nat {
    (4 * len + 2) / 3
}

/// The text that encodes `bytes`.
pub open spec fn encoded(bytes: Seq<u8>) -> Seq<char> {
    Seq::new(encoded_len(bytes.len()), |i: int| url_safe_digit(sextet(bytes, i)))
}

/// Calls `base64::encode_config` with the URL-safe character set and without
/// padding. The contract states the encoding that the crate implements for
/// this configuration: one character of the URL-safe alphabet for every six
/// bits of the input, most significant bits first, the last group filled up
/// with zero bits, and no padding characters. Inputs whose encoded size does
/// not fit in `usize` make the crate panic and are left out.
#[verifier::external_body]
fn encode_url_safe_no_pad(bytes: &[u8]) -> (text: String)
    requires
        4 * (bytes@.len() / 3) + 3 <= usize::MAX,
    ensures
        text@ == encoded(bytes@),
{
    base64::encode_config(bytes, base64::Config::new(base64::CharacterSet::UrlSafe, false))
}

/// Encodes a compressed fingerprint as text.
pub fn encode(fingerprint: &[u8]) -> (text: String)
    requires
        4 * (fingerprint@.len() / 3) + 3 <= usize::MAX,
    ensures
        text@ == encoded(fingerprint@),
        text@.len() == encoded_len(fingerprint@.len()),
{
    encode_url_safe_no_pad(fingerprint)
}

} // verus!
