//! Content digests.

use crate::text;
use vstd::prelude::*;

verus! {

/// A digit of lower-case hexadecimal notation.
pub open spec fn is_lower_hex(c: char) -> bool {
    '0' <= c <= '9' || 'a' <= c <= 'f'
}

/// Whether `s` has the form of a digest: 64 lower-case hexadecimal digits.
pub open spec fn is_digest(s: Seq<char>) -> bool {
    s.len() == 64 && forall|i: int| 0 <= i < s.len() ==> is_lower_hex(#[trigger] s[i])
}

/// The BLAKE3 digest of bytes in hexadecimal notation.
pub uninterp spec fn blake3_hex(bytes: Seq<u8>) -> Seq<char>;

/// The digest of `bytes`, as `blake3::hash` computes it and `Hash::to_hex` writes
/// it. Stated are that it goes by the bytes alone and its form; the hash function
/// itself is not.
#[verifier::external_body]
pub(crate) fn content_digest(bytes: &[u8]) -> (r: String)
    ensures
        r@ == blake3_hex(bytes@),
        is_digest(r@),
{
    blake3::hash(bytes).to_hex().to_string()
}

/// The digest of the bytes of a text.
pub(crate) fn text_digest(s: &str) -> (r: String)
    ensures
        r@ == blake3_hex(vstd::utf8::encode_utf8(s@)),
        is_digest(r@),
{
    content_digest(s.as_bytes())
}

/// Whether `s` has the form of a digest.
pub fn has_digest_form(s: &str) -> (r: bool)
    ensures
        r == is_digest(s@),
{
    let chars = text::chars_of(s);
    if chars.len() != 64 {
        return false;
    }
    let mut i: usize = 0;
    while i < chars.len()
        invariant
            chars@ == s@,
            i <= chars@.len(),
            forall|j: int| 0 <= j < i ==> is_lower_hex(#[trigger] s@[j]),
        decreases chars@.len() - i,
    {
        let c = chars[i];
        if !(('0' <= c && c <= '9') || ('a' <= c && c <= 'f')) {
            assert(!is_lower_hex(s@[i as int]));
            return false;
        }
        i += 1;
    }
    true
}

/// What the standard base64 alphabet writes for bytes.
pub uninterp spec fn base64_text(bytes: Seq<u8>) -> Seq<char>;

/// What the standard base64 alphabet reads from a text, or the message of the error.
pub uninterp spec fn base64_bytes(s: Seq<char>) -> Result<Seq<u8>, Seq<char>>;

/// A decoding that succeeds.
pub open spec fn decoded(bytes: Seq<u8>) -> Result<Seq<u8>, Seq<char>> {
    Ok(bytes)
}

/// Number of base64 characters, padding among them, for a number of bytes.
pub open spec fn base64_len(bytes: nat) -> nat {
    4 * ((bytes + 2) / 3)
}

/// A character of base64 text, padding among them.
pub open spec fn is_base64_char(c: char) -> bool {
    'A' <= c <= 'Z' || 'a' <= c <= 'z' || '0' <= c <= '9' || c == '+' || c == '/' || c == '='
}

/// Encodes with the engine `STANDARD` of the crate `base64`. Stated are that the
/// text goes by the bytes alone, that decoding it gives them back, its characters, and
/// its length with padding.
#[verifier::external_body]
pub(crate) fn encode_base64(bytes: &[u8]) -> (r: String)
    ensures
        r@ == base64_text(bytes@),
        base64_bytes(r@) == decoded(bytes@),
        forall|i: int| 0 <= i < r@.len() ==> is_base64_char(#[trigger] r@[i]),
        r@.len() == base64_len(bytes@.len()),
{
    base64::Engine::encode(&base64::engine::general_purpose::STANDARD, bytes)
}

/// Decodes with the engine `STANDARD` of the crate `base64`. Which texts it accepts
/// is not stated.
#[verifier::external_body]
pub(crate) fn decode_base64(s: &str) -> (r: Result<Vec<u8>, String>)
    ensures
        match r {
            Ok(b) => base64_bytes(s@) == Ok::<Seq<u8>, Seq<char>>(b@),
            Err(m) => base64_bytes(s@) == Err::<Seq<u8>, Seq<char>>(m@),
        },
{
    base64::Engine::decode(&base64::engine::general_purpose::STANDARD, s).map_err(|e| e.to_string())
}

} // verus!
