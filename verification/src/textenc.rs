use vstd::prelude::*;

verus! {

/// A byte sequence viewed as characters, one per byte.
pub open spec fn ascii_chars(s: Seq<u8>) -> Seq<char> {
    Seq::new(s.len(), |i: int| s[i] as char)
}

/// What lossy UTF-8 decoding gives for a byte sequence.
pub uninterp spec fn utf8_lossy_of(s: Seq<u8>) -> Seq<char>;

/// What base64 encoding (standard alphabet, padded) gives.
pub uninterp spec fn b64_encode_of(s: Seq<u8>) -> Seq<char>;

/// Relies on String::from_utf8: ASCII bytes are valid UTF-8 and decode to
/// one character each, the character with that byte's code.
#[verifier::external_body]
pub(crate) fn ascii_string(bytes: Vec<u8>) -> (r: String)
    requires
        forall|i: int| 0 <= i < bytes@.len() ==> bytes@[i] < 128,
    ensures
        r@ == ascii_chars(bytes@),
{
    String::from_utf8(bytes).unwrap()
}

/// Relies on String::from_utf8_lossy: the result depends on the bytes
/// alone, and all-ASCII input decodes to itself.
#[verifier::external_body]
pub(crate) fn utf8_lossy(bytes: &[u8]) -> (r: String)
    ensures
        r@ == utf8_lossy_of(bytes@),
        (forall|i: int| 0 <= i < bytes@.len() ==> bytes@[i] < 128) ==> r@ == ascii_chars(bytes@),
{
    String::from_utf8_lossy(bytes).into_owned()
}

/// Relies on base64::encode (standard alphabet, padded): the result
/// depends on the bytes alone; empty input encodes to the empty string.
/// The length bound keeps the crate's output-size arithmetic in range.
#[verifier::external_body]
pub(crate) fn b64_encode(bytes: &[u8]) -> (r: String)
    requires
        bytes@.len() <= 0x10000000,
    ensures
        r@ == b64_encode_of(bytes@),
        bytes@.len() == 0 ==> r@.len() == 0,
{
    base64::encode(bytes)
}

/// Relies on std's string formatting: the concatenation of two strings.
#[verifier::external_body]
pub(crate) fn str_concat(a: &str, b: &str) -> (r: String)
    ensures
        r@ == a@ + b@,
{
    format!("{}{}", a, b)
}

} // verus!
