//! Digests of contents, and bytes read as text.

use vstd::prelude::*;
use vstd::utf8::{decode_utf8, valid_utf8};

verus! {

/// The SHA-256 digest of the bytes, in lower-case hexadecimal.
pub uninterp spec fn sha256_text(bytes: Seq<u8>) -> Seq<char>;

/// The bytes read as UTF-8, with what is not UTF-8 replaced.
pub uninterp spec fn lossy_text(bytes: Seq<u8>) -> Seq<char>;

/// A lower-case hexadecimal digit.
pub open spec fn is_hex_digit(c: char) -> bool {
    ('0' <= c <= '9') || ('a' <= c <= 'f')
}

/// Calls `sha2::Sha256::digest` and writes the digest with `hex::encode`: 32 bytes, two
/// lower-case hexadecimal digits for each.
#[verifier::external_body]
pub(crate) fn sha256_hex(bytes: &[u8]) -> (r: String)
    ensures
        r@ == sha256_text(bytes@),
        r@.len() == 64,
        forall|i: int| 0 <= i < r@.len() ==> is_hex_digit(#[trigger] r@[i]),
{
    hex::encode(<sha2::Sha256 as sha2::Digest>::digest(bytes))
}

/// Calls `String::from_utf8_lossy`. Bytes that are UTF-8 are read as what they encode.
#[verifier::external_body]
pub(crate) fn read_lossy(bytes: &[u8]) -> (r: String)
    ensures
        r@ == lossy_text(bytes@),
        valid_utf8(bytes@) ==> r@ == decode_utf8(bytes@),
{
    String::from_utf8_lossy(bytes).into_owned()
}

/// Calls `String::from_utf8`: bytes are read as what they encode, where they are UTF-8.
#[verifier::external_body]
pub(crate) fn read_strict(bytes: Vec<u8>) -> (r: Option<String>)
    ensures
        match r {
            Some(text) => valid_utf8(bytes@) && text@ == decode_utf8(bytes@),
            None => !valid_utf8(bytes@),
        },
{
    String::from_utf8(bytes).ok()
}

} // verus!
