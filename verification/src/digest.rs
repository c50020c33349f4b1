//! Digests of byte strings, in hexadecimal.

use blake3::hash;
use md5::{Digest, Md5};
use vstd::prelude::*;

verus! {

/// Whether the character is a digit of lower-case hexadecimal notation.
pub open spec fn is_hex(c: char) -> bool {
    ('0' <= c && c <= '9') || ('a' <= c && c <= 'f')
}

/// The MD5 digest of the bytes, in hexadecimal.
pub uninterp spec fn md5_hex(bytes: Seq<u8>) -> Seq<char>;

/// `md5::Md5`: the digest of `bytes` as two lower-case hexadecimal digits for each of its
/// sixteen bytes. Which digest it is, is left to the name `md5_hex`.
#[verifier::external_body]
pub(crate) fn md5_text(bytes: &[u8]) -> (r: String)
    ensures
        r@ == md5_hex(bytes@),
        r@.len() == 32,
        forall|i: int| 0 <= i < 32 ==> is_hex(#[trigger] r@[i]),
{
    let mut hasher = Md5::new();
    hasher.update(bytes);
    format!("{:x}", hasher.finalize())
}

/// The BLAKE3 digest of the bytes, in hexadecimal.
pub uninterp spec fn blake3_hex(bytes: Seq<u8>) -> Seq<char>;

/// `blake3::hash` and `Hash::to_hex`: the digest of `bytes` as two lower-case hexadecimal
/// digits for each of its thirty-two bytes. Which digest it is, is left to the name
/// `blake3_hex`.
#[verifier::external_body]
pub(crate) fn blake3_text(bytes: &[u8]) -> (r: String)
    ensures
        r@ == blake3_hex(bytes@),
        r@.len() == 64,
        forall|i: int| 0 <= i < 64 ==> is_hex(#[trigger] r@[i]),
{
    hash(bytes).to_hex().to_string()
}

} // verus!
