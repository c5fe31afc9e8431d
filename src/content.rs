//! Content hashing: BLAKE3 over a file's bytes, as 64 lowercase hex digits.
use vstd::prelude::*;

verus! {

/// The BLAKE3 digest of `data` in lowercase hexadecimal, as `blake3` computes it.
pub uninterp spec fn blake3_hex(data: Seq<u8>) -> Seq<char>;

pub open spec fn is_lower_hex_digit(c: char) -> bool {
    ('0' <= c && c <= '9') || ('a' <= c && c <= 'f')
}

/// Relies on `blake3::hash` and `Hash::to_hex`: the 32-byte digest of
/// `data`, written as 64 lowercase hexadecimal digits.
#[verifier::external_body]
fn blake3_digest_hex(data: &[u8]) -> (r: String)
    ensures
        r@ == blake3_hex(data@),
        r@.len() == 64,
        forall|i: int| 0 <= i < r@.len() ==> is_lower_hex_digit(#[trigger] r@[i]),
{
    blake3::hash(data).to_hex().to_string()
}

/// The content hash of a file's bytes. It depends on the bytes alone.
pub fn hash_content(data: &[u8]) -> (r: String)
    ensures
        r@ == blake3_hex(data@),
        r@.len() == 64,
        forall|i: int| 0 <= i < r@.len() ==> is_lower_hex_digit(#[trigger] r@[i]),
{
    blake3_digest_hex(data)
}

} // verus!
