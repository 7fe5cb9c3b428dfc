//! Content hashing through BLAKE3.

use vstd::prelude::*;

verus! {

/// The lowercase hexadecimal BLAKE3 digest of a byte sequence.
pub uninterp spec fn blake3_hex(bytes: Seq<u8>) -> Seq<char>;

/// Whether a character is a lowercase hexadecimal digit.
pub open spec fn is_lower_hex_digit(c: char) -> bool {
    ('0' <= c && c <= '9') || ('a' <= c && c <= 'f')
}

/// `blake3::hash(bytes).to_hex()`: the digest of `bytes` as 64 lowercase hex digits.
///
/// The digest itself is only named; what is claimed beyond the name is its
/// shape, which `Hash::to_hex` builds from a 32-byte digest and a lowercase table.
#[verifier::external_body]
pub(crate) fn blake3_hex_of(bytes: &[u8]) -> (r: String)
    ensures
        r@ == blake3_hex(bytes@),
        r@.len() == 64,
        forall|i: int| 0 <= i < r@.len() ==> is_lower_hex_digit(#[trigger] r@[i]),
{
    blake3::hash(bytes).to_hex().to_string()
}

} // verus!
