//! Deterministic binary detection and UTF-8 decoding.

use vstd::prelude::*;
use vstd::utf8::{decode_utf8, valid_utf8};

use crate::file::{InvalidUtf8Policy, SkipReason};

verus! {

/// Number of leading bytes inspected by the binary-file heuristic.
pub const BINARY_INSPECTION_BYTES: usize = 8192;

/// The text that `String::from_utf8_lossy` produces for a byte sequence.
pub uninterp spec fn utf8_lossy(bytes: Seq<u8>) -> Seq<char>;

/// `std::str::from_utf8`: the decoded text when the bytes are valid UTF-8.
///
/// The standard library documents that the call succeeds exactly on valid
/// UTF-8 and then yields the encoded characters; that is what is claimed.
#[verifier::external_body]
fn strict_utf8(bytes: &[u8]) -> (r: Option<String>)
    ensures
        r is Some <==> valid_utf8(bytes@),
        r matches Some(s) ==> s@ == decode_utf8(bytes@),
{
    std::str::from_utf8(bytes).ok().map(str::to_owned)
}

/// `String::from_utf8_lossy`: the bytes decoded with invalid sequences replaced
/// by U+FFFD. Only the documented case of valid input is stated beyond the name.
#[verifier::external_body]
fn lossy_utf8(bytes: &[u8]) -> (r: String)
    ensures
        r@ == utf8_lossy(bytes@),
        valid_utf8(bytes@) ==> r@ == decode_utf8(bytes@),
{
    String::from_utf8_lossy(bytes).into_owned()
}

/// Outcome of decoding one byte input.
pub enum DecodeOutcome {
    /// The bytes decoded to text.
    Text {
        /// Decoded text.
        text: String,
        /// Whether invalid sequences were replaced.
        decoded_lossily: bool,
    },
    /// The bytes were not measured.
    Skipped {
        /// Stable skip category.
        reason: SkipReason,
        /// Specific detected encoding, when known.
        detail: Option<&'static str>,
    },
}

/// Whether `b` begins with the bytes of `prefix`.
pub open spec fn bytes_start_with(b: Seq<u8>, prefix: Seq<u8>) -> bool {
    prefix.len() <= b.len() && b.take(prefix.len() as int) == prefix
}

/// The unsupported encoding announced by a byte-order mark, if any.
pub open spec fn spec_unsupported_bom(b: Seq<u8>) -> Option<Seq<char>> {
    if bytes_start_with(b, seq![255u8, 254u8, 0u8, 0u8]) {
        Some("UTF-32LE"@)
    } else if bytes_start_with(b, seq![0u8, 0u8, 254u8, 255u8]) {
        Some("UTF-32BE"@)
    } else if bytes_start_with(b, seq![255u8, 254u8]) {
        Some("UTF-16LE"@)
    } else if bytes_start_with(b, seq![254u8, 255u8]) {
        Some("UTF-16BE"@)
    } else {
        None
    }
}

/// Whether a NUL byte occurs among the inspected leading bytes.
pub open spec fn looks_binary(b: Seq<u8>) -> bool {
    exists|i: int| 0 <= i < b.len() && i < BINARY_INSPECTION_BYTES && b[i] == 0u8
}

/// The skip reason (with detail) decoding assigns, or `None` when the bytes are measured.
pub open spec fn decode_skip(b: Seq<u8>, policy: InvalidUtf8Policy) -> Option<(SkipReason, Option<Seq<char>>)> {
    if spec_unsupported_bom(b) is Some {
        Some((SkipReason::UnsupportedEncoding, spec_unsupported_bom(b)))
    } else if looks_binary(b) {
        Some((SkipReason::Binary, None))
    } else if !valid_utf8(b) && policy == InvalidUtf8Policy::Skip {
        Some((SkipReason::InvalidUtf8, None))
    } else {
        None
    }
}

/// The text decoding yields for bytes that are measured.
pub open spec fn decoded_text(b: Seq<u8>) -> Seq<char> {
    if valid_utf8(b) {
        decode_utf8(b)
    } else {
        utf8_lossy(b)
    }
}

/// Whether a decoded outcome agrees with the decoding rules for these bytes.
pub open spec fn decode_matches(outcome: DecodeOutcome, b: Seq<u8>, policy: InvalidUtf8Policy) -> bool {
    match outcome {
        DecodeOutcome::Text { text, decoded_lossily } => {
            &&& decode_skip(b, policy) is None
            &&& text@ == decoded_text(b)
            &&& decoded_lossily == !valid_utf8(b)
        },
        DecodeOutcome::Skipped { reason, detail } => match decode_skip(b, policy) {
            Some((expected_reason, expected_detail)) => {
                &&& reason == expected_reason
                &&& match detail {
                    Some(d) => expected_detail == Some(d@),
                    None => expected_detail is None,
                }
            },
            None => false,
        },
    }
}

fn starts_with_bytes(b: &[u8], prefix: &[u8]) -> (r: bool)
    ensures
        r == bytes_start_with(b@, prefix@),
{
    if prefix.len() > b.len() {
        return false;
    }
    let mut i: usize = 0;
    while i < prefix.len()
        invariant
            prefix.len() <= b.len(),
            i <= prefix.len(),
            forall|j: int| 0 <= j < i ==> b@[j] == prefix@[j],
        decreases prefix.len() - i,
    {
        if b[i] != prefix[i] {
            assert(b@.take(prefix.len() as int)[i as int] != prefix@[i as int]);
            return false;
        }
        i += 1;
    }
    assert(b@.take(prefix.len() as int) =~= prefix@);
    true
}

/// The unsupported encoding announced by a leading byte-order mark.
pub fn unsupported_bom(bytes: &[u8]) -> (r: Option<&'static str>)
    ensures
        match r {
            Some(name) => spec_unsupported_bom(bytes@) == Some(name@),
            None => spec_unsupported_bom(bytes@) is None,
        },
{
    let utf32le: [u8; 4] = [255, 254, 0, 0];
    let utf32be: [u8; 4] = [0, 0, 254, 255];
    let utf16le: [u8; 2] = [255, 254];
    let utf16be: [u8; 2] = [254, 255];
    assert(utf32le@ =~= seq![255u8, 254u8, 0u8, 0u8]);
    assert(utf32be@ =~= seq![0u8, 0u8, 254u8, 255u8]);
    assert(utf16le@ =~= seq![255u8, 254u8]);
    assert(utf16be@ =~= seq![254u8, 255u8]);
    if starts_with_bytes(bytes, &utf32le) {
        Some("UTF-32LE")
    } else if starts_with_bytes(bytes, &utf32be) {
        Some("UTF-32BE")
    } else if starts_with_bytes(bytes, &utf16le) {
        Some("UTF-16LE")
    } else if starts_with_bytes(bytes, &utf16be) {
        Some("UTF-16BE")
    } else {
        None
    }
}

/// Whether a NUL byte occurs in the inspected leading bytes.
pub fn has_nul_prefix(bytes: &[u8]) -> (r: bool)
    ensures
        r == looks_binary(bytes@),
{
    let limit: usize = if bytes.len() < BINARY_INSPECTION_BYTES {
        bytes.len()
    } else {
        BINARY_INSPECTION_BYTES
    };
    let mut i: usize = 0;
    while i < limit
        invariant
            limit <= bytes.len(),
            limit <= BINARY_INSPECTION_BYTES,
            limit == bytes.len() || limit == BINARY_INSPECTION_BYTES,
            i <= limit,
            forall|j: int| 0 <= j < i ==> bytes@[j] != 0u8,
        decreases limit - i,
    {
        if bytes[i] == 0 {
            assert(bytes@[i as int] == 0u8);
            return true;
        }
        i += 1;
    }
    false
}

/// Decode bytes under the given invalid-UTF-8 policy, or report why they are skipped.
pub fn decode(bytes: &[u8], invalid_utf8: InvalidUtf8Policy) -> (r: DecodeOutcome)
    ensures
        decode_matches(r, bytes@, invalid_utf8),
{
    if let Some(encoding) = unsupported_bom(bytes) {
        return DecodeOutcome::Skipped {
            reason: SkipReason::UnsupportedEncoding,
            detail: Some(encoding),
        };
    }
    if has_nul_prefix(bytes) {
        return DecodeOutcome::Skipped { reason: SkipReason::Binary, detail: None };
    }
    match strict_utf8(bytes) {
        Some(text) => DecodeOutcome::Text { text, decoded_lossily: false },
        None => {
            match invalid_utf8 {
                InvalidUtf8Policy::Skip => DecodeOutcome::Skipped {
                    reason: SkipReason::InvalidUtf8,
                    detail: None,
                },
                InvalidUtf8Policy::Lossy => DecodeOutcome::Text {
                    text: lossy_utf8(bytes),
                    decoded_lossily: true,
                },
            }
        },
    }
}

} // verus!
