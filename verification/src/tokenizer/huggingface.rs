//! Exact raw-text counting from local Hugging Face tokenizer artifacts.

use vstd::prelude::*;

use super::{AccuracyClass, RawTextSemantics, TokenCounter, TokenizerKind, TokenizerMetadata};
use crate::chars::{chars_of, concat3, string_of};
use crate::error::TokenizerError;
use crate::hash::{blake3_hex, blake3_hex_of};
use crate::path::{file_name, file_name_of};

verus! {

#[verifier::external_type_specification]
#[verifier::external_body]
pub struct ExTokenizer(tokenizers::Tokenizer);

/// What `tokenizers::Tokenizer::from_bytes` reports for an artifact: `None` when
/// the bytes deserialize to a tokenizer, otherwise the error's message.
pub uninterp spec fn artifact_load_problem(bytes: Seq<u8>) -> Option<Seq<char>>;

/// The bytes of the name `Precompiled`.
pub open spec fn precompiled_name() -> Seq<u8> {
    seq![80u8, 114u8, 101u8, 99u8, 111u8, 109u8, 112u8, 105u8, 108u8, 101u8, 100u8]
}

/// Whether the name `Precompiled` is written out at position `i`.
pub open spec fn name_at(b: Seq<u8>, i: int) -> bool {
    0 <= i && i + 11 <= b.len() && b.subrange(i, i + 11) == precompiled_name()
}

/// Whether a JSON escape `\u004x` to `\u007x`, which can spell an ASCII letter, starts at `i`.
pub open spec fn letter_escape_at(b: Seq<u8>, i: int) -> bool {
    &&& 0 <= i && i + 5 <= b.len()
    &&& b[i] == 92u8 && b[i + 1] == 117u8 && b[i + 2] == 48u8 && b[i + 3] == 48u8
    &&& 52u8 <= b[i + 4] <= 55u8
}

/// Whether the name `Precompiled`, or an escape that can spell one of its
/// letters, starts at `i`.
pub open spec fn hint_at(b: Seq<u8>, i: int) -> bool {
    name_at(b, i) || letter_escape_at(b, i)
}

/// Whether an artifact may name a `Precompiled` normalizer: the name is written
/// out, or a JSON string could spell it with escaped letters.
pub open spec fn may_name_precompiled(b: Seq<u8>) -> bool {
    exists|i: int| 0 <= i < b.len() && #[trigger] hint_at(b, i)
}

/// The message given for artifacts whose normalizer cannot be loaded safely.
pub open spec fn precompiled_message() -> Seq<char> {
    "artifacts with a Precompiled normalizer are not supported"@
}

/// What loading an artifact reports: `None` when it loads, otherwise the message.
pub open spec fn artifact_problem(bytes: Seq<u8>) -> Option<Seq<char>> {
    if may_name_precompiled(bytes) {
        Some(precompiled_message())
    } else {
        artifact_load_problem(bytes)
    }
}

/// `tokenizers::Tokenizer::from_bytes`: deserializes a `tokenizer.json` artifact
/// with `serde_json::from_slice`, a function of the bytes alone. Whether it
/// succeeds, and the message when it does not, is only named.
///
/// The deserializer panics (`expect("Precompiled")` in `normalizers/mod.rs`)
/// when a normalizer tagged `Precompiled` has fields that do not parse, so an
/// artifact that may name that tag is left out. Every other failure of the
/// deserializer is returned as an error.
#[verifier::external_body]
fn tokenizer_from_bytes(bytes: &[u8]) -> (r: Result<tokenizers::Tokenizer, String>)
    requires
        !may_name_precompiled(bytes@),
    ensures
        match r {
            Ok(_) => artifact_load_problem(bytes@) is None,
            Err(m) => artifact_load_problem(bytes@) == Some(m@),
        },
{
    tokenizers::Tokenizer::from_bytes(bytes).map_err(|error| error.to_string())
}

fn name_at_in(b: &[u8], i: usize) -> (r: bool)
    ensures
        r == name_at(b@, i as int),
{
    if i > b.len() || b.len() - i < 11 {
        return false;
    }
    let name: [u8; 11] = [80, 114, 101, 99, 111, 109, 112, 105, 108, 101, 100];
    let mut k: usize = 0;
    while k < 11
        invariant
            k <= 11,
            i + 11 <= b.len(),
            name@ == precompiled_name(),
            forall|j: int| 0 <= j < k ==> b@[i + j] == precompiled_name()[j],
        decreases 11 - k,
    {
        if b[i + k] != name[k] {
            assert(b@.subrange(i as int, i + 11)[k as int] != precompiled_name()[k as int]);
            return false;
        }
        k += 1;
    }
    assert(b@.subrange(i as int, i + 11) =~= precompiled_name());
    true
}

/// Whether the bytes may name a `Precompiled` normalizer.
fn may_name_precompiled_in(b: &[u8]) -> (r: bool)
    ensures
        r == may_name_precompiled(b@),
{
    let mut i: usize = 0;
    while i < b.len()
        invariant
            i <= b.len(),
            forall|j: int| 0 <= j < i ==> !#[trigger] hint_at(b@, j),
        decreases b.len() - i,
    {
        let escape = b.len() - i >= 5 && b[i] == 92 && b[i + 1] == 117 && b[i + 2] == 48 && b[i + 3] == 48
            && 52 <= b[i + 4] && b[i + 4] <= 55;
        if name_at_in(b, i) || escape {
            assert(hint_at(b@, i as int));
            return true;
        }
        assert(!hint_at(b@, i as int));
        i += 1;
    }
    false
}

/// `TokenizerImpl::with_truncation(None)`: removes truncation. With `None` the
/// crate's source assigns the field and returns `Ok` without any check.
#[verifier::external_body]
fn disable_truncation(tokenizer: &mut tokenizers::Tokenizer) -> (r: Result<(), String>)
    ensures
        r is Ok,
{
    tokenizer.with_truncation(None).map(|_| ()).map_err(|error| error.to_string())
}

/// `TokenizerImpl::with_padding(None)`: removes padding.
#[verifier::external_body]
fn disable_padding(tokenizer: &mut tokenizers::Tokenizer) {
    tokenizer.with_padding(None);
}

/// `TokenizerImpl::encode(text, false).len()`: tokens of a text without
/// special-token framing. The count depends on the loaded artifact, which
/// Verus sees as an opaque value, so nothing is claimed of it. The crate's
/// pipeline returns the failures of its components as errors (a regex split
/// hands fancy-regex failures back through `find_matches`); that no normalizer,
/// pre-tokenizer or model of an artifact panics on some text is assumed, not
/// traced through the crate.
#[verifier::external_body]
fn encode_len(tokenizer: &tokenizers::Tokenizer, text: &str) -> (r: Result<usize, String>) {
    tokenizer.encode(text, false).map(|encoding| encoding.len()).map_err(|error| error.to_string())
}

/// The name reported for an artifact: its file name, or `tokenizer.json`.
pub open spec fn artifact_name(path: Seq<char>) -> Seq<char> {
    match file_name(path) {
        Some(name) => name,
        None => "tokenizer.json"@,
    }
}

/// The fingerprint reported for an artifact: the BLAKE3 digest of its exact bytes.
pub open spec fn artifact_fingerprint(bytes: Seq<u8>) -> Seq<char> {
    "huggingface:blake3:"@ + blake3_hex(bytes) + ":raw-v1"@
}

/// An artifact's fingerprint depends on its bytes alone, never on its path,
/// and two artifacts share a fingerprint only when their BLAKE3 digests agree.
pub proof fn law_fingerprint_is_the_content_digest(
    p1: Seq<char>,
    b1: Seq<u8>,
    m1: TokenizerMetadata,
    p2: Seq<char>,
    b2: Seq<u8>,
    m2: TokenizerMetadata,
)
    requires
        HuggingFaceTokenCounter::spec_metadata_for(p1, b1, m1),
        HuggingFaceTokenCounter::spec_metadata_for(p2, b2, m2),
    ensures
        b1 == b2 ==> m1.fingerprint@ == m2.fingerprint@,
        m1.fingerprint@ == m2.fingerprint@ ==> blake3_hex(b1) == blake3_hex(b2),
{
    reveal_strlit("huggingface:blake3:");
    reveal_strlit(":raw-v1");
    let pre = "huggingface:blake3:"@;
    let post = ":raw-v1"@;
    if m1.fingerprint@ == m2.fingerprint@ {
        let f1 = pre + blake3_hex(b1) + post;
        let f2 = pre + blake3_hex(b2) + post;
        assert(f1.len() == f2.len());
        assert(blake3_hex(b1).len() == blake3_hex(b2).len());
        assert(blake3_hex(b1) =~= f1.subrange(pre.len() as int, (pre.len() + blake3_hex(b1).len()) as int));
        assert(blake3_hex(b2) =~= f2.subrange(pre.len() as int, (pre.len() + blake3_hex(b2).len()) as int));
    }
}

/// Counter loaded from the exact bytes of one local `tokenizer.json` artifact.
pub struct HuggingFaceTokenCounter {
    tokenizer: tokenizers::Tokenizer,
    metadata: TokenizerMetadata,
}

impl HuggingFaceTokenCounter {
    /// Identity reported with every count.
    pub closed spec fn spec_metadata(&self) -> TokenizerMetadata {
        self.metadata
    }

    /// Return the identity reported with every count.
    pub fn metadata_ref(&self) -> (r: &TokenizerMetadata)
        ensures
            *r == self.spec_metadata(),
    {
        &self.metadata
    }

    /// Whether `m` is the metadata reported for the artifact at `path` with `bytes`.
    pub open spec fn spec_metadata_for(path: Seq<char>, bytes: Seq<u8>, m: TokenizerMetadata) -> bool {
        &&& m.kind == TokenizerKind::LocalFile
        &&& m.name@ == artifact_name(path)
        &&& m.fingerprint@ == artifact_fingerprint(bytes)
        &&& m.accuracy == AccuracyClass::Exact
        &&& m.raw_text_semantics == RawTextSemantics::Artifact
    }

    /// Finish loading an artifact from the deserializer's outcome.
    pub fn from_parsed(
        path: &str,
        bytes: &[u8],
        parsed: Result<tokenizers::Tokenizer, String>,
    ) -> (r: Result<Self, TokenizerError>)
        ensures
            match parsed {
                Ok(_) => r matches Ok(c) && HuggingFaceTokenCounter::spec_metadata_for(
                    path@,
                    bytes@,
                    c.spec_metadata(),
                ),
                Err(msg) => r matches Err(TokenizerError::ArtifactInvalid { path: p, message })
                    && p@ == path@ && message == msg,
            },
    {
        let mut tokenizer = match parsed {
            Ok(tokenizer) => tokenizer,
            Err(message) => {
                return Err(TokenizerError::ArtifactInvalid { path: path.to_owned(), message });
            },
        };
        // A measurement must cover the complete input and must not introduce
        // fixed-width padding, regardless of serialized runtime settings.
        if let Err(message) = disable_truncation(&mut tokenizer) {
            return Err(TokenizerError::ArtifactInvalid { path: path.to_owned(), message });
        }
        disable_padding(&mut tokenizer);
        let path_chars = chars_of(path);
        let name = match file_name_of(path_chars.as_slice()) {
            Some(name) => string_of(name.as_slice()),
            None => "tokenizer.json".to_owned(),
        };
        let digest = blake3_hex_of(bytes);
        let fingerprint = concat3("huggingface:blake3:", digest.as_str(), ":raw-v1");
        Ok(HuggingFaceTokenCounter {
            tokenizer,
            metadata: TokenizerMetadata {
                kind: TokenizerKind::LocalFile,
                name,
                fingerprint,
                accuracy: AccuracyClass::Exact,
                raw_text_semantics: RawTextSemantics::Artifact,
            },
        })
    }

    /// Load a tokenizer artifact from its exact bytes; `path` names it in
    /// metadata and errors.
    pub fn from_artifact(path: &str, bytes: &[u8]) -> (r: Result<Self, TokenizerError>)
        ensures
            match artifact_problem(bytes@) {
                None => r matches Ok(c) && HuggingFaceTokenCounter::spec_metadata_for(
                    path@,
                    bytes@,
                    c.spec_metadata(),
                ),
                Some(m) => r matches Err(TokenizerError::ArtifactInvalid { path: p, message })
                    && p@ == path@ && message@ == m,
            },
    {
        if may_name_precompiled_in(bytes) {
            return Err(
                TokenizerError::ArtifactInvalid {
                    path: path.to_owned(),
                    message: "artifacts with a Precompiled normalizer are not supported".to_owned(),
                },
            );
        }
        let parsed = tokenizer_from_bytes(bytes);
        HuggingFaceTokenCounter::from_parsed(path, bytes, parsed)
    }

    /// Count tokens in one decoded text without special-token framing.
    pub fn count_tokens(&self, text: &str) -> (r: Result<u64, TokenizerError>)
        ensures
            r matches Err(e) ==> e is Backend,
    {
        HuggingFaceTokenCounter::count_from_encoding(encode_len(&self.tokenizer, text))
    }

    /// The count reported for the outcome of encoding a text: its number of
    /// tokens, or the encoder's message as a backend error.
    pub fn count_from_encoding(encoded: Result<usize, String>) -> (r: Result<u64, TokenizerError>)
        ensures
            match encoded {
                Ok(n) => r matches Ok(t) && t == n,
                Err(m) => r matches Err(TokenizerError::Backend(e)) && e == m,
            },
    {
        match encoded {
            Ok(n) => Ok(n as u64),
            Err(message) => Err(TokenizerError::Backend(message)),
        }
    }
}

impl TokenCounter for HuggingFaceTokenCounter {
    fn metadata(&self) -> (r: &TokenizerMetadata)
        ensures
            *r == self.spec_metadata(),
    {
        self.metadata_ref()
    }

    fn count(&self, text: &str) -> (r: Result<u64, TokenizerError>)
        ensures
            r matches Err(e) ==> e is Backend,
    {
        self.count_tokens(text)
    }
}

} // verus!
