//! Token-counting backends and their stable identities.

use vstd::prelude::*;

use crate::error::TokenizerError;

pub mod builtin;
pub mod huggingface;

pub use builtin::{BuiltinEncoding, BuiltinTokenCounter};
pub use huggingface::HuggingFaceTokenCounter;

verus! {

/// Whether a tokenizer reproduces a reference definition or estimates it.
#[derive(Clone, Copy, Debug, PartialEq, Eq, Structural)]
pub enum AccuracyClass {
    /// Reference-faithful local tokenization.
    Exact,
    /// An explicitly approximate substitute.
    Proxy,
}

/// Source of a tokenizer definition.
#[derive(Clone, Copy, Debug, PartialEq, Eq, Structural)]
pub enum TokenizerKind {
    /// Tokenizer data shipped with the library.
    Builtin,
    /// Tokenizer loaded from a local artifact.
    LocalFile,
    /// Approximate tokenizer selected for another target.
    Proxy,
}

/// Raw-text behavior used by a tokenizer.
#[derive(Clone, Copy, Debug, PartialEq, Eq, Structural)]
pub enum RawTextSemantics {
    /// Tiktoken ordinary encoding with no recognized special tokens.
    Ordinary,
    /// Artifact-defined normalization, pre-tokenization, and added-token matching.
    Artifact,
}

/// Identity and accuracy information that accompanies every count.
#[derive(Debug, PartialEq, Eq)]
pub struct TokenizerMetadata {
    /// Source of the tokenizer definition.
    pub kind: TokenizerKind,
    /// Human-readable tokenizer name.
    pub name: String,
    /// Stable tokenizer-data and semantics identity.
    pub fingerprint: String,
    /// Whether the count is exact or a proxy.
    pub accuracy: AccuracyClass,
    /// Behavior used for raw strings.
    pub raw_text_semantics: RawTextSemantics,
}

impl Clone for TokenizerMetadata {
    fn clone(&self) -> (r: Self)
        ensures
            r == *self,
    {
        TokenizerMetadata {
            kind: self.kind,
            name: self.name.clone(),
            fingerprint: self.fingerprint.clone(),
            accuracy: self.accuracy,
            raw_text_semantics: self.raw_text_semantics,
        }
    }
}

/// Count-oriented tokenizer interface shared by every frontend.
pub trait TokenCounter: Send + Sync {
    /// Return stable metadata for this tokenizer instance.
    fn metadata(&self) -> &TokenizerMetadata;

    /// Count tokens in one already-decoded string.
    fn count(&self, text: &str) -> Result<u64, TokenizerError>;
}

/// The tokenizer selected for a measurement.
pub enum CountBackend {
    /// A built-in tiktoken-compatible encoding.
    Builtin(BuiltinTokenCounter),
    /// A local Hugging Face `tokenizer.json` artifact.
    HuggingFace(HuggingFaceTokenCounter),
    /// A counter supplied by the caller.
    Custom(CustomCounter),
}

/// A counter supplied by the caller, with the metadata it reported when it was selected.
pub struct CustomCounter {
    counter: Box<dyn TokenCounter>,
    metadata: TokenizerMetadata,
}

impl CustomCounter {
    /// The metadata the counter reported when it was selected.
    pub closed spec fn spec_metadata(&self) -> TokenizerMetadata {
        self.metadata
    }
}

impl CountBackend {
    /// Select a counter supplied by the caller; its metadata is read once, here.
    pub fn custom(counter: Box<dyn TokenCounter>) -> (r: CountBackend)
        ensures
            r is Custom,
    {
        let metadata = counter.metadata().clone();
        CountBackend::Custom(CustomCounter { counter, metadata })
    }

    /// The identity of the selected tokenizer.
    pub open spec fn spec_metadata(&self) -> TokenizerMetadata {
        match self {
            CountBackend::Builtin(c) => c.spec_metadata(),
            CountBackend::HuggingFace(c) => c.spec_metadata(),
            CountBackend::Custom(c) => c.spec_metadata(),
        }
    }

    /// The count this backend produces for a text, where it is stated.
    pub open spec fn spec_count(&self, text: Seq<char>) -> Option<nat> {
        match self {
            CountBackend::Builtin(c) => builtin::builtin_count(c.spec_encoding(), text),
            _ => None,
        }
    }

    /// Whether `e` is an error this backend may report: a backend error, or
    /// any error of a counter supplied by the caller.
    pub open spec fn spec_reports(&self, e: TokenizerError) -> bool {
        self is Custom || e is Backend
    }

    /// Count tokens; a built-in encoding succeeds exactly where its count is stated.
    pub fn count_tokens(&self, text: &str) -> (r: Result<u64, TokenizerError>)
        ensures
            self.spec_count(text@) matches Some(n) ==> r matches Ok(t) && t == n,
            self is Builtin ==> (r is Ok <==> self.spec_count(text@) is Some),
            r matches Err(e) ==> self.spec_reports(e),
    {
        match self {
            CountBackend::Builtin(c) => c.count_tokens(text),
            CountBackend::HuggingFace(c) => c.count_tokens(text),
            CountBackend::Custom(c) => c.counter.count(text),
        }
    }

    /// The identity of the selected tokenizer.
    pub fn metadata_ref(&self) -> (r: &TokenizerMetadata)
        ensures
            *r == self.spec_metadata(),
    {
        match self {
            CountBackend::Builtin(c) => c.metadata_ref(),
            CountBackend::HuggingFace(c) => c.metadata_ref(),
            CountBackend::Custom(c) => &c.metadata,
        }
    }
}

impl TokenCounter for CountBackend {
    fn metadata(&self) -> (r: &TokenizerMetadata)
        ensures
            *r == self.spec_metadata(),
    {
        self.metadata_ref()
    }

    fn count(&self, text: &str) -> (r: Result<u64, TokenizerError>)
        ensures
            self.spec_count(text@) matches Some(n) ==> r matches Ok(t) && t == n,
            self is Builtin ==> (r is Ok <==> self.spec_count(text@) is Some),
            r matches Err(e) ==> self.spec_reports(e),
    {
        self.count_tokens(text)
    }
}

} // verus!
